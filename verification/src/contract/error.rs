//! The contract's errors, and their model.
use vstd::prelude::*;

verus! {

/// Why a contract call was refused.
#[derive(Debug, Clone)]
pub enum ContractError {
    Unauthorized,
    NotEnoughCandidates,
    DuplicateCandidate,
    InvalidVotingWindow,
    NotVoting,
    NotTallying,
    AlreadyVoted,
    VoterNotCandidate,
    AlreadyResolved,
    AttestationFailure(String),
    NoElection,
    InvalidEnclavePubkey { got: usize },
    InvalidRegistry(String),
    ElectionAlreadyActive,
    RegistryUpdateDuringActiveElection,
    AttestationCommitMismatch,
    AttestationDomainTagInvalid,
    GnarkPublicInputsLength { got: usize, expected: usize },
    GnarkPublicInputNotU8 { elem_idx: usize },
    GnarkPublicInputOutOfRange { elem_idx: usize },
    ProofVerificationFailed,
    AttestationMeasurementMismatch { field: &'static str },
    AttestationPubkeyBindingMismatch,
    AttestationTcbStatusUnaccepted { status: u8 },
    RegistryUpdateAlreadyPending,
    NoPendingRegistryUpdate,
    RegistryUpdateTimelockNotExpired,
    PendingRegistryUpdateBlocksCreateElection,
    FinalizeDuringActiveElection,
    RegistrationQuoteWrongElection,
    CandidateNamesLengthMismatch { expected: usize, actual: usize },
    CandidateNameEmpty { index: usize },
    CandidateNameTooLong { index: usize, len: usize, max: usize },
    CandidateNameContainsNul { index: usize },
    DuplicateCandidateName { index: usize, duplicate_of: usize },
}

/// Model of a [`ContractError`]: the same variants, text by its characters.
pub enum ErrorView {
    Unauthorized,
    NotEnoughCandidates,
    DuplicateCandidate,
    InvalidVotingWindow,
    NotVoting,
    NotTallying,
    AlreadyVoted,
    VoterNotCandidate,
    AlreadyResolved,
    AttestationFailure(Seq<char>),
    NoElection,
    InvalidEnclavePubkey { got: usize },
    InvalidRegistry(Seq<char>),
    ElectionAlreadyActive,
    RegistryUpdateDuringActiveElection,
    AttestationCommitMismatch,
    AttestationDomainTagInvalid,
    GnarkPublicInputsLength { got: usize, expected: usize },
    GnarkPublicInputNotU8 { elem_idx: usize },
    GnarkPublicInputOutOfRange { elem_idx: usize },
    ProofVerificationFailed,
    AttestationMeasurementMismatch { field: Seq<char> },
    AttestationPubkeyBindingMismatch,
    AttestationTcbStatusUnaccepted { status: u8 },
    RegistryUpdateAlreadyPending,
    NoPendingRegistryUpdate,
    RegistryUpdateTimelockNotExpired,
    PendingRegistryUpdateBlocksCreateElection,
    FinalizeDuringActiveElection,
    RegistrationQuoteWrongElection,
    CandidateNamesLengthMismatch { expected: usize, actual: usize },
    CandidateNameEmpty { index: usize },
    CandidateNameTooLong { index: usize, len: usize, max: usize },
    CandidateNameContainsNul { index: usize },
    DuplicateCandidateName { index: usize, duplicate_of: usize },
}

impl View for ContractError {
    type V = ErrorView;

    open spec fn view(&self) -> ErrorView {
        match self {
            ContractError::Unauthorized => ErrorView::Unauthorized,
            ContractError::NotEnoughCandidates => ErrorView::NotEnoughCandidates,
            ContractError::DuplicateCandidate => ErrorView::DuplicateCandidate,
            ContractError::InvalidVotingWindow => ErrorView::InvalidVotingWindow,
            ContractError::NotVoting => ErrorView::NotVoting,
            ContractError::NotTallying => ErrorView::NotTallying,
            ContractError::AlreadyVoted => ErrorView::AlreadyVoted,
            ContractError::VoterNotCandidate => ErrorView::VoterNotCandidate,
            ContractError::AlreadyResolved => ErrorView::AlreadyResolved,
            ContractError::AttestationFailure(s) => ErrorView::AttestationFailure(s@),
            ContractError::NoElection => ErrorView::NoElection,
            ContractError::InvalidEnclavePubkey { got } => ErrorView::InvalidEnclavePubkey { got: *got },
            ContractError::InvalidRegistry(s) => ErrorView::InvalidRegistry(s@),
            ContractError::ElectionAlreadyActive => ErrorView::ElectionAlreadyActive,
            ContractError::RegistryUpdateDuringActiveElection => ErrorView::RegistryUpdateDuringActiveElection,
            ContractError::AttestationCommitMismatch => ErrorView::AttestationCommitMismatch,
            ContractError::AttestationDomainTagInvalid => ErrorView::AttestationDomainTagInvalid,
            ContractError::GnarkPublicInputsLength { got, expected } => ErrorView::GnarkPublicInputsLength {
                got: *got,
                expected: *expected,
            },
            ContractError::GnarkPublicInputNotU8 { elem_idx } => ErrorView::GnarkPublicInputNotU8 {
                elem_idx: *elem_idx,
            },
            ContractError::GnarkPublicInputOutOfRange { elem_idx } => ErrorView::GnarkPublicInputOutOfRange {
                elem_idx: *elem_idx,
            },
            ContractError::ProofVerificationFailed => ErrorView::ProofVerificationFailed,
            ContractError::AttestationMeasurementMismatch { field } => ErrorView::AttestationMeasurementMismatch {
                field: field@,
            },
            ContractError::AttestationPubkeyBindingMismatch => ErrorView::AttestationPubkeyBindingMismatch,
            ContractError::AttestationTcbStatusUnaccepted { status } => ErrorView::AttestationTcbStatusUnaccepted {
                status: *status,
            },
            ContractError::RegistryUpdateAlreadyPending => ErrorView::RegistryUpdateAlreadyPending,
            ContractError::NoPendingRegistryUpdate => ErrorView::NoPendingRegistryUpdate,
            ContractError::RegistryUpdateTimelockNotExpired => ErrorView::RegistryUpdateTimelockNotExpired,
            ContractError::PendingRegistryUpdateBlocksCreateElection => ErrorView::PendingRegistryUpdateBlocksCreateElection,
            ContractError::FinalizeDuringActiveElection => ErrorView::FinalizeDuringActiveElection,
            ContractError::RegistrationQuoteWrongElection => ErrorView::RegistrationQuoteWrongElection,
            ContractError::CandidateNamesLengthMismatch { expected, actual } => ErrorView::CandidateNamesLengthMismatch {
                expected: *expected,
                actual: *actual,
            },
            ContractError::CandidateNameEmpty { index } => ErrorView::CandidateNameEmpty { index: *index },
            ContractError::CandidateNameTooLong { index, len, max } => ErrorView::CandidateNameTooLong {
                index: *index,
                len: *len,
                max: *max,
            },
            ContractError::CandidateNameContainsNul { index } => ErrorView::CandidateNameContainsNul {
                index: *index,
            },
            ContractError::DuplicateCandidateName { index, duplicate_of } => ErrorView::DuplicateCandidateName {
                index: *index,
                duplicate_of: *duplicate_of,
            },
        }
    }
}

/// What the chain's gnark verifier answered for a `(proof, public_inputs)`
/// pair under the registry's verification key.
#[derive(Debug, Clone)]
pub enum GnarkVerdict {
    /// The proof verifies.
    Verified,
    /// The verifier answered that the proof does not verify.
    NotVerified,
    /// The query could not be made or its answer not decoded; the text
    /// says why.
    QueryFailed(String),
}

} // verus!
