//! Verifying a TDX quote as the contract sees it: the gnark public inputs
//! must match the registry's measurements, carry an accepted TcbStatus,
//! and bind the expected ReportData under the right domain tag; and the
//! chain's gnark verifier must accept the proof.
use vstd::prelude::*;
use crate::binding::{registration_digest, registration_preimage, tag_report_data, tagged, DST_PUBKEY, DST_TALLY};
use crate::codec::bytes_eq;
use crate::contract::error::{ContractError, ErrorView, GnarkVerdict};
use crate::contract::layout::{extract_measurement_48, extract_report_data, extract_u64_from_fr, fr_is_u64, fr_u64, read_field, validate_public_inputs_shape, ELEM_MRTD_START, ELEM_RTMR0_START, ELEM_RTMR1_START, ELEM_RTMR2_START, ELEM_RTMR3_START, ELEM_TCBSTATUS, GNARK_PUBLIC_INPUTS_LEN};
use crate::contract::state::{EnclaveImageRegistry, RegistryView};
use crate::digest::{sha256, sha256_spec};

verus! {

// ---------------------------------------------------------------------------
// Model
// ---------------------------------------------------------------------------

/// `a` if it is an error, else `b`.
pub open spec fn or_else(a: Option<ErrorView>, b: Option<ErrorView>) -> Option<ErrorView> {
    if a is Some {
        a
    } else {
        b
    }
}

/// Why the 48-byte register from element `start` does not match
/// `expected`, if it does not.
pub open spec fn measure_error(pi: Seq<u8>, start: int, expected: Seq<u8>, name: Seq<char>) -> Option<ErrorView> {
    match read_field(pi, start, 48) {
        Err(e) => Some(e),
        Ok(m) => if m == expected {
            None
        } else {
            Some(ErrorView::AttestationMeasurementMismatch { field: name })
        },
    }
}

/// Why the registers do not match the registry, if they do not: MRTD,
/// RTMR1, RTMR2, then RTMR0 and RTMR3 where the registry binds them.
pub open spec fn measurements_error(pi: Seq<u8>, reg: RegistryView) -> Option<ErrorView> {
    or_else(
        measure_error(pi, 0, reg.mrtd, "mrtd"@),
        or_else(
            measure_error(pi, 96, reg.rtmr1, "rtmr1"@),
            or_else(
                measure_error(pi, 144, reg.rtmr2, "rtmr2"@),
                or_else(
                    match reg.rtmr0 {
                        Some(x) => measure_error(pi, 48, x, "rtmr0"@),
                        None => None,
                    },
                    match reg.rtmr3 {
                        Some(x) => measure_error(pi, 192, x, "rtmr3"@),
                        None => None,
                    },
                ),
            ),
        ),
    )
}

/// Why the TcbStatus is not accepted, if it is not.
pub open spec fn tcb_error(pi: Seq<u8>, reg: RegistryView) -> Option<ErrorView> {
    if !fr_is_u64(pi, 304) {
        Some(ErrorView::GnarkPublicInputOutOfRange { elem_idx: 304 })
    } else if fr_u64(pi, 304) > 6 || !reg.accepted_tcb_statuses.contains(fr_u64(pi, 304) as u8) {
        Some(ErrorView::AttestationTcbStatusUnaccepted { status: fr_u64(pi, 304) as u8 })
    } else {
        None
    }
}

/// ReportData[32..64] is `tag` followed by zeros.
pub open spec fn dst_ok(rd: Seq<u8>, tag: Seq<u8>) -> bool {
    tag.len() <= 32 && rd.subrange(32, 64) == tag + Seq::new((32 - tag.len()) as nat, |i: int| 0u8)
}

/// Why public inputs fail the checks shared by both quote kinds, if they do.
pub open spec fn quote_prefix_error(pi: Seq<u8>, reg: RegistryView) -> Option<ErrorView> {
    if pi.len() != 9792 {
        Some(ErrorView::GnarkPublicInputsLength { got: pi.len() as usize, expected: 9792 })
    } else {
        or_else(
            measurements_error(pi, reg),
            or_else(
                tcb_error(pi, reg),
                match read_field(pi, 240, 64) {
                    Err(e) => Some(e),
                    Ok(_) => None,
                },
            ),
        )
    }
}

/// The ReportData bytes, when they read back.
pub open spec fn report_bytes(pi: Seq<u8>) -> Seq<u8> {
    match read_field(pi, 240, 64) {
        Ok(b) => b,
        Err(_) => Seq::empty(),
    }
}

/// What the gnark verdict adds: nothing when the proof verifies.
pub open spec fn verdict_error(v: GnarkVerdict) -> Option<ErrorView> {
    match v {
        GnarkVerdict::Verified => None,
        GnarkVerdict::NotVerified => Some(ErrorView::ProofVerificationFailed),
        GnarkVerdict::QueryFailed(m) => Some(ErrorView::AttestationFailure(m@)),
    }
}

/// Why a publish ReportData is refused, if it is: its lower half is not
/// the commit, its upper half not the tally tag, or the proof failed.
pub open spec fn publish_binding_error(rd: Seq<u8>, commit: Seq<u8>, v: GnarkVerdict) -> Option<ErrorView> {
    if rd.subrange(0, 32) != commit {
        Some(ErrorView::AttestationCommitMismatch)
    } else if !dst_ok(rd, DST_TALLY@) {
        Some(ErrorView::AttestationDomainTagInvalid)
    } else {
        verdict_error(v)
    }
}

/// Why a publish quote is refused, if it is.
pub open spec fn publish_quote_error(pi: Seq<u8>, reg: RegistryView, commit: Seq<u8>, v: GnarkVerdict) -> Option<ErrorView> {
    or_else(quote_prefix_error(pi, reg), publish_binding_error(report_bytes(pi), commit, v))
}

/// Why a registration ReportData is refused, if it is.
pub open spec fn registration_binding_error(
    rd: Seq<u8>,
    pubkey: Seq<u8>,
    contract_addr: Seq<char>,
    election_id: u64,
    names_hash: Seq<u8>,
    v: GnarkVerdict,
) -> Option<ErrorView> {
    if rd.subrange(0, 32) != sha256_spec(registration_preimage(pubkey, contract_addr, election_id, names_hash)) {
        if rd.subrange(0, 32) == sha256_spec(pubkey) {
            Some(ErrorView::RegistrationQuoteWrongElection)
        } else {
            Some(ErrorView::AttestationPubkeyBindingMismatch)
        }
    } else if !dst_ok(rd, DST_PUBKEY@) {
        Some(ErrorView::AttestationDomainTagInvalid)
    } else {
        verdict_error(v)
    }
}

/// Why a registration quote is refused, if it is.
pub open spec fn registration_quote_error(
    pi: Seq<u8>,
    reg: RegistryView,
    pubkey: Seq<u8>,
    contract_addr: Seq<char>,
    election_id: u64,
    names_hash: Seq<u8>,
    v: GnarkVerdict,
) -> Option<ErrorView> {
    or_else(
        quote_prefix_error(pi, reg),
        registration_binding_error(report_bytes(pi), pubkey, contract_addr, election_id, names_hash, v),
    )
}

// ---------------------------------------------------------------------------
// Checks
// ---------------------------------------------------------------------------

fn match_register(
    public_inputs: &[u8],
    start: usize,
    expected: &Vec<u8>,
    field: &'static str,
) -> (r: Result<(), ContractError>)
    requires
        public_inputs@.len() >= 9792,
        start + 48 <= 240,
    ensures
        match measure_error(public_inputs@, start as int, expected@, field@) {
            None => r is Ok,
            Some(ev) => r matches Err(e) && e@ == ev,
        },
{
    let m = extract_measurement_48(public_inputs, start)?;
    if !bytes_eq(m.as_slice(), expected.as_slice()) {
        return Err(ContractError::AttestationMeasurementMismatch { field });
    }
    Ok(())
}

/// Refuses public inputs whose registers differ from the registry's.
pub fn verify_measurements_match_registry(public_inputs: &[u8], registry: &EnclaveImageRegistry) -> (r: Result<(), ContractError>)
    requires
        public_inputs@.len() >= GNARK_PUBLIC_INPUTS_LEN,
    ensures
        match measurements_error(public_inputs@, registry@) {
            None => r is Ok,
            Some(ev) => r matches Err(e) && e@ == ev,
        },
{
    match_register(public_inputs, ELEM_MRTD_START, &registry.mrtd, "mrtd")?;
    match_register(public_inputs, ELEM_RTMR1_START, &registry.rtmr1, "rtmr1")?;
    match_register(public_inputs, ELEM_RTMR2_START, &registry.rtmr2, "rtmr2")?;
    if let Some(reg_rtmr0) = &registry.rtmr0 {
        match_register(public_inputs, ELEM_RTMR0_START, reg_rtmr0, "rtmr0")?;
    }
    if let Some(reg_rtmr3) = &registry.rtmr3 {
        match_register(public_inputs, ELEM_RTMR3_START, reg_rtmr3, "rtmr3")?;
    }
    Ok(())
}

/// Refuses a TcbStatus above 6 or not in the registry's accepted set.
pub fn verify_tcb_status_accepted(public_inputs: &[u8], registry: &EnclaveImageRegistry) -> (r: Result<(), ContractError>)
    requires
        public_inputs@.len() >= GNARK_PUBLIC_INPUTS_LEN,
    ensures
        match tcb_error(public_inputs@, registry@) {
            None => r is Ok,
            Some(ev) => r matches Err(e) && e@ == ev,
        },
{
    let status_u64 = extract_u64_from_fr(public_inputs, ELEM_TCBSTATUS)?;
    if status_u64 > 6 {
        return Err(ContractError::AttestationTcbStatusUnaccepted { status: status_u64 as u8 });
    }
    let status = status_u64 as u8;
    let acc = &registry.accepted_tcb_statuses;
    let n = acc.len();
    let mut i: usize = 0;
    while i < n
        invariant
            n == acc@.len(),
            acc@ == registry@.accepted_tcb_statuses,
            public_inputs@.len() >= GNARK_PUBLIC_INPUTS_LEN,
            fr_is_u64(public_inputs@, 304),
            status_u64 as nat == fr_u64(public_inputs@, 304),
            status_u64 <= 6,
            status == status_u64 as u8,
            i <= n,
            forall|j: int| 0 <= j < i ==> acc@[j] != status,
        decreases n - i,
    {
        if acc[i] == status {
            assert(acc@.contains(status));
            return Ok(());
        }
        i += 1;
    }
    Err(ContractError::AttestationTcbStatusUnaccepted { status })
}

/// Refuses ReportData whose upper half is not `expected_literal` followed
/// by zeros.
pub fn check_dst_tag(report_data: &[u8; 64], expected_literal: &[u8]) -> (r: Result<(), ContractError>)
    ensures
        r is Ok <==> dst_ok(report_data@, expected_literal@),
        r matches Err(e) ==> e@ == ErrorView::AttestationDomainTagInvalid,
{
    let n = expected_literal.len();
    if n > 32 {
        return Err(ContractError::AttestationDomainTagInvalid);
    }
    let ghost target = expected_literal@ + Seq::new((32 - n) as nat, |i: int| 0u8);
    let mut k: usize = 0;
    while k < 32
        invariant
            n == expected_literal@.len(),
            n <= 32,
            target == expected_literal@ + Seq::new((32 - n) as nat, |i: int| 0u8),
            report_data@.len() == 64,
            k <= 32,
            forall|j: int| 0 <= j < k ==> report_data@[32 + j] == #[trigger] target[j],
        decreases 32 - k,
    {
        let want: u8 = if k < n {
            expected_literal[k]
        } else {
            0
        };
        assert(want == target[k as int]);
        let got = report_data[32 + k];
        assert(got == report_data@[32 + k as int]);
        if got != want {
            assert(report_data@.subrange(32, 64)[k as int] != target[k as int]);
            return Err(ContractError::AttestationDomainTagInvalid);
        }
        k += 1;
    }
    assert forall|j: int| 0 <= j < 32 implies report_data@.subrange(32, 64)[j] == target[j] by {
        assert(report_data@.subrange(32, 64)[j] == report_data@[32 + j]);
    }
    assert(report_data@.subrange(32, 64) =~= target);
    Ok(())
}

fn apply_verdict(verdict: &GnarkVerdict) -> (r: Result<(), ContractError>)
    ensures
        match verdict_error(*verdict) {
            None => r is Ok,
            Some(ev) => r matches Err(e) && e@ == ev,
        },
{
    match verdict {
        GnarkVerdict::Verified => Ok(()),
        GnarkVerdict::NotVerified => Err(ContractError::ProofVerificationFailed),
        GnarkVerdict::QueryFailed(m) => Err(ContractError::AttestationFailure(m.clone())),
    }
}

/// Shape, registers, TcbStatus and ReportData extraction, shared by both
/// quote kinds; the ReportData on success.
fn check_quote_prefix(public_inputs: &[u8], registry: &EnclaveImageRegistry) -> (r: Result<[u8; 64], ContractError>)
    ensures
        match quote_prefix_error(public_inputs@, registry@) {
            None => r matches Ok(rd) && read_field(public_inputs@, 240, 64) == Ok::<Seq<u8>, ErrorView>(rd@),
            Some(ev) => r matches Err(e) && e@ == ev,
        },
{
    validate_public_inputs_shape(public_inputs)?;
    verify_measurements_match_registry(public_inputs, registry)?;
    verify_tcb_status_accepted(public_inputs, registry)?;
    extract_report_data(public_inputs)
}

/// The lower half of ReportData equals `h`.
fn lower_half_is(rd: &[u8; 64], h: &[u8; 32]) -> (r: bool)
    ensures
        r == (rd@.subrange(0, 32) == h@),
{
    let mut k: usize = 0;
    while k < 32
        invariant
            rd@.len() == 64,
            h@.len() == 32,
            k <= 32,
            forall|j: int| 0 <= j < k ==> rd@[j] == h@[j],
        decreases 32 - k,
    {
        if rd[k] != h[k] {
            assert(rd@.subrange(0, 32)[k as int] != h@[k as int]);
            return false;
        }
        k += 1;
    }
    assert(rd@.subrange(0, 32) =~= h@);
    true
}

/// Verifies a publish quote: registry measurements, accepted TcbStatus,
/// ReportData = `expected_commit` ‖ tally tag, and the gnark verdict.
pub fn verify_publish_quote(
    registry: &EnclaveImageRegistry,
    expected_commit: &[u8; 32],
    public_inputs: &[u8],
    verdict: &GnarkVerdict,
) -> (r: Result<(), ContractError>)
    ensures
        match publish_quote_error(public_inputs@, registry@, expected_commit@, *verdict) {
            None => r is Ok,
            Some(ev) => r matches Err(e) && e@ == ev,
        },
{
    let rd = check_quote_prefix(public_inputs, registry)?;
    if !lower_half_is(&rd, expected_commit) {
        return Err(ContractError::AttestationCommitMismatch);
    }
    check_dst_tag(&rd, DST_TALLY.as_slice())?;
    apply_verdict(verdict)
}

/// Verifies a registration quote: registry measurements, accepted
/// TcbStatus, ReportData = SHA-256(pubkey ‖ Borsh(contract_addr) ‖
/// u64_LE(election_id) ‖ names_hash) ‖ pubkey tag, and the gnark verdict.
/// A lower half equal to SHA-256(pubkey) alone is refused as bound to the
/// wrong election.
pub fn verify_registration_quote(
    registry: &EnclaveImageRegistry,
    enclave_pubkey: &[u8],
    contract_addr: &str,
    election_id: u64,
    names_hash: &[u8; 32],
    public_inputs: &[u8],
    verdict: &GnarkVerdict,
) -> (r: Result<(), ContractError>)
    ensures
        match registration_quote_error(
            public_inputs@,
            registry@,
            enclave_pubkey@,
            contract_addr@,
            election_id,
            names_hash@,
            *verdict,
        ) {
            None => r is Ok,
            Some(ev) => r matches Err(e) && e@ == ev,
        },
{
    let rd = check_quote_prefix(public_inputs, registry)?;
    let expected = registration_digest(enclave_pubkey, contract_addr, election_id, names_hash);
    if !lower_half_is(&rd, &expected) {
        let pubkey_only = sha256(enclave_pubkey);
        if lower_half_is(&rd, &pubkey_only) {
            return Err(ContractError::RegistrationQuoteWrongElection);
        }
        return Err(ContractError::AttestationPubkeyBindingMismatch);
    }
    check_dst_tag(&rd, DST_PUBKEY.as_slice())?;
    apply_verdict(verdict)
}

/// Publish ReportData: `commit_hash`, then the tally tag zero-padded.
pub fn build_publish_report_data(commit_hash: &[u8; 32]) -> (rd: [u8; 64])
    ensures
        rd@ == tagged(commit_hash@, DST_TALLY@),
{
    tag_report_data(commit_hash, DST_TALLY.as_slice())
}

} // verus!
