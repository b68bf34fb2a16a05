//! The on-chain election state machine: ballot storage, the enclave image
//! registry with its timelocked updates, the single-write tally slot, and
//! the checks a published tally and its attestation must pass.
pub mod error;
pub mod state;
pub mod layout;
pub mod checks;
pub mod tally_check;
pub mod quote;
pub mod keys;
pub mod handlers;
pub mod laws;
pub mod attest_laws;
pub mod entry;

pub use crate::binding::{
    build_registration_report_data, compute_ballots_hash, compute_commit_hash, compute_names_hash,
    DST_BALLOTS, DST_NAMES,
};
pub use crate::codec::canonical_serialization;
pub use error::{ContractError, GnarkVerdict};
