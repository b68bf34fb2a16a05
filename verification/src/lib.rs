//! Verified ranked-choice (instant-runoff) tallying: the IRV core, the
//! enclave-side ballot decoding, the attestation byte layouts, and the
//! on-chain election state machine.
pub mod types;
pub mod seqs;
pub mod irv;
pub mod irv_laws;
pub mod codec;
pub mod codec_laws;
pub mod digest;
pub mod hexcodec;
pub mod binding;
pub mod fields;
pub mod decrypt;
pub mod ballot_codec;
pub mod contract;
pub mod honest_tally;
pub mod enclave;

pub use decrypt::{decrypt_and_validate, tally_spec};
pub use irv::irv_spec;
pub use types::{Ballot, DecryptedSet, IRVResult, RawEntry, RoundCount, TallyResult};
