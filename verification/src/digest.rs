//! SHA-256, computed by the `sha2` crate.
use sha2::{Digest, Sha256};
use vstd::prelude::*;

verus! {

/// The SHA-256 digest of a byte string.
pub uninterp spec fn sha256_spec(data: Seq<u8>) -> Seq<u8>;

/// SHA-256 of `data`, by `sha2::Sha256::digest`.
///
/// Trusted: the 32 bytes returned are the digest of exactly the bytes of
/// `data` (named `sha256_spec`); the hash function itself is not modelled.
#[verifier::external_body]
pub(crate) fn sha256(data: &[u8]) -> (r: [u8; 32])
    ensures
        r@ == sha256_spec(data@),
{
    Sha256::digest(data).into()
}

} // verus!
