//! The tally service's request handling, once the enclave key is in hand:
//! tallying raw ballots into a publishable result with its attestation
//! artifacts, registering the enclave public key, and reporting health.
use vstd::prelude::*;
use crate::binding::{ballots_preimage, compute_ballots_hash, names_preimage, registration_preimage, tagged, DST_PUBKEY, DST_TALLY};
use crate::codec::{be_value, canonical_bytes};
use crate::contract::checks::pubkey_shape_ok;
use crate::decrypt::{decryptions, stage1, tally_of, tally_spec};
use crate::hexcodec::{hex_encode, hex_lower};
use crate::digest::sha256_spec;
use crate::enclave::attestation::{
    is_packed, produce_publish_artifacts, produce_registration_artifacts, sentinel_proof, EnclaveIdentity,
};
use crate::enclave::tdx_quote::Measurements;
use crate::types::{RawEntry, TallyResult};

verus! {

// ---------------------------------------------------------------------------
// Outside computations
// ---------------------------------------------------------------------------

/// The order of the secp256k1 group.
pub open spec fn secp256k1_order() -> nat {
    0xFFFF_FFFF_FFFF_FFFF_FFFF_FFFF_FFFF_FFFE_BAAE_DCE6_AF48_A03B_BFD2_5E8C_D036_4141nat
}

/// 32 bytes are a secp256k1 secret key: read big-endian, a non-zero scalar
/// below the group order.
pub open spec fn valid_secret(secret: Seq<u8>) -> bool {
    0 < be_value(secret) < secp256k1_order()
}

/// The compressed SEC1 public key of a secp256k1 secret key.
pub uninterp spec fn secp256k1_public_key(secret: Seq<u8>) -> Seq<u8>;

/// `k256::ecdsa::SigningKey::from_slice`, then the verifying key's
/// compressed SEC1 encoding.
///
/// Trusted: 32 bytes are accepted exactly when they are a non-zero scalar
/// below the group order; the key then depends on the secret alone (named
/// `secp256k1_public_key`) and, compressed, is 33 bytes, the first 0x02 or
/// 0x03. The curve arithmetic is not modelled.
#[verifier::external_body]
fn compressed_public_key(secret: &[u8; 32]) -> (r: Option<Vec<u8>>)
    ensures
        match r {
            Some(pk) => valid_secret(secret@) && pk@ == secp256k1_public_key(secret@) && pk@.len() == 33
                && (pk@[0] == 2 || pk@[0] == 3),
            None => !valid_secret(secret@),
        },
{
    match k256::ecdsa::SigningKey::from_slice(secret) {
        Ok(signing) => Some(signing.verifying_key().to_encoded_point(true).as_bytes().to_vec()),
        Err(_) => None,
    }
}

// ---------------------------------------------------------------------------
// Service
// ---------------------------------------------------------------------------

/// What the service knows about itself: the identity it attests over and,
/// when read from a real quote at startup, its measurements.
#[derive(Debug, Clone)]
pub struct TallyServiceImpl {
    pub identity: EnclaveIdentity,
    pub measurements: Option<Measurements>,
}

/// A tally with its publish artifacts.
#[derive(Debug, Clone)]
pub struct TallyOutcome {
    pub tally: TallyResult,
    pub proof: Vec<u8>,
    pub public_inputs: Vec<u8>,
}

/// The enclave public key with its registration artifacts.
#[derive(Debug, Clone)]
pub struct RegisterOutcome {
    pub enclave_pubkey: Vec<u8>,
    pub proof: Vec<u8>,
    pub public_inputs: Vec<u8>,
}

/// Readiness and, when known, the measurements in hex.
#[derive(Debug, Clone, PartialEq, Eq)]
pub struct HealthResponse {
    pub ready: bool,
    pub mrtd_hex: String,
    pub rtmr_hex: String,
}

/// Why a request failed.
#[derive(Debug, Clone, PartialEq, Eq)]
pub enum ServiceError {
    /// The derived key is not a valid secp256k1 secret key.
    InvalidEnclaveKey,
}

/// The `(voter, ciphertext)` pairs of the raw entries.
fn ballot_pairs(raw: &Vec<RawEntry>) -> (out: Vec<(String, Vec<u8>)>)
    ensures
        out.deep_view() == raw.deep_view(),
{
    let n = raw.len();
    let mut out: Vec<(String, Vec<u8>)> = Vec::with_capacity(n);
    let mut i: usize = 0;
    while i < n
        invariant
            n == raw@.len(),
            i <= n,
            out.deep_view() =~= raw.deep_view().take(i as int),
        decreases n - i,
    {
        let v = raw[i].voter.clone();
        let mut c: Vec<u8> = Vec::with_capacity(raw[i].ciphertext.len());
        crate::codec::append_bytes(&mut c, raw[i].ciphertext.as_slice());
        assert(c.deep_view() =~= c@);
        let ghost before = out.deep_view();
        out.push((v, c));
        assert(out.deep_view() =~= before.push((raw@[i as int].voter@, raw@[i as int].ciphertext@)));
        i += 1;
    }
    assert(raw.deep_view().take(n as int) =~= raw.deep_view());
    out
}

impl TallyServiceImpl {
    /// A service without recorded measurements.
    pub fn new(identity: EnclaveIdentity) -> (s: Self)
        ensures
            s.identity == identity,
            s.measurements is None,
    {
        TallyServiceImpl { identity, measurements: None }
    }

    /// A service that reports these measurements.
    pub fn with_measurements(identity: EnclaveIdentity, measurements: Measurements) -> (s: Self)
        ensures
            s.identity == identity,
            s.measurements == Some(measurements),
    {
        TallyServiceImpl { identity, measurements: Some(measurements) }
    }

    /// Tallies the raw ballots with the election's key and produces the
    /// publish artifacts that bind the tally to this contract, chain and
    /// election, to the raw ballots (in candidate order) and to the
    /// candidate names.
    pub fn tally(
        &self,
        privkey: &[u8; 32],
        contract_addr: &str,
        election_id: u64,
        candidates: &Vec<String>,
        raw_ballots: &Vec<RawEntry>,
        chain_id: &str,
        candidate_names: &Vec<String>,
    ) -> (r: TallyOutcome)
        requires
            raw_ballots@.len() <= u32::MAX,
            candidates@.len() < usize::MAX,
        ensures
            r.tally@ == tally_of(
                stage1(raw_ballots.deep_view(), candidates.deep_view(), decryptions(raw_ballots.deep_view(), privkey@)),
                candidates.deep_view(),
            ),
            r.proof@ == sentinel_proof(),
            is_packed(
                r.public_inputs@,
                self.identity.mrtd@,
                self.identity.rtmr0@,
                self.identity.rtmr1@,
                self.identity.rtmr2@,
                self.identity.rtmr3@,
                tagged(
                    sha256_spec(
                        canonical_bytes(
                            contract_addr@,
                            chain_id@,
                            election_id,
                            sha256_spec(ballots_preimage(candidates.deep_view(), raw_ballots.deep_view())),
                            sha256_spec(names_preimage(candidate_names.deep_view())),
                            r.tally@,
                        ),
                    ),
                    DST_TALLY@,
                ),
                self.identity.tcb_status,
                self.identity.timestamp,
            ),
    {
        let mut key: Vec<u8> = Vec::new();
        crate::codec::append_bytes(&mut key, privkey.as_slice());
        assert(key@ =~= privkey@);
        let tally = tally_spec(raw_ballots, candidates, &key);
        let pairs = ballot_pairs(raw_ballots);
        let cs = candidates.as_slice();
        let ps = pairs.as_slice();
        let ns = candidate_names.as_slice();
        assert(cs.deep_view() =~= candidates.deep_view());
        assert(ps.deep_view() =~= pairs.deep_view());
        assert(ns.deep_view() =~= candidate_names.deep_view());
        let ballots_hash = compute_ballots_hash(cs, ps);
        let (proof, public_inputs) = produce_publish_artifacts(
            &self.identity,
            contract_addr,
            chain_id,
            election_id,
            &ballots_hash,
            ns,
            &tally,
        );
        TallyOutcome { tally, proof, public_inputs }
    }

    /// Readiness and the MRTD and RTMR0 in lowercase hex when the
    /// measurements are known; not ready, with empty strings, otherwise.
    pub fn health(&self) -> (h: HealthResponse)
        ensures
            match self.measurements {
                Some(m) => h.ready && h.mrtd_hex@ == hex_lower(m.mrtd@) && h.rtmr_hex@ == hex_lower(m.rtmr0@),
                None => !h.ready && h.mrtd_hex@.len() == 0 && h.rtmr_hex@.len() == 0,
            },
    {
        match &self.measurements {
            Some(m) => HealthResponse {
                ready: true,
                mrtd_hex: hex_encode(m.mrtd.as_slice()),
                rtmr_hex: hex_encode(m.rtmr0.as_slice()),
            },
            None => HealthResponse { ready: false, mrtd_hex: String::new(), rtmr_hex: String::new() },
        }
    }

    /// The enclave's compressed public key for this election's secret, with
    /// registration artifacts binding it to the contract, the election and
    /// the candidate names.
    pub fn register_pubkey(
        &self,
        privkey: &[u8; 32],
        contract_addr: &str,
        election_id: u64,
        candidate_names: &Vec<String>,
    ) -> (r: Result<RegisterOutcome, ServiceError>)
        ensures
            r matches Ok(o) ==> pubkey_shape_ok(o.enclave_pubkey@) && o.proof@ == sentinel_proof(),
            !valid_secret(privkey@) ==> r == Err::<RegisterOutcome, ServiceError>(ServiceError::InvalidEnclaveKey),
            valid_secret(privkey@) ==> ({
                let pk = secp256k1_public_key(privkey@);
                r matches Ok(o) && o.enclave_pubkey@ == pk && pk.len() == 33 && (pk[0] == 2 || pk[0] == 3)
                    && is_packed(
                    o.public_inputs@,
                    self.identity.mrtd@,
                    self.identity.rtmr0@,
                    self.identity.rtmr1@,
                    self.identity.rtmr2@,
                    self.identity.rtmr3@,
                    tagged(
                        sha256_spec(
                            registration_preimage(
                                pk,
                                contract_addr@,
                                election_id,
                                sha256_spec(names_preimage(candidate_names.deep_view())),
                            ),
                        ),
                        DST_PUBKEY@,
                    ),
                    self.identity.tcb_status,
                    self.identity.timestamp,
                )
            }),
    {
        let enclave_pubkey = match compressed_public_key(privkey) {
            Some(pk) => pk,
            None => {
                return Err(ServiceError::InvalidEnclaveKey);
            },
        };
        let ns = candidate_names.as_slice();
        assert(ns.deep_view() =~= candidate_names.deep_view());
        let (proof, public_inputs) = produce_registration_artifacts(
            &self.identity,
            enclave_pubkey.as_slice(),
            contract_addr,
            election_id,
            ns,
        );
        Ok(RegisterOutcome { enclave_pubkey, proof, public_inputs })
    }
}

} // verus!
