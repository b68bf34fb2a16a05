//! Attestation artifacts the enclave hands the chain: the ReportData that
//! binds a tally (or the enclave key) and the packed UltraHonk public
//! inputs that carry it, 17 BN254 fields of 32 bytes: MRTD and RTMR0..3 in
//! two limbs each (31 + 17 bytes), ReportData in three (31 + 31 + 2),
//! TcbStatus in the low byte of field 13 and the Timestamp in the low 8
//! bytes of field 14, each limb in the low bytes of its field.
use vstd::prelude::*;
use crate::binding::{
    compute_commit_hash, names_preimage, registration_preimage, tag_report_data, tagged,
};
use crate::codec::{be_bytes, be_value, canonical_bytes, lemma_be_round_trip, lemma_pow256_8, read_be_u64};
use crate::digest::sha256_spec;
use crate::fields::{be8, fr_byte, put_limb, zeros};
use crate::enclave::tdx_quote::Measurements;
use crate::types::TallyResult;

pub use crate::binding::{
    build_registration_report_data, compute_ballots_hash, compute_names_hash, DST_BALLOTS,
    DST_NAMES, DST_PUBKEY, DST_TALLY,
};
pub use crate::codec::{canonical_serialization, write_borsh_string};

verus! {

/// Byte length of the packed public inputs (17 × 32).
pub const ULTRAHONK_PUBLIC_INPUTS_LEN: usize = 544;

/// First field of MRTD.
pub const F_MRTD: usize = 0;
/// First field of RTMR0.
pub const F_RTMR0: usize = 2;
/// First field of RTMR1.
pub const F_RTMR1: usize = 4;
/// First field of RTMR2.
pub const F_RTMR2: usize = 6;
/// First field of RTMR3.
pub const F_RTMR3: usize = 8;
/// First field of ReportData.
pub const F_REPORTDATA: usize = 10;
/// The TcbStatus field.
pub const F_TCBSTATUS: usize = 13;
/// The Timestamp field.
pub const F_TIMESTAMP: usize = 14;

/// Why artifacts could not be produced.
#[derive(Debug, Clone)]
pub enum AttestationError {
    /// The dstack agent failed.
    Dstack(crate::enclave::dstack::DstackError),
    /// The proving service failed or returned something unusable.
    ZkProver(String),
}

/// The identity the enclave attests over. Unbound RTMR0/RTMR3 are zeros.
#[derive(Debug, Clone)]
pub struct EnclaveIdentity {
    pub mrtd: [u8; 48],
    pub rtmr0: [u8; 48],
    pub rtmr1: [u8; 48],
    pub rtmr2: [u8; 48],
    pub rtmr3: [u8; 48],
    pub tcb_status: u8,
    pub timestamp: u64,
}

/// `configured` unless it is all zeros (left unset), in which case `measured`.
pub open spec fn register_or(configured: Seq<u8>, measured: Seq<u8>) -> Seq<u8> {
    if configured == Seq::new(48, |i: int| 0u8) {
        measured
    } else {
        configured
    }
}

fn pick_register(configured: &[u8; 48], measured: &[u8; 48]) -> (r: [u8; 48])
    ensures
        r@ == register_or(configured@, measured@),
{
    let mut i: usize = 0;
    while i < 48
        invariant
            i <= 48,
            configured@.len() == 48,
            forall|j: int| 0 <= j < i ==> configured@[j] == 0u8,
        decreases 48 - i,
    {
        if configured[i] != 0 {
            assert(configured@[i as int] != Seq::new(48, |k: int| 0u8)[i as int]);
            return *configured;
        }
        i += 1;
    }
    assert(configured@ =~= Seq::new(48, |k: int| 0u8));
    *measured
}

/// The identity once a boot quote's measurements are known: each register
/// left all zeros by configuration takes the measured value; TcbStatus and
/// Timestamp stay.
pub fn identity_with_measurements(identity: &EnclaveIdentity, m: &Measurements) -> (r: EnclaveIdentity)
    ensures
        r.mrtd@ == register_or(identity.mrtd@, m.mrtd@),
        r.rtmr0@ == register_or(identity.rtmr0@, m.rtmr0@),
        r.rtmr1@ == register_or(identity.rtmr1@, m.rtmr1@),
        r.rtmr2@ == register_or(identity.rtmr2@, m.rtmr2@),
        r.rtmr3@ == register_or(identity.rtmr3@, m.rtmr3@),
        r.tcb_status == identity.tcb_status,
        r.timestamp == identity.timestamp,
{
    EnclaveIdentity {
        mrtd: pick_register(&identity.mrtd, &m.mrtd),
        rtmr0: pick_register(&identity.rtmr0, &m.rtmr0),
        rtmr1: pick_register(&identity.rtmr1, &m.rtmr1),
        rtmr2: pick_register(&identity.rtmr2, &m.rtmr2),
        rtmr3: pick_register(&identity.rtmr3, &m.rtmr3),
        tcb_status: identity.tcb_status,
        timestamp: identity.timestamp,
    }
}

// ---------------------------------------------------------------------------
// Model
// ---------------------------------------------------------------------------

/// Field `f` holds a `k`-byte limb: its high `32 - k` bytes are zero.
pub open spec fn limb_ok(pi: Seq<u8>, f: int, k: int) -> bool {
    forall|j: int| 0 <= j < 32 - k ==> #[trigger] fr_byte(pi, f, j) == 0
}

/// The low `k` bytes of field `f`.
pub open spec fn limb(pi: Seq<u8>, f: int, k: int) -> Seq<u8> {
    pi.subrange(f * 32 + 32 - k, f * 32 + 32)
}

/// Byte `k` of field `f` in the packed public inputs for these values.
pub open spec fn packed_byte(
    f: int,
    k: int,
    mrtd: Seq<u8>,
    rtmr0: Seq<u8>,
    rtmr1: Seq<u8>,
    rtmr2: Seq<u8>,
    rtmr3: Seq<u8>,
    rd: Seq<u8>,
    tcb: u8,
    ts: u64,
) -> u8 {
    if f < 10 {
        let m = if f < 2 {
            mrtd
        } else if f < 4 {
            rtmr0
        } else if f < 6 {
            rtmr1
        } else if f < 8 {
            rtmr2
        } else {
            rtmr3
        };
        if f % 2 == 0 {
            if k >= 1 {
                m[k - 1]
            } else {
                0
            }
        } else if k >= 15 {
            m[31 + k - 15]
        } else {
            0
        }
    } else if f == 10 {
        if k >= 1 {
            rd[k - 1]
        } else {
            0
        }
    } else if f == 11 {
        if k >= 1 {
            rd[31 + k - 1]
        } else {
            0
        }
    } else if f == 12 {
        if k >= 30 {
            rd[62 + k - 30]
        } else {
            0
        }
    } else if f == 13 {
        if k == 31 {
            tcb
        } else {
            0
        }
    } else if f == 14 {
        if k >= 24 {
            be_bytes(ts as nat, 8)[k - 24]
        } else {
            0
        }
    } else {
        0
    }
}

/// `pi` is the packed public inputs for these values.
pub open spec fn is_packed(
    pi: Seq<u8>,
    mrtd: Seq<u8>,
    rtmr0: Seq<u8>,
    rtmr1: Seq<u8>,
    rtmr2: Seq<u8>,
    rtmr3: Seq<u8>,
    rd: Seq<u8>,
    tcb: u8,
    ts: u64,
) -> bool {
    &&& pi.len() == 544
    &&& forall|f: int, k: int|
        0 <= f < 17 && 0 <= k < 32 ==> #[trigger] fr_byte(pi, f, k) == packed_byte(
            f,
            k,
            mrtd,
            rtmr0,
            rtmr1,
            rtmr2,
            rtmr3,
            rd,
            tcb,
            ts,
        )
}

/// The ReportData the packed public inputs carry, if they are well formed.
pub open spec fn packed_report_data(pi: Seq<u8>) -> Option<Seq<u8>> {
    if pi.len() == 544 && limb_ok(pi, 10, 31) && limb_ok(pi, 11, 31) && limb_ok(pi, 12, 2) {
        Some(limb(pi, 10, 31) + limb(pi, 11, 31) + limb(pi, 12, 2))
    } else {
        None
    }
}

/// The Timestamp the packed public inputs carry, if they are well formed.
pub open spec fn packed_timestamp(pi: Seq<u8>) -> Option<nat> {
    if pi.len() == 544 && limb_ok(pi, 14, 8) {
        Some(be_value(limb(pi, 14, 8)))
    } else {
        None
    }
}

// ---------------------------------------------------------------------------
// Public inputs
// ---------------------------------------------------------------------------

fn put_register(out: &mut Vec<u8>, f: usize, m: &[u8; 48])
    requires
        f * 32 + 64 <= old(out).len(),
    ensures
        final(out)@.len() == old(out)@.len(),
        forall|e: int, k: int|
            0 <= e && 0 <= k < 32 && e * 32 + k < old(out)@.len() ==> #[trigger] fr_byte(final(out)@, e, k)
                == if e == f && k >= 1 {
                m@[k - 1]
            } else if e == f + 1 && k >= 15 {
                m@[31 + k - 15]
            } else {
                fr_byte(old(out)@, e, k)
            },
{
    let s = m.as_slice();
    let lo = &s[0..31];
    let hi = &s[31..48];
    put_limb(out, f, lo);
    put_limb(out, f + 1, hi);
}

/// The 544-byte packed public inputs for these registers, ReportData,
/// TcbStatus and Timestamp, every other byte zero.
pub fn build_public_inputs(
    mrtd: &[u8; 48],
    rtmr0: &[u8; 48],
    rtmr1: &[u8; 48],
    rtmr2: &[u8; 48],
    rtmr3: &[u8; 48],
    report_data: &[u8; 64],
    tcb_status: u8,
    timestamp: u64,
) -> (out: Vec<u8>)
    ensures
        is_packed(out@, mrtd@, rtmr0@, rtmr1@, rtmr2@, rtmr3@, report_data@, tcb_status, timestamp),
{
    let mut out = zeros(ULTRAHONK_PUBLIC_INPUTS_LEN);
    let ghost z = out@;
    put_register(&mut out, F_MRTD, mrtd);
    put_register(&mut out, F_RTMR0, rtmr0);
    put_register(&mut out, F_RTMR1, rtmr1);
    put_register(&mut out, F_RTMR2, rtmr2);
    put_register(&mut out, F_RTMR3, rtmr3);
    let rs = report_data.as_slice();
    put_limb(&mut out, F_REPORTDATA, &rs[0..31]);
    put_limb(&mut out, F_REPORTDATA + 1, &rs[31..62]);
    put_limb(&mut out, F_REPORTDATA + 2, &rs[62..64]);
    let ts = be8(timestamp);
    let tcb = [tcb_status];
    put_limb(&mut out, F_TCBSTATUS, tcb.as_slice());
    put_limb(&mut out, F_TIMESTAMP, ts.as_slice());
    proof {
        assert forall|f: int, k: int| 0 <= f < 17 && 0 <= k < 32 implies #[trigger] fr_byte(out@, f, k)
            == packed_byte(
            f,
            k,
            mrtd@,
            rtmr0@,
            rtmr1@,
            rtmr2@,
            rtmr3@,
            report_data@,
            tcb_status,
            timestamp,
        ) by {
            assert(fr_byte(z, f, k) == 0u8);
        }
    }
    out
}

/// Field `f` holds a `k`-byte limb.
fn limb_is_canonical(pi: &[u8], f: usize, k: usize) -> (r: bool)
    requires
        f * 32 + 32 <= pi.len(),
        k <= 32,
    ensures
        r == limb_ok(pi@, f as int, k as int),
{
    let mut j: usize = 0;
    while j < 32 - k
        invariant
            f * 32 + 32 <= pi.len(),
            k <= 32,
            j <= 32 - k,
            forall|i: int| 0 <= i < j ==> #[trigger] fr_byte(pi@, f as int, i) == 0,
        decreases 32 - k - j,
    {
        if pi[f * 32 + j] != 0 {
            assert(fr_byte(pi@, f as int, j as int) != 0);
            return false;
        }
        j += 1;
    }
    true
}

/// The 64-byte ReportData of packed public inputs: `None` unless they are
/// 544 bytes and its three limbs are canonical.
pub fn extract_report_data(pi: &[u8]) -> (r: Option<[u8; 64]>)
    ensures
        match packed_report_data(pi@) {
            Some(rd) => r matches Some(a) && a@ == rd,
            None => r is None,
        },
{
    if pi.len() != ULTRAHONK_PUBLIC_INPUTS_LEN {
        return None;
    }
    if !limb_is_canonical(pi, F_REPORTDATA, 31) || !limb_is_canonical(pi, F_REPORTDATA + 1, 31)
        || !limb_is_canonical(pi, F_REPORTDATA + 2, 2) {
        return None;
    }
    let mut rd = [0u8; 64];
    let mut i: usize = 0;
    let ghost want = limb(pi@, 10, 31) + limb(pi@, 11, 31) + limb(pi@, 12, 2);
    while i < 64
        invariant
            pi@.len() == 544,
            want == limb(pi@, 10, 31) + limb(pi@, 11, 31) + limb(pi@, 12, 2),
            i <= 64,
            rd@.len() == 64,
            forall|j: int| 0 <= j < i ==> rd@[j] == want[j],
        decreases 64 - i,
    {
        let src: usize = if i < 31 {
            10 * 32 + 1 + i
        } else if i < 62 {
            11 * 32 + 1 + (i - 31)
        } else {
            12 * 32 + 30 + (i - 62)
        };
        assert(pi@[src as int] == want[i as int]);
        rd[i] = pi[src];
        i += 1;
    }
    assert(rd@ =~= want);
    Some(rd)
}

/// The Timestamp of packed public inputs: `None` unless they are 544
/// bytes and its limb is canonical.
pub fn extract_timestamp(pi: &[u8]) -> (r: Option<u64>)
    ensures
        match packed_timestamp(pi@) {
            Some(t) => r matches Some(v) && v as nat == t,
            None => r is None,
        },
{
    if pi.len() != ULTRAHONK_PUBLIC_INPUTS_LEN {
        return None;
    }
    if !limb_is_canonical(pi, F_TIMESTAMP, 8) {
        return None;
    }
    Some(read_be_u64(pi, F_TIMESTAMP * 32 + 24))
}

/// Reading the packed public inputs back gives the ReportData and the
/// Timestamp they were built from.
pub proof fn law_packed_round_trip(
    pi: Seq<u8>,
    mrtd: Seq<u8>,
    rtmr0: Seq<u8>,
    rtmr1: Seq<u8>,
    rtmr2: Seq<u8>,
    rtmr3: Seq<u8>,
    rd: Seq<u8>,
    tcb: u8,
    ts: u64,
)
    requires
        rd.len() == 64,
        is_packed(pi, mrtd, rtmr0, rtmr1, rtmr2, rtmr3, rd, tcb, ts),
    ensures
        packed_report_data(pi) == Some(rd),
        packed_timestamp(pi) == Some(ts as nat),
{
    assert forall|j: int| 0 <= j < 1 implies #[trigger] fr_byte(pi, 10, j) == 0 by {}
    assert forall|j: int| 0 <= j < 1 implies #[trigger] fr_byte(pi, 11, j) == 0 by {}
    assert forall|j: int| 0 <= j < 30 implies #[trigger] fr_byte(pi, 12, j) == 0 by {}
    assert forall|j: int| 0 <= j < 24 implies #[trigger] fr_byte(pi, 14, j) == 0 by {}
    let got = limb(pi, 10, 31) + limb(pi, 11, 31) + limb(pi, 12, 2);
    assert forall|i: int| 0 <= i < 64 implies got[i] == rd[i] by {
        if i < 31 {
            assert(got[i] == fr_byte(pi, 10, 1 + i));
        } else if i < 62 {
            assert(got[i] == fr_byte(pi, 11, 1 + i - 31));
        } else {
            assert(got[i] == fr_byte(pi, 12, 30 + i - 62));
        }
    }
    assert(got =~= rd);
    let tb = limb(pi, 14, 8);
    assert forall|i: int| 0 <= i < 8 implies tb[i] == be_bytes(ts as nat, 8)[i] by {
        assert(tb[i] == fr_byte(pi, 14, 24 + i));
    }
    lemma_pow256_8();
    lemma_be_round_trip(ts as nat, 8);
    assert(tb =~= be_bytes(ts as nat, 8));
}

// ---------------------------------------------------------------------------
// ReportData and artifacts
// ---------------------------------------------------------------------------

/// Publish ReportData: SHA-256 of the canonical serialization, then the
/// tally tag zero-padded.
pub fn build_publish_report_data(
    contract_addr: &str,
    chain_id: &str,
    election_id: u64,
    ballots_hash: &[u8; 32],
    names_hash: &[u8; 32],
    tally: &TallyResult,
) -> (rd: [u8; 64])
    ensures
        rd@ == tagged(
            sha256_spec(canonical_bytes(contract_addr@, chain_id@, election_id, ballots_hash@, names_hash@, tally@)),
            DST_TALLY@,
        ),
{
    let commit = compute_commit_hash(contract_addr, chain_id, election_id, ballots_hash, names_hash, tally);
    tag_report_data(&commit, DST_TALLY.as_slice())
}

/// The sentinel proof that stands for a real one when no prover is wired in.
pub open spec fn sentinel_proof() -> Seq<u8> {
    Seq::new(192, |i: int| 0xABu8)
}

/// The artifacts when no prover is wired in: the sentinel proof, and the
/// identity and `report_data` packed as public inputs, which carry the
/// ReportData and the Timestamp back.
pub fn produce_artifacts_inner(identity: &EnclaveIdentity, report_data: &[u8; 64]) -> (r: (Vec<u8>, Vec<u8>))
    ensures
        r.0@ == sentinel_proof(),
        packed_report_data(r.1@) == Some(report_data@),
        packed_timestamp(r.1@) == Some(identity.timestamp as nat),
        is_packed(
            r.1@,
            identity.mrtd@,
            identity.rtmr0@,
            identity.rtmr1@,
            identity.rtmr2@,
            identity.rtmr3@,
            report_data@,
            identity.tcb_status,
            identity.timestamp,
        ),
{
    let public_inputs = build_public_inputs(
        &identity.mrtd,
        &identity.rtmr0,
        &identity.rtmr1,
        &identity.rtmr2,
        &identity.rtmr3,
        report_data,
        identity.tcb_status,
        identity.timestamp,
    );
    let mut proof: Vec<u8> = Vec::with_capacity(192);
    let mut i: usize = 0;
    while i < 192
        invariant
            i <= 192,
            proof@.len() == i,
            forall|j: int| 0 <= j < i ==> proof@[j] == 0xABu8,
        decreases 192 - i,
    {
        proof.push(0xABu8);
        i += 1;
    }
    assert(proof@ =~= sentinel_proof());
    proof {
        law_packed_round_trip(
            public_inputs@,
            identity.mrtd@,
            identity.rtmr0@,
            identity.rtmr1@,
            identity.rtmr2@,
            identity.rtmr3@,
            report_data@,
            identity.tcb_status,
            identity.timestamp,
        );
    }
    (proof, public_inputs)
}

/// `(proof, public_inputs)` for a publish quote: the public inputs carry
/// the identity and the publish ReportData for this tally, with the names
/// hash computed from `candidate_names`; the proof is the sentinel.
pub fn produce_publish_artifacts(
    identity: &EnclaveIdentity,
    contract_addr: &str,
    chain_id: &str,
    election_id: u64,
    ballots_hash: &[u8; 32],
    candidate_names: &[String],
    tally: &TallyResult,
) -> (r: (Vec<u8>, Vec<u8>))
    ensures
        r.0@ == sentinel_proof(),
        is_packed(
            r.1@,
            identity.mrtd@,
            identity.rtmr0@,
            identity.rtmr1@,
            identity.rtmr2@,
            identity.rtmr3@,
            tagged(
                sha256_spec(
                    canonical_bytes(
                        contract_addr@,
                        chain_id@,
                        election_id,
                        ballots_hash@,
                        sha256_spec(names_preimage(candidate_names.deep_view())),
                        tally@,
                    ),
                ),
                DST_TALLY@,
            ),
            identity.tcb_status,
            identity.timestamp,
        ),
{
    let names_hash = compute_names_hash(candidate_names);
    let report_data = build_publish_report_data(
        contract_addr,
        chain_id,
        election_id,
        ballots_hash,
        &names_hash,
        tally,
    );
    produce_artifacts_inner(identity, &report_data)
}

/// `(proof, public_inputs)` for a registration quote: the public inputs
/// carry the identity and the registration ReportData binding the key to
/// this contract, election and candidate names; the proof is the sentinel.
pub fn produce_registration_artifacts(
    identity: &EnclaveIdentity,
    enclave_pubkey: &[u8],
    contract_addr: &str,
    election_id: u64,
    candidate_names: &[String],
) -> (r: (Vec<u8>, Vec<u8>))
    ensures
        r.0@ == sentinel_proof(),
        is_packed(
            r.1@,
            identity.mrtd@,
            identity.rtmr0@,
            identity.rtmr1@,
            identity.rtmr2@,
            identity.rtmr3@,
            tagged(
                sha256_spec(
                    registration_preimage(
                        enclave_pubkey@,
                        contract_addr@,
                        election_id,
                        sha256_spec(names_preimage(candidate_names.deep_view())),
                    ),
                ),
                DST_PUBKEY@,
            ),
            identity.tcb_status,
            identity.timestamp,
        ),
{
    let names_hash = compute_names_hash(candidate_names);
    let report_data = build_registration_report_data(enclave_pubkey, contract_addr, election_id, &names_hash);
    produce_artifacts_inner(identity, &report_data)
}

/// Checks a prover's public inputs against what was asked of it: they must
/// carry the bound ReportData and the requested Timestamp.
pub fn check_prover_output(public_inputs: &[u8], report_data: &[u8; 64], timestamp: u64) -> (r: Result<(), AttestationError>)
    ensures
        r is Ok <==> packed_report_data(public_inputs@) == Some(report_data@) && packed_timestamp(
            public_inputs@,
        ) == Some(timestamp as nat),
        r matches Err(e) ==> e is ZkProver,
{
    match extract_report_data(public_inputs) {
        Some(rd) => {
            let mut k: usize = 0;
            while k < 64
                invariant
                    k <= 64,
                    rd@.len() == 64,
                    report_data@.len() == 64,
                    packed_report_data(public_inputs@) == Some(rd@),
                    forall|j: int| 0 <= j < k ==> rd@[j] == report_data@[j],
                decreases 64 - k,
            {
                if rd[k] != report_data[k] {
                    assert(rd@ != report_data@ && rd@[k as int] != report_data@[k as int]);
                    return Err(
                        AttestationError::ZkProver(
                            "prover public_inputs report_data != bound report_data".to_owned(),
                        ),
                    );
                }
                k += 1;
            }
            assert(rd@ =~= report_data@);
        },
        None => {
            return Err(
                AttestationError::ZkProver("prover public_inputs report_data != bound report_data".to_owned()),
            );
        },
    }
    match extract_timestamp(public_inputs) {
        Some(t) => {
            if t != timestamp {
                return Err(
                    AttestationError::ZkProver("prover public_inputs timestamp != requested timestamp".to_owned()),
                );
            }
        },
        None => {
            return Err(
                AttestationError::ZkProver("prover public_inputs timestamp != requested timestamp".to_owned()),
            );
        },
    }
    Ok(())
}

} // verus!
