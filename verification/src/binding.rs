//! What the attestation ReportData binds: the candidate-names hash, the
//! ballots hash, the publish commit hash and the registration preimage,
//! each behind its own domain-separation tag.
use vstd::prelude::*;
use vstd::utf8::encode_utf8;
use crate::codec::{
    append_bytes, borsh_bytes, borsh_str, canonical_bytes, canonical_serialization, len32,
    lemma_borsh_str_prefix, lemma_le_bytes_injective, lemma_le_bytes_len, lemma_pow256_8, names_body,
    u32_le, u64_le, write_borsh_bytes, write_borsh_string, write_u32_le, write_u64_le,
};
use crate::digest::{sha256, sha256_spec};
use crate::types::{Name, TallyResult};

verus! {

/// Tag in ReportData[32..64] of a publish quote (zero-padded to 32 bytes).
pub const DST_TALLY: [u8; 25] = [
    68u8, 83, 84, 95, 86, 69, 82, 73, 70, 73, 69, 68, 95, 82, 67, 86, 95, 84, 65, 76, 76, 89, 95, 86,
    49,
];

/// Tag in ReportData[32..64] of a registration quote (zero-padded).
pub const DST_PUBKEY: [u8; 26] = [
    68u8, 83, 84, 95, 86, 69, 82, 73, 70, 73, 69, 68, 95, 82, 67, 86, 95, 80, 85, 66, 75, 69, 89, 95,
    86, 49,
];

/// Prefix of the ballots-hash preimage.
pub const DST_BALLOTS: [u8; 23] = [
    118u8, 101, 114, 105, 102, 105, 101, 100, 45, 114, 99, 118, 58, 98, 97, 108, 108, 111, 116, 115,
    58, 118, 49,
];

/// Prefix of the names-hash preimage.
pub const DST_NAMES: [u8; 21] = [
    118u8, 101, 114, 105, 102, 105, 101, 100, 45, 114, 99, 118, 58, 110, 97, 109, 101, 115, 58, 118,
    49,
];

// ---------------------------------------------------------------------------
// Models
// ---------------------------------------------------------------------------

/// Preimage of the names hash: tag, `u32` count, each name as Borsh.
pub open spec fn names_preimage(names: Seq<Name>) -> Seq<u8> {
    DST_NAMES@ + u32_le(len32(names.len())) + names_body(names)
}

/// The least index `j >= from` of an entry whose voter is `c`.
pub open spec fn first_ballot_from(entries: Seq<(Name, Seq<u8>)>, c: Name, from: int) -> Option<int>
    decreases entries.len() - from,
{
    if from < 0 || from >= entries.len() {
        None
    } else if entries[from].0 == c {
        Some(from)
    } else {
        first_ballot_from(entries, c, from + 1)
    }
}

/// The bytes that a candidate contributes to the ballots hash: its first
/// entry's voter and ciphertext, or nothing if it has no entry.
pub open spec fn ballot_part(entries: Seq<(Name, Seq<u8>)>, c: Name) -> Seq<u8> {
    match first_ballot_from(entries, c, 0) {
        Some(j) => borsh_str(entries[j].0) + borsh_bytes(entries[j].1),
        None => Seq::empty(),
    }
}

/// The parts of all candidates, in declaration order.
pub open spec fn ballots_body(candidates: Seq<Name>, entries: Seq<(Name, Seq<u8>)>) -> Seq<u8>
    decreases candidates.len(),
{
    if candidates.len() == 0 {
        Seq::empty()
    } else {
        ballots_body(candidates.drop_last(), entries) + ballot_part(entries, candidates.last())
    }
}

/// How many candidates have an entry.
pub open spec fn ballots_included(candidates: Seq<Name>, entries: Seq<(Name, Seq<u8>)>) -> nat
    decreases candidates.len(),
{
    if candidates.len() == 0 {
        0
    } else {
        ballots_included(candidates.drop_last(), entries) + if first_ballot_from(
            entries,
            candidates.last(),
            0,
        ) is Some {
            1nat
        } else {
            0nat
        }
    }
}

/// `n` capped at `u32::MAX`, as a saturating count reaches it.
pub open spec fn sat_u32(n: nat) -> u32 {
    if n > u32::MAX {
        u32::MAX
    } else {
        n as u32
    }
}

/// Preimage of the ballots hash: tag, `u32` count of included ballots,
/// then each included `(voter, ciphertext)` in candidate order.
pub open spec fn ballots_preimage(candidates: Seq<Name>, entries: Seq<(Name, Seq<u8>)>) -> Seq<u8> {
    DST_BALLOTS@ + u32_le(sat_u32(ballots_included(candidates, entries))) + ballots_body(
        candidates,
        entries,
    )
}

/// Preimage of the registration ReportData's lower half.
pub open spec fn registration_preimage(
    enclave_pubkey: Seq<u8>,
    contract_addr: Seq<char>,
    election_id: u64,
    names_hash: Seq<u8>,
) -> Seq<u8> {
    enclave_pubkey + borsh_str(contract_addr) + u64_le(election_id) + names_hash
}

/// 64 bytes: `lower`, then `tag`, then zeros.
pub open spec fn tagged(lower: Seq<u8>, tag: Seq<u8>) -> Seq<u8> {
    lower + tag + Seq::new((32 - tag.len()) as nat, |i: int| 0u8)
}

/// The registration preimage binds the key (of a given length), the
/// contract, the election and the names hash: equal preimages have equal
/// parts.
pub proof fn law_registration_binds(
    pk1: Seq<u8>,
    a1: Seq<char>,
    i1: u64,
    n1: Seq<u8>,
    pk2: Seq<u8>,
    a2: Seq<char>,
    i2: u64,
    n2: Seq<u8>,
)
    requires
        pk1.len() == pk2.len(),
        encode_utf8(a1).len() <= u32::MAX,
        encode_utf8(a2).len() <= u32::MAX,
        n1.len() == 32,
        n2.len() == 32,
        registration_preimage(pk1, a1, i1, n1) == registration_preimage(pk2, a2, i2, n2),
    ensures
        pk1 == pk2,
        a1 == a2,
        i1 == i2,
        n1 == n2,
{
    let x = registration_preimage(pk1, a1, i1, n1);
    let y = registration_preimage(pk2, a2, i2, n2);
    assert(x.subrange(0, pk1.len() as int) =~= pk1);
    assert(y.subrange(0, pk2.len() as int) =~= pk2);
    let q1 = u64_le(i1) + n1;
    let q2 = u64_le(i2) + n2;
    assert(x.subrange(pk1.len() as int, x.len() as int) =~= borsh_str(a1) + q1);
    assert(y.subrange(pk2.len() as int, y.len() as int) =~= borsh_str(a2) + q2);
    lemma_borsh_str_prefix(a1, q1, a2, q2);
    lemma_le_bytes_len(i1 as nat, 8);
    lemma_le_bytes_len(i2 as nat, 8);
    assert(q1.subrange(0, 8) =~= u64_le(i1));
    assert(q2.subrange(0, 8) =~= u64_le(i2));
    lemma_pow256_8();
    lemma_le_bytes_injective(i1 as nat, i2 as nat, 8);
    assert(q1.subrange(8, 40) =~= n1);
    assert(q2.subrange(8, 40) =~= n2);
}

// ---------------------------------------------------------------------------
// The ballots hash ignores the order of the entries
// ---------------------------------------------------------------------------

/// No two entries have the same voter.
pub open spec fn distinct_voters(entries: Seq<(Name, Seq<u8>)>) -> bool {
    forall|i: int, j: int| 0 <= i < j < entries.len() ==> entries[i].0 != entries[j].0
}

proof fn lemma_first_ballot_at(entries: Seq<(Name, Seq<u8>)>, c: Name, from: int, k: int)
    requires
        0 <= from <= k < entries.len(),
        entries[k].0 == c,
        forall|i: int| from <= i < k ==> entries[i].0 != c,
    ensures
        first_ballot_from(entries, c, from) == Some(k),
    decreases k - from,
{
    if from < k {
        lemma_first_ballot_at(entries, c, from + 1, k);
    }
}

proof fn lemma_first_ballot_absent(entries: Seq<(Name, Seq<u8>)>, c: Name, from: int)
    requires
        0 <= from,
        forall|i: int| from <= i < entries.len() ==> entries[i].0 != c,
    ensures
        first_ballot_from(entries, c, from) is None,
    decreases entries.len() - from,
{
    if from < entries.len() {
        lemma_first_ballot_absent(entries, c, from + 1);
    }
}

/// No voter that is a candidate has two entries.
pub open spec fn distinct_candidate_voters(entries: Seq<(Name, Seq<u8>)>, candidates: Seq<Name>) -> bool {
    forall|i: int, j: int|
        0 <= i < j < entries.len() && candidates.contains(#[trigger] entries[i].0) ==> entries[i].0
            != #[trigger] entries[j].0
}

proof fn lemma_part_same(a: Seq<(Name, Seq<u8>)>, b: Seq<(Name, Seq<u8>)>, c: Name)
    requires
        forall|i: int, j: int| 0 <= i < j < a.len() && a[i].0 == c ==> a[j].0 != c,
        forall|i: int, j: int| 0 <= i < j < b.len() && b[i].0 == c ==> b[j].0 != c,
        forall|x: (Name, Seq<u8>)| x.0 == c ==> (a.contains(x) <==> b.contains(x)),
    ensures
        ballot_part(a, c) == ballot_part(b, c),
        (first_ballot_from(a, c, 0) is Some) == (first_ballot_from(b, c, 0) is Some),
{
    if exists|k: int| 0 <= k < a.len() && a[k].0 == c {
        let k = choose|k: int| 0 <= k < a.len() && a[k].0 == c;
        assert(a.contains(a[k]));
        assert(b.contains(a[k]));
        let m = choose|m: int| 0 <= m < b.len() && b[m] == a[k];
        assert forall|i: int| 0 <= i < k implies a[i].0 != c by {}
        assert forall|i: int| 0 <= i < m implies b[i].0 != c by {}
        lemma_first_ballot_at(a, c, 0, k);
        lemma_first_ballot_at(b, c, 0, m);
    } else {
        assert forall|i: int| 0 <= i < b.len() implies b[i].0 != c by {
            if b[i].0 == c {
                assert(b.contains(b[i]));
                assert(a.contains(b[i]));
                let k = choose|k: int| 0 <= k < a.len() && a[k] == b[i];
                assert(a[k].0 == c);
            }
        }
        lemma_first_ballot_absent(a, c, 0);
        lemma_first_ballot_absent(b, c, 0);
    }
}

proof fn lemma_body_same(
    cands: Seq<Name>,
    all: Seq<Name>,
    a: Seq<(Name, Seq<u8>)>,
    b: Seq<(Name, Seq<u8>)>,
)
    requires
        forall|k: int| 0 <= k < cands.len() ==> all.contains(#[trigger] cands[k]),
        distinct_candidate_voters(a, all),
        distinct_candidate_voters(b, all),
        forall|x: (Name, Seq<u8>)| all.contains(x.0) ==> (a.contains(x) <==> b.contains(x)),
    ensures
        ballots_body(cands, a) == ballots_body(cands, b),
        ballots_included(cands, a) == ballots_included(cands, b),
    decreases cands.len(),
{
    if cands.len() > 0 {
        let c = cands.last();
        assert(all.contains(cands[cands.len() - 1]));
        assert forall|k: int| 0 <= k < cands.drop_last().len() implies all.contains(#[trigger] cands.drop_last()[k]) by {
            assert(all.contains(cands[k]));
        }
        lemma_body_same(cands.drop_last(), all, a, b);
        assert forall|i: int, j: int| 0 <= i < j < a.len() && a[i].0 == c implies a[j].0 != c by {
            assert(all.contains(a[i].0));
        }
        assert forall|i: int, j: int| 0 <= i < j < b.len() && b[i].0 == c implies b[j].0 != c by {
            assert(all.contains(b[i].0));
        }
        lemma_part_same(a, b, c);
    }
}

/// The ballots hash depends only on the entries of candidates, not on
/// their order nor on entries whose voter is no candidate: two entry lists
/// that have the same entries for candidates, each candidate at most once,
/// have the same preimage.
pub proof fn law_ballots_hash_order_free(
    candidates: Seq<Name>,
    a: Seq<(Name, Seq<u8>)>,
    b: Seq<(Name, Seq<u8>)>,
)
    requires
        distinct_candidate_voters(a, candidates),
        distinct_candidate_voters(b, candidates),
        forall|x: (Name, Seq<u8>)| candidates.contains(x.0) ==> (a.contains(x) <==> b.contains(x)),
    ensures
        ballots_preimage(candidates, a) == ballots_preimage(candidates, b),
{
    assert forall|k: int| 0 <= k < candidates.len() implies candidates.contains(#[trigger] candidates[k]) by {}
    lemma_body_same(candidates, candidates, a, b);
}

// ---------------------------------------------------------------------------
// Computation
// ---------------------------------------------------------------------------

/// Appends each name as a Borsh string.
fn write_names(out: &mut Vec<u8>, v: &[String])
    ensures
        final(out)@ == old(out)@ + names_body(v.deep_view()),
{
    let ghost start = out@;
    let ghost dv = v.deep_view();
    let n = v.len();
    let mut i: usize = 0;
    assert(dv.take(0) =~= Seq::<Name>::empty());
    assert(start =~= start + names_body(dv.take(0)));
    while i < n
        invariant
            n == v@.len(),
            dv == v.deep_view(),
            i <= n,
            out@ == start + names_body(dv.take(i as int)),
        decreases n - i,
    {
        write_borsh_string(out, v[i].as_str());
        proof {
            assert(dv.take(i as int + 1).drop_last() =~= dv.take(i as int));
            assert(dv.take(i as int + 1).last() == v@[i as int]@);
            assert(out@ =~= start + names_body(dv.take(i as int + 1)));
        }
        i += 1;
    }
    assert(dv.take(n as int) =~= dv);
}

/// SHA-256 over the tagged, length-prefixed Borsh encoding of the candidate
/// display names, in declaration order.
pub fn compute_names_hash(candidate_names: &[String]) -> (r: [u8; 32])
    ensures
        r@ == sha256_spec(names_preimage(candidate_names.deep_view())),
{
    let mut preimage: Vec<u8> = Vec::new();
    append_bytes(&mut preimage, DST_NAMES.as_slice());
    write_u32_le(&mut preimage, candidate_names.len() as u32);
    write_names(&mut preimage, candidate_names);
    assert(preimage@ =~= names_preimage(candidate_names.deep_view()));
    sha256(preimage.as_slice())
}

/// Index of the first entry whose voter is `c`, if any.
fn find_ballot(entries: &[(String, Vec<u8>)], c: &String) -> (r: Option<usize>)
    ensures
        match r {
            Some(j) => j < entries@.len() && first_ballot_from(entries.deep_view(), c@, 0) == Some(
                j as int,
            ),
            None => first_ballot_from(entries.deep_view(), c@, 0) is None,
        },
{
    let ghost dv = entries.deep_view();
    let n = entries.len();
    let mut j: usize = 0;
    while j < n
        invariant
            n == entries@.len(),
            dv == entries.deep_view(),
            j <= n,
            first_ballot_from(dv, c@, 0) == first_ballot_from(dv, c@, j as int),
        decreases n - j,
    {
        if entries[j].0 == *c {
            assert(dv[j as int].0 == c@);
            return Some(j);
        }
        assert(dv[j as int].0 != c@);
        j += 1;
    }
    None
}

/// SHA-256 over the ballots the tally consumed: for each candidate in
/// declaration order, its first `(voter, ciphertext)` entry, if any,
/// after the tag and the (saturating) count of such entries.
pub fn compute_ballots_hash(candidates: &[String], entries: &[(String, Vec<u8>)]) -> (r: [u8; 32])
    ensures
        r@ == sha256_spec(ballots_preimage(candidates.deep_view(), entries.deep_view())),
{
    let ghost cv = candidates.deep_view();
    let ghost ev = entries.deep_view();
    let mut body: Vec<u8> = Vec::new();
    let mut included: u32 = 0;
    let n = candidates.len();
    let mut i: usize = 0;
    assert(cv.take(0) =~= Seq::<Name>::empty());
    while i < n
        invariant
            n == candidates@.len(),
            cv == candidates.deep_view(),
            ev == entries.deep_view(),
            i <= n,
            body@ == ballots_body(cv.take(i as int), ev),
            included == sat_u32(ballots_included(cv.take(i as int), ev)),
        decreases n - i,
    {
        let ghost before = body@;
        let found = find_ballot(entries, &candidates[i]);
        proof {
            assert(cv.take(i as int + 1).drop_last() =~= cv.take(i as int));
            assert(cv.take(i as int + 1).last() == candidates@[i as int]@);
        }
        match found {
            Some(j) => {
                write_borsh_string(&mut body, entries[j].0.as_str());
                write_borsh_bytes(&mut body, entries[j].1.as_slice());
                included = included.saturating_add(1);
                proof {
                    assert(ev[j as int].0 == entries@[j as int].0@);
                    assert(ev[j as int].1 == entries@[j as int].1@);
                    assert(body@ =~= ballots_body(cv.take(i as int + 1), ev));
                }
            },
            None => {
                assert(body@ =~= ballots_body(cv.take(i as int + 1), ev));
            },
        }
        i += 1;
    }
    assert(cv.take(n as int) =~= cv);
    let mut preimage: Vec<u8> = Vec::new();
    append_bytes(&mut preimage, DST_BALLOTS.as_slice());
    write_u32_le(&mut preimage, included);
    append_bytes(&mut preimage, body.as_slice());
    assert(preimage@ =~= ballots_preimage(cv, ev));
    sha256(preimage.as_slice())
}

/// SHA-256 of the canonical serialization: the commit a publish quote's
/// ReportData[0..32] must carry.
pub fn compute_commit_hash(
    contract_addr: &str,
    chain_id: &str,
    election_id: u64,
    ballots_hash: &[u8; 32],
    names_hash: &[u8; 32],
    tally: &TallyResult,
) -> (r: [u8; 32])
    ensures
        r@ == sha256_spec(
            canonical_bytes(contract_addr@, chain_id@, election_id, ballots_hash@, names_hash@, tally@),
        ),
{
    let canonical = canonical_serialization(
        contract_addr,
        chain_id,
        election_id,
        ballots_hash,
        names_hash,
        tally,
    );
    sha256(canonical.as_slice())
}

/// 64 bytes of ReportData: `lower`, then `tag` zero-padded to 32 bytes.
pub(crate) fn tag_report_data(lower: &[u8; 32], tag: &[u8]) -> (rd: [u8; 64])
    requires
        tag@.len() <= 32,
    ensures
        rd@ == tagged(lower@, tag@),
{
    let mut rd = [0u8; 64];
    let mut i: usize = 0;
    while i < 32
        invariant
            i <= 32,
            rd@.len() == 64,
            forall|k: int| 0 <= k < i ==> rd@[k] == lower@[k],
            forall|k: int| 32 <= k < 64 ==> rd@[k] == 0u8,
        decreases 32 - i,
    {
        rd[i] = lower[i];
        i += 1;
    }
    let n = tag.len();
    let mut j: usize = 0;
    while j < n
        invariant
            n == tag@.len(),
            n <= 32,
            j <= n,
            rd@.len() == 64,
            forall|k: int| 0 <= k < 32 ==> rd@[k] == lower@[k],
            forall|k: int| 0 <= k < j ==> rd@[32 + k] == tag@[k],
            forall|k: int| 32 + j <= k < 64 ==> rd@[k] == 0u8,
        decreases n - j,
    {
        rd[32 + j] = tag[j];
        j += 1;
    }
    assert(rd@ =~= tagged(lower@, tag@));
    rd
}

/// SHA-256 over `enclave_pubkey ‖ Borsh(contract_addr) ‖
/// u64_LE(election_id) ‖ names_hash`.
pub fn registration_digest(
    enclave_pubkey: &[u8],
    contract_addr: &str,
    election_id: u64,
    names_hash: &[u8; 32],
) -> (h: [u8; 32])
    ensures
        h@ == sha256_spec(registration_preimage(enclave_pubkey@, contract_addr@, election_id, names_hash@)),
{
    let mut preimage: Vec<u8> = Vec::new();
    append_bytes(&mut preimage, enclave_pubkey);
    write_borsh_string(&mut preimage, contract_addr);
    write_u64_le(&mut preimage, election_id);
    append_bytes(&mut preimage, names_hash.as_slice());
    assert(preimage@ =~= registration_preimage(enclave_pubkey@, contract_addr@, election_id, names_hash@));
    sha256(preimage.as_slice())
}

/// Registration ReportData: SHA-256 over `enclave_pubkey ‖
/// Borsh(contract_addr) ‖ u64_LE(election_id) ‖ names_hash`, then the
/// zero-padded pubkey tag.
pub fn build_registration_report_data(
    enclave_pubkey: &[u8],
    contract_addr: &str,
    election_id: u64,
    names_hash: &[u8; 32],
) -> (rd: [u8; 64])
    ensures
        rd@ == tagged(
            sha256_spec(registration_preimage(enclave_pubkey@, contract_addr@, election_id, names_hash@)),
            DST_PUBKEY@,
        ),
{
    let h = registration_digest(enclave_pubkey, contract_addr, election_id, names_hash);
    tag_report_data(&h, DST_PUBKEY.as_slice())
}

} // verus!
