//! Byte encodings shared by the enclave and the contract: little-endian
//! integers, Borsh-style length-prefixed strings and byte strings, and the
//! canonical serialization of a tally that both sides hash.
use vstd::prelude::*;
use vstd::utf8::encode_utf8;
use crate::types::{CountRow, Name, RoundCount, TallyResult, TallyView};

verus! {

// ---------------------------------------------------------------------------
// Models
// ---------------------------------------------------------------------------

/// The `n` low bytes of `v`, least significant first.
pub open spec fn le_bytes(v: nat, n: nat) -> Seq<u8>
    decreases n,
{
    if n == 0 {
        Seq::empty()
    } else {
        seq![(v % 256) as u8] + le_bytes(v / 256, (n - 1) as nat)
    }
}

/// A `u32` as four little-endian bytes.
pub open spec fn u32_le(v: u32) -> Seq<u8> {
    le_bytes(v as nat, 4)
}

/// A `u64` as eight little-endian bytes.
pub open spec fn u64_le(v: u64) -> Seq<u8> {
    le_bytes(v as nat, 8)
}

/// A length as the `u32` that prefixes it on the wire (truncated, as a
/// `usize as u32` cast does).
pub open spec fn len32(n: nat) -> u32 {
    n as u32
}

/// A Borsh byte string: `u32` little-endian length, then the bytes.
pub open spec fn borsh_bytes(b: Seq<u8>) -> Seq<u8> {
    u32_le(len32(b.len())) + b
}

/// A Borsh string: its UTF-8 bytes as a Borsh byte string.
pub open spec fn borsh_str(s: Seq<char>) -> Seq<u8> {
    borsh_bytes(encode_utf8(s))
}

/// The Borsh strings of `v`, one after the other.
pub open spec fn names_body(v: Seq<Name>) -> Seq<u8>
    decreases v.len(),
{
    if v.len() == 0 {
        Seq::empty()
    } else {
        names_body(v.drop_last()) + borsh_str(v.last())
    }
}

/// A list of addresses: `u32` count, then each as a Borsh string.
pub open spec fn vec_addr(v: Seq<Name>) -> Seq<u8> {
    u32_le(len32(v.len())) + names_body(v)
}

/// One `(candidate, count)` entry: Borsh string, then the count as `u64`.
pub open spec fn count_entry(e: (Name, u32)) -> Seq<u8> {
    borsh_str(e.0) + u64_le(e.1 as u64)
}

/// The entries of a row, one after the other.
pub open spec fn row_body(r: CountRow) -> Seq<u8>
    decreases r.len(),
{
    if r.len() == 0 {
        Seq::empty()
    } else {
        row_body(r.drop_last()) + count_entry(r.last())
    }
}

/// One round's counts: `u32` count of entries, then the entries.
pub open spec fn row_bytes(r: CountRow) -> Seq<u8> {
    u32_le(len32(r.len())) + row_body(r)
}

/// The rows, one after the other.
pub open spec fn rows_body(rs: Seq<CountRow>) -> Seq<u8>
    decreases rs.len(),
{
    if rs.len() == 0 {
        Seq::empty()
    } else {
        rows_body(rs.drop_last()) + row_bytes(rs.last())
    }
}

/// All rounds' counts: `u32` count of rounds, then each round.
pub open spec fn rows_bytes(rs: Seq<CountRow>) -> Seq<u8> {
    u32_le(len32(rs.len())) + rows_body(rs)
}

/// The eliminated rows, one after the other.
pub open spec fn elims_body(es: Seq<Seq<Name>>) -> Seq<u8>
    decreases es.len(),
{
    if es.len() == 0 {
        Seq::empty()
    } else {
        elims_body(es.drop_last()) + vec_addr(es.last())
    }
}

/// All eliminated rows: `u32` count, then each row as an address list.
pub open spec fn elims_bytes(es: Seq<Seq<Name>>) -> Seq<u8> {
    u32_le(len32(es.len())) + elims_body(es)
}

/// The tally body: winners, rounds, eliminations, the two ballot counts
/// as `u64`, dropped voters and non-voters.
pub open spec fn tally_body(t: TallyView) -> Seq<u8> {
    vec_addr(t.winners) + rows_bytes(t.per_round_counts) + elims_bytes(t.eliminated_by_round)
        + u64_le(t.ballots_tallied as u64) + u64_le(t.ballots_dropped as u64) + vec_addr(
        t.dropped_voters,
    ) + vec_addr(t.non_voters)
}

/// The canonical serialization that the publish commit hashes:
/// `Borsh(contract_addr) ‖ Borsh(chain_id) ‖ u64_LE(election_id) ‖
/// ballots_hash ‖ names_hash ‖ tally_body`.
pub open spec fn canonical_bytes(
    contract_addr: Seq<char>,
    chain_id: Seq<char>,
    election_id: u64,
    ballots_hash: Seq<u8>,
    names_hash: Seq<u8>,
    t: TallyView,
) -> Seq<u8> {
    borsh_str(contract_addr) + borsh_str(chain_id) + u64_le(election_id) + ballots_hash + names_hash
        + tally_body(t)
}

// ---------------------------------------------------------------------------
// Writers
// ---------------------------------------------------------------------------

proof fn lemma_take_step<A>(s: Seq<A>, i: int)
    requires
        0 <= i < s.len(),
    ensures
        s.take(i + 1).drop_last() == s.take(i),
        s.take(i + 1).last() == s[i],
{
    assert(s.take(i + 1).drop_last() =~= s.take(i));
}

/// Appends the `n` low bytes of `v`, least significant first.
fn push_le(out: &mut Vec<u8>, v: u64, n: usize)
    requires
        n <= 8,
    ensures
        final(out)@ == old(out)@ + le_bytes(v as nat, n as nat),
{
    let ghost start = out@;
    let mut x: u64 = v;
    let mut i: usize = 0;
    assert(start =~= start + Seq::<u8>::empty());
    while i < n
        invariant
            i <= n,
            start + le_bytes(v as nat, n as nat) == out@ + le_bytes(x as nat, (n - i) as nat),
        decreases n - i,
    {
        let ghost before = out@;
        let ghost rest = le_bytes((x / 256) as nat, (n - i - 1) as nat);
        out.push((x % 256) as u8);
        proof {
            assert(le_bytes(x as nat, (n - i) as nat) == seq![(x % 256) as u8] + rest);
            assert(before + (seq![(x % 256) as u8] + rest) =~= out@ + rest);
        }
        x = x / 256;
        i += 1;
    }
    assert(out@ + le_bytes(x as nat, 0) =~= out@);
}

/// Appends `v` as four little-endian bytes.
pub fn write_u32_le(out: &mut Vec<u8>, v: u32)
    ensures
        final(out)@ == old(out)@ + u32_le(v),
{
    push_le(out, v as u64, 4);
}

/// Appends `v` as eight little-endian bytes.
pub fn write_u64_le(out: &mut Vec<u8>, v: u64)
    ensures
        final(out)@ == old(out)@ + u64_le(v),
{
    push_le(out, v, 8);
}

/// Appends the bytes of `b`.
pub fn append_bytes(out: &mut Vec<u8>, b: &[u8])
    ensures
        final(out)@ == old(out)@ + b@,
{
    let ghost start = out@;
    let n = b.len();
    let mut i: usize = 0;
    while i < n
        invariant
            n == b@.len(),
            i <= n,
            out@ == start + b@.take(i as int),
        decreases n - i,
    {
        out.push(b[i]);
        proof {
            lemma_take_step(b@, i as int);
            assert(out@ =~= start + b@.take(i as int + 1));
        }
        i += 1;
    }
    assert(b@.take(n as int) =~= b@);
}

/// Appends a Borsh byte string: `u32` LE length, then the bytes.
pub fn write_borsh_bytes(out: &mut Vec<u8>, b: &[u8])
    ensures
        final(out)@ == old(out)@ + borsh_bytes(b@),
{
    let ghost start = out@;
    write_u32_le(out, b.len() as u32);
    append_bytes(out, b);
    assert(out@ =~= start + borsh_bytes(b@));
}

/// Appends a Borsh string: `u32` LE byte length, then the UTF-8 bytes.
pub fn write_borsh_string(out: &mut Vec<u8>, s: &str)
    ensures
        final(out)@ == old(out)@ + borsh_str(s@),
{
    let bytes = s.as_bytes();
    write_borsh_bytes(out, bytes);
}

/// Appends a list of addresses: `u32` LE count, then each Borsh string.
pub(crate) fn write_vec_addr(out: &mut Vec<u8>, v: &Vec<String>)
    ensures
        final(out)@ == old(out)@ + vec_addr(v.deep_view()),
{
    let ghost start = out@;
    let ghost dv = v.deep_view();
    write_u32_le(out, v.len() as u32);
    let ghost mid = out@;
    let n = v.len();
    let mut i: usize = 0;
    assert(dv.take(0) =~= Seq::<Name>::empty());
    assert(mid =~= mid + names_body(dv.take(0)));
    while i < n
        invariant
            n == v.len(),
            dv == v.deep_view(),
            i <= n,
            out@ == mid + names_body(dv.take(i as int)),
        decreases n - i,
    {
        let ghost before = out@;
        write_borsh_string(out, v[i].as_str());
        proof {
            lemma_take_step(dv, i as int);
            assert(dv[i as int] == v@[i as int]@);
            assert(out@ =~= mid + names_body(dv.take(i as int + 1)));
        }
        i += 1;
    }
    assert(dv.take(n as int) =~= dv);
    assert(out@ =~= start + vec_addr(dv));
}

/// Appends one round's counts.
fn write_round_counts(out: &mut Vec<u8>, rcs: &Vec<RoundCount>)
    ensures
        final(out)@ == old(out)@ + row_bytes(rcs.deep_view()),
{
    let ghost start = out@;
    let ghost dv = rcs.deep_view();
    write_u32_le(out, rcs.len() as u32);
    let ghost mid = out@;
    let n = rcs.len();
    let mut i: usize = 0;
    assert(dv.take(0) =~= Seq::<(Name, u32)>::empty());
    assert(mid =~= mid + row_body(dv.take(0)));
    while i < n
        invariant
            n == rcs@.len(),
            dv == rcs.deep_view(),
            i <= n,
            out@ == mid + row_body(dv.take(i as int)),
        decreases n - i,
    {
        let ghost before = out@;
        write_borsh_string(out, rcs[i].candidate.as_str());
        write_u64_le(out, rcs[i].count as u64);
        proof {
            lemma_take_step(dv, i as int);
            assert(dv[i as int] == rcs@[i as int].deep_view());
            assert(out@ =~= mid + row_body(dv.take(i as int + 1)));
        }
        i += 1;
    }
    assert(dv.take(n as int) =~= dv);
    assert(out@ =~= start + row_bytes(dv));
}

/// Appends all rounds' counts.
fn write_per_round_counts(out: &mut Vec<u8>, prc: &Vec<Vec<RoundCount>>)
    ensures
        final(out)@ == old(out)@ + rows_bytes(prc.deep_view()),
{
    let ghost start = out@;
    let ghost dv = prc.deep_view();
    write_u32_le(out, prc.len() as u32);
    let ghost mid = out@;
    let n = prc.len();
    let mut i: usize = 0;
    assert(dv.take(0) =~= Seq::<CountRow>::empty());
    assert(mid =~= mid + rows_body(dv.take(0)));
    while i < n
        invariant
            n == prc@.len(),
            dv == prc.deep_view(),
            i <= n,
            out@ == mid + rows_body(dv.take(i as int)),
        decreases n - i,
    {
        write_round_counts(out, &prc[i]);
        proof {
            lemma_take_step(dv, i as int);
            assert(dv[i as int] == prc@[i as int].deep_view());
            assert(out@ =~= mid + rows_body(dv.take(i as int + 1)));
        }
        i += 1;
    }
    assert(dv.take(n as int) =~= dv);
    assert(out@ =~= start + rows_bytes(dv));
}

/// Appends all eliminated rows.
fn write_eliminated_by_round(out: &mut Vec<u8>, ebr: &Vec<Vec<String>>)
    ensures
        final(out)@ == old(out)@ + elims_bytes(ebr.deep_view()),
{
    let ghost start = out@;
    let ghost dv = ebr.deep_view();
    write_u32_le(out, ebr.len() as u32);
    let ghost mid = out@;
    let n = ebr.len();
    let mut i: usize = 0;
    assert(dv.take(0) =~= Seq::<Seq<Name>>::empty());
    assert(mid =~= mid + elims_body(dv.take(0)));
    while i < n
        invariant
            n == ebr@.len(),
            dv == ebr.deep_view(),
            i <= n,
            out@ == mid + elims_body(dv.take(i as int)),
        decreases n - i,
    {
        write_vec_addr(out, &ebr[i]);
        proof {
            lemma_take_step(dv, i as int);
            assert(dv[i as int] == ebr@[i as int].deep_view());
            assert(out@ =~= mid + elims_body(dv.take(i as int + 1)));
        }
        i += 1;
    }
    assert(dv.take(n as int) =~= dv);
    assert(out@ =~= start + elims_bytes(dv));
}

/// Appends the tally body.
fn write_tally_body(out: &mut Vec<u8>, t: &TallyResult)
    ensures
        final(out)@ == old(out)@ + tally_body(t@),
{
    let ghost start = out@;
    write_vec_addr(out, &t.winners);
    write_per_round_counts(out, &t.per_round_counts);
    write_eliminated_by_round(out, &t.eliminated_by_round);
    write_u64_le(out, t.ballots_tallied as u64);
    write_u64_le(out, t.ballots_dropped as u64);
    write_vec_addr(out, &t.dropped_voters);
    write_vec_addr(out, &t.non_voters);
    proof {
        assert(out@ =~= start + tally_body(t@));
    }
}

/// The canonical serialization of a tally for a given contract, chain and
/// election, bound to the ballots and candidate-names hashes.
pub fn canonical_serialization(
    contract_addr: &str,
    chain_id: &str,
    election_id: u64,
    ballots_hash: &[u8; 32],
    names_hash: &[u8; 32],
    tally: &TallyResult,
) -> (out: Vec<u8>)
    ensures
        out@ == canonical_bytes(contract_addr@, chain_id@, election_id, ballots_hash@, names_hash@, tally@),
{
    let mut out: Vec<u8> = Vec::new();
    write_borsh_string(&mut out, contract_addr);
    write_borsh_string(&mut out, chain_id);
    write_u64_le(&mut out, election_id);
    append_bytes(&mut out, ballots_hash.as_slice());
    append_bytes(&mut out, names_hash.as_slice());
    write_tally_body(&mut out, tally);
    assert(out@ =~= canonical_bytes(contract_addr@, chain_id@, election_id, ballots_hash@, names_hash@, tally@));
    out
}

// ---------------------------------------------------------------------------
// Big-endian integers
// ---------------------------------------------------------------------------

/// `256^n`.
pub open spec fn pow256(n: nat) -> nat
    decreases n,
{
    if n == 0 {
        1
    } else {
        256 * pow256((n - 1) as nat)
    }
}

/// The `n` low bytes of `v`, most significant first.
pub open spec fn be_bytes(v: nat, n: nat) -> Seq<u8>
    decreases n,
{
    if n == 0 {
        Seq::empty()
    } else {
        be_bytes(v / 256, (n - 1) as nat).push((v % 256) as u8)
    }
}

/// The number that big-endian bytes denote.
pub open spec fn be_value(b: Seq<u8>) -> nat
    decreases b.len(),
{
    if b.len() == 0 {
        0
    } else {
        be_value(b.drop_last()) * 256 + b.last() as nat
    }
}

/// Big-endian bytes denote a number below `256^len`.
pub proof fn lemma_be_value_bound(b: Seq<u8>)
    ensures
        be_value(b) < pow256(b.len()),
    decreases b.len(),
{
    if b.len() > 0 {
        lemma_be_value_bound(b.drop_last());
    }
}

/// Reading back `n` big-endian bytes of a number below `256^n` gives it.
pub proof fn lemma_be_round_trip(v: nat, n: nat)
    requires
        v < pow256(n),
    ensures
        be_bytes(v, n).len() == n,
        be_value(be_bytes(v, n)) == v,
    decreases n,
{
    if n > 0 {
        lemma_be_round_trip(v / 256, (n - 1) as nat);
        assert(be_bytes(v, n).drop_last() == be_bytes(v / 256, (n - 1) as nat));
    }
}

/// `256^a <= 256^b` for `a <= b`.
pub proof fn lemma_pow256_mono(a: nat, b: nat)
    requires
        a <= b,
    ensures
        pow256(a) <= pow256(b),
    decreases b,
{
    if a < b {
        lemma_pow256_mono(a, (b - 1) as nat);
    }
}

/// `256^8 == 2^64`.
pub proof fn lemma_pow256_8()
    ensures
        pow256(8) == 0x1_0000_0000_0000_0000,
{
    reveal_with_fuel(pow256, 9);
}

/// `n` little-endian bytes have length `n`.
pub proof fn lemma_le_bytes_len(v: nat, n: nat)
    ensures
        le_bytes(v, n).len() == n,
    decreases n,
{
    if n > 0 {
        lemma_le_bytes_len(v / 256, (n - 1) as nat);
    }
}

/// Numbers below `256^n` with the same `n` little-endian bytes are equal.
pub proof fn lemma_le_bytes_injective(v1: nat, v2: nat, n: nat)
    requires
        v1 < pow256(n),
        v2 < pow256(n),
        le_bytes(v1, n) == le_bytes(v2, n),
    ensures
        v1 == v2,
    decreases n,
{
    if n > 0 {
        let p = pow256((n - 1) as nat);
        assert(le_bytes(v1, n)[0] == le_bytes(v2, n)[0]);
        assert(le_bytes(v1, n)[0] == (v1 % 256) as u8);
        assert(le_bytes(v2, n)[0] == (v2 % 256) as u8);
        assert(v1 % 256 == v2 % 256);
        lemma_le_bytes_len(v1 / 256, (n - 1) as nat);
        lemma_le_bytes_len(v2 / 256, (n - 1) as nat);
        assert(le_bytes(v1 / 256, (n - 1) as nat) =~= le_bytes(v1, n).drop_first());
        assert(le_bytes(v2 / 256, (n - 1) as nat) =~= le_bytes(v2, n).drop_first());
        assert(v1 / 256 < p) by (nonlinear_arith)
            requires
                v1 < 256 * p,
        ;
        assert(v2 / 256 < p) by (nonlinear_arith)
            requires
                v2 < 256 * p,
        ;
        lemma_le_bytes_injective(v1 / 256, v2 / 256, (n - 1) as nat);
    }
}

/// A Borsh string followed by anything determines the string and the rest.
pub proof fn lemma_borsh_str_prefix(s1: Seq<char>, r1: Seq<u8>, s2: Seq<char>, r2: Seq<u8>)
    requires
        encode_utf8(s1).len() <= u32::MAX,
        encode_utf8(s2).len() <= u32::MAX,
        borsh_str(s1) + r1 == borsh_str(s2) + r2,
    ensures
        s1 == s2,
        r1 == r2,
{
    let e1 = encode_utf8(s1);
    let e2 = encode_utf8(s2);
    let x = borsh_str(s1) + r1;
    let y = borsh_str(s2) + r2;
    lemma_le_bytes_len(len32(e1.len()) as nat, 4);
    lemma_le_bytes_len(len32(e2.len()) as nat, 4);
    assert(x.subrange(0, 4) =~= u32_le(len32(e1.len())));
    assert(y.subrange(0, 4) =~= u32_le(len32(e2.len())));
    reveal_with_fuel(pow256, 5);
    lemma_le_bytes_injective(len32(e1.len()) as nat, len32(e2.len()) as nat, 4);
    assert(e1.len() == e2.len());
    assert(x.subrange(4, 4 + e1.len() as int) =~= e1);
    assert(y.subrange(4, 4 + e2.len() as int) =~= e2);
    vstd::utf8::encode_utf8_decode_utf8(s1);
    vstd::utf8::encode_utf8_decode_utf8(s2);
    assert(x.subrange(4 + e1.len() as int, x.len() as int) =~= r1);
    assert(y.subrange(4 + e2.len() as int, y.len() as int) =~= r2);
}

/// The eight bytes of `b` from `start` on, read as a big-endian `u64`.
pub fn read_be_u64(b: &[u8], start: usize) -> (r: u64)
    requires
        start + 8 <= b@.len(),
    ensures
        r as nat == be_value(b@.subrange(start as int, start + 8)),
{
    let n = b.len();
    let mut v: u64 = 0;
    let mut k: usize = 0;
    proof {
        lemma_pow256_8();
        assert(b@.subrange(start as int, start as int) =~= Seq::<u8>::empty());
    }
    while k < 8
        invariant
            n == b@.len(),
            start + 8 <= n,
            k <= 8,
            v as nat == be_value(b@.subrange(start as int, start + k)),
            pow256(8) == 0x1_0000_0000_0000_0000,
        decreases 8 - k,
    {
        proof {
            let s = b@.subrange(start as int, start + k + 1);
            assert(s.drop_last() =~= b@.subrange(start as int, start + k));
            assert(s.last() == b@[start + k]);
            lemma_be_value_bound(s);
            lemma_pow256_mono(s.len(), 8);
            assert(be_value(s) == v * 256 + b@[start + k]);
        }
        v = v * 256 + b[start + k] as u64;
        k += 1;
    }
    v
}

/// Appends `v` as four big-endian bytes.
pub fn write_u32_be(out: &mut Vec<u8>, v: u32)
    ensures
        final(out)@ == old(out)@ + be_bytes(v as nat, 4),
{
    let ghost start = out@;
    out.push((v / 16777216) as u8);
    out.push(((v / 65536) % 256) as u8);
    out.push(((v / 256) % 256) as u8);
    out.push((v % 256) as u8);
    proof {
        reveal_with_fuel(be_bytes, 5);
        assert(out@ =~= start + be_bytes(v as nat, 4));
    }
}

/// Whether two byte strings are equal.
pub fn bytes_eq(a: &[u8], b: &[u8]) -> (r: bool)
    ensures
        r == (a@ == b@),
{
    if a.len() != b.len() {
        return false;
    }
    let n = a.len();
    let mut i: usize = 0;
    while i < n
        invariant
            n == a@.len(),
            n == b@.len(),
            i <= n,
            forall|j: int| 0 <= j < i ==> a@[j] == b@[j],
        decreases n - i,
    {
        if a[i] != b[i] {
            return false;
        }
        i += 1;
    }
    assert(a@ =~= b@);
    true
}

} // verus!
