//! The canonical serialization is unambiguous: every part of it can be
//! read back, so two equal serializations come from equal arguments.
use vstd::prelude::*;
use vstd::utf8::encode_utf8;
use crate::codec::{
    borsh_str, canonical_bytes, count_entry, elims_body, elims_bytes, lemma_borsh_str_prefix,
    lemma_le_bytes_injective, lemma_le_bytes_len, lemma_pow256_8, len32, names_body, pow256, row_body,
    row_bytes, rows_body, rows_bytes, tally_body, u32_le, u64_le, vec_addr,
};
use crate::types::{CountRow, Name, TallyView};

verus! {

// ---------------------------------------------------------------------------
// Encodings of lists
// ---------------------------------------------------------------------------

/// The encodings of the items of `v`, one after the other.
pub open spec fn concat_enc<A>(v: Seq<A>, enc: spec_fn(A) -> Seq<u8>) -> Seq<u8>
    decreases v.len(),
{
    if v.len() == 0 {
        Seq::empty()
    } else {
        concat_enc(v.drop_last(), enc) + enc(v.last())
    }
}

/// An encoding of the items that `ok` admits is prefix-free: an encoding
/// followed by anything determines the item and what follows.
pub open spec fn prefix_free<A>(enc: spec_fn(A) -> Seq<u8>, ok: spec_fn(A) -> bool) -> bool {
    forall|x1: A, x2: A, r1: Seq<u8>, r2: Seq<u8>|
        #![trigger enc(x1).add(r1), enc(x2).add(r2)]
        ok(x1) && ok(x2) && enc(x1).add(r1) == enc(x2).add(r2) ==> x1 == x2 && r1 == r2
}

proof fn lemma_concat_front<A>(v: Seq<A>, enc: spec_fn(A) -> Seq<u8>)
    requires
        v.len() > 0,
    ensures
        concat_enc(v, enc) == enc(v[0]) + concat_enc(v.drop_first(), enc),
    decreases v.len(),
{
    if v.len() == 1 {
        assert(v.drop_last() =~= Seq::<A>::empty());
        assert(v.drop_first() =~= Seq::<A>::empty());
        assert(concat_enc(v, enc) =~= enc(v[0]) + concat_enc(v.drop_first(), enc));
    } else {
        lemma_concat_front(v.drop_last(), enc);
        assert(v.drop_last().drop_first() =~= v.drop_first().drop_last());
        assert(v.drop_first().last() == v.last());
        assert(v.drop_last()[0] == v[0]);
        assert(concat_enc(v, enc) =~= enc(v[0]) + concat_enc(v.drop_first(), enc));
    }
}

proof fn lemma_concat_prefix<A>(
    v1: Seq<A>,
    v2: Seq<A>,
    enc: spec_fn(A) -> Seq<u8>,
    ok: spec_fn(A) -> bool,
    r1: Seq<u8>,
    r2: Seq<u8>,
)
    requires
        v1.len() == v2.len(),
        forall|i: int| 0 <= i < v1.len() ==> ok(#[trigger] v1[i]),
        forall|i: int| 0 <= i < v2.len() ==> ok(#[trigger] v2[i]),
        prefix_free(enc, ok),
        concat_enc(v1, enc) + r1 == concat_enc(v2, enc) + r2,
    ensures
        v1 == v2,
        r1 == r2,
    decreases v1.len(),
{
    if v1.len() == 0 {
        assert(concat_enc(v1, enc) + r1 =~= r1);
        assert(concat_enc(v2, enc) + r2 =~= r2);
        assert(v1 =~= v2);
    } else {
        lemma_concat_front(v1, enc);
        lemma_concat_front(v2, enc);
        let t1 = concat_enc(v1.drop_first(), enc) + r1;
        let t2 = concat_enc(v2.drop_first(), enc) + r2;
        assert(concat_enc(v1, enc) + r1 =~= enc(v1[0]).add(t1));
        assert(concat_enc(v2, enc) + r2 =~= enc(v2[0]).add(t2));
        assert(ok(v1[0]) && ok(v2[0]));
        assert(enc(v1[0]).add(t1) == enc(v2[0]).add(t2));
        assert(v1[0] == v2[0] && t1 == t2);
        assert forall|i: int| 0 <= i < v1.drop_first().len() implies ok(#[trigger] v1.drop_first()[i]) by {
            assert(ok(v1[i + 1]));
        }
        assert forall|i: int| 0 <= i < v2.drop_first().len() implies ok(#[trigger] v2.drop_first()[i]) by {
            assert(ok(v2[i + 1]));
        }
        lemma_concat_prefix(v1.drop_first(), v2.drop_first(), enc, ok, r1, r2);
        assert(v1 =~= v2) by {
            assert forall|i: int| 0 <= i < v1.len() implies v1[i] == v2[i] by {
                if i > 0 {
                    assert(v1.drop_first()[i - 1] == v2.drop_first()[i - 1]);
                }
            }
        }
    }
}

// ---------------------------------------------------------------------------
// Fixed-width integers
// ---------------------------------------------------------------------------

proof fn lemma_u32_prefix(n1: nat, n2: nat, r1: Seq<u8>, r2: Seq<u8>)
    requires
        n1 <= u32::MAX,
        n2 <= u32::MAX,
        u32_le(len32(n1)) + r1 == u32_le(len32(n2)) + r2,
    ensures
        n1 == n2,
        r1 == r2,
{
    let x = u32_le(len32(n1)) + r1;
    let y = u32_le(len32(n2)) + r2;
    lemma_le_bytes_len(len32(n1) as nat, 4);
    lemma_le_bytes_len(len32(n2) as nat, 4);
    assert(x.subrange(0, 4) =~= u32_le(len32(n1)));
    assert(y.subrange(0, 4) =~= u32_le(len32(n2)));
    reveal_with_fuel(pow256, 5);
    lemma_le_bytes_injective(len32(n1) as nat, len32(n2) as nat, 4);
    assert(x.subrange(4, x.len() as int) =~= r1);
    assert(y.subrange(4, y.len() as int) =~= r2);
}

proof fn lemma_u64_prefix(v1: u64, v2: u64, r1: Seq<u8>, r2: Seq<u8>)
    requires
        u64_le(v1) + r1 == u64_le(v2) + r2,
    ensures
        v1 == v2,
        r1 == r2,
{
    let x = u64_le(v1) + r1;
    let y = u64_le(v2) + r2;
    lemma_le_bytes_len(v1 as nat, 8);
    lemma_le_bytes_len(v2 as nat, 8);
    assert(x.subrange(0, 8) =~= u64_le(v1));
    assert(y.subrange(0, 8) =~= u64_le(v2));
    lemma_pow256_8();
    lemma_le_bytes_injective(v1 as nat, v2 as nat, 8);
    assert(x.subrange(8, x.len() as int) =~= r1);
    assert(y.subrange(8, y.len() as int) =~= r2);
}

// ---------------------------------------------------------------------------
// The layers of the tally body
// ---------------------------------------------------------------------------

/// A string whose UTF-8 length fits the `u32` prefix.
pub open spec fn name_ok(s: Name) -> bool {
    encode_utf8(s).len() <= u32::MAX
}

/// A list of strings whose count and lengths fit their `u32` prefixes.
pub open spec fn names_ok(v: Seq<Name>) -> bool {
    v.len() <= u32::MAX && forall|i: int| 0 <= i < v.len() ==> name_ok(#[trigger] v[i])
}

/// A row of counts whose count and names fit their prefixes.
pub open spec fn row_ok(r: CountRow) -> bool {
    r.len() <= u32::MAX && forall|i: int| 0 <= i < r.len() ==> name_ok(#[trigger] r[i].0)
}

/// Rows whose count and each row fit their prefixes.
pub open spec fn rows_ok(rs: Seq<CountRow>) -> bool {
    rs.len() <= u32::MAX && forall|i: int| 0 <= i < rs.len() ==> row_ok(#[trigger] rs[i])
}

/// Eliminated rows whose count and each row fit their prefixes.
pub open spec fn elims_ok(es: Seq<Seq<Name>>) -> bool {
    es.len() <= u32::MAX && forall|i: int| 0 <= i < es.len() ==> names_ok(#[trigger] es[i])
}

/// A tally every list and string of which fits its `u32` prefix.
pub open spec fn tally_ok(t: TallyView) -> bool {
    &&& names_ok(t.winners)
    &&& rows_ok(t.per_round_counts)
    &&& elims_ok(t.eliminated_by_round)
    &&& names_ok(t.dropped_voters)
    &&& names_ok(t.non_voters)
}

spec fn str_enc() -> spec_fn(Name) -> Seq<u8> {
    |s: Name| borsh_str(s)
}

spec fn name_okf() -> spec_fn(Name) -> bool {
    |s: Name| name_ok(s)
}

spec fn entry_enc() -> spec_fn((Name, u32)) -> Seq<u8> {
    |e: (Name, u32)| count_entry(e)
}

spec fn entry_okf() -> spec_fn((Name, u32)) -> bool {
    |e: (Name, u32)| name_ok(e.0)
}

spec fn row_enc() -> spec_fn(CountRow) -> Seq<u8> {
    |r: CountRow| row_bytes(r)
}

spec fn row_okf() -> spec_fn(CountRow) -> bool {
    |r: CountRow| row_ok(r)
}

spec fn vec_enc() -> spec_fn(Seq<Name>) -> Seq<u8> {
    |v: Seq<Name>| vec_addr(v)
}

spec fn names_okf() -> spec_fn(Seq<Name>) -> bool {
    |v: Seq<Name>| names_ok(v)
}

proof fn lemma_names_body_concat(v: Seq<Name>)
    ensures
        names_body(v) == concat_enc(v, str_enc()),
    decreases v.len(),
{
    if v.len() > 0 {
        lemma_names_body_concat(v.drop_last());
    }
}

proof fn lemma_row_body_concat(r: CountRow)
    ensures
        row_body(r) == concat_enc(r, entry_enc()),
    decreases r.len(),
{
    if r.len() > 0 {
        lemma_row_body_concat(r.drop_last());
    }
}

proof fn lemma_rows_body_concat(rs: Seq<CountRow>)
    ensures
        rows_body(rs) == concat_enc(rs, row_enc()),
    decreases rs.len(),
{
    if rs.len() > 0 {
        lemma_rows_body_concat(rs.drop_last());
    }
}

proof fn lemma_elims_body_concat(es: Seq<Seq<Name>>)
    ensures
        elims_body(es) == concat_enc(es, vec_enc()),
    decreases es.len(),
{
    if es.len() > 0 {
        lemma_elims_body_concat(es.drop_last());
    }
}

proof fn lemma_str_prefix_free()
    ensures
        prefix_free(str_enc(), name_okf()),
{
    assert forall|x1: Name, x2: Name, r1: Seq<u8>, r2: Seq<u8>|
        #![trigger str_enc()(x1).add(r1), str_enc()(x2).add(r2)]
        name_okf()(x1) && name_okf()(x2) && str_enc()(x1).add(r1) == str_enc()(x2).add(r2) implies x1 == x2
        && r1 == r2 by {
        lemma_borsh_str_prefix(x1, r1, x2, r2);
    }
}

proof fn lemma_vec_prefix(v1: Seq<Name>, v2: Seq<Name>, r1: Seq<u8>, r2: Seq<u8>)
    requires
        names_ok(v1),
        names_ok(v2),
        vec_addr(v1) + r1 == vec_addr(v2) + r2,
    ensures
        v1 == v2,
        r1 == r2,
{
    let b1 = names_body(v1) + r1;
    let b2 = names_body(v2) + r2;
    assert(vec_addr(v1) + r1 =~= u32_le(len32(v1.len())) + b1);
    assert(vec_addr(v2) + r2 =~= u32_le(len32(v2.len())) + b2);
    lemma_u32_prefix(v1.len(), v2.len(), b1, b2);
    lemma_names_body_concat(v1);
    lemma_names_body_concat(v2);
    lemma_str_prefix_free();
    assert forall|i: int| 0 <= i < v1.len() implies name_okf()(#[trigger] v1[i]) by {
        assert(name_ok(v1[i]));
    }
    assert forall|i: int| 0 <= i < v2.len() implies name_okf()(#[trigger] v2[i]) by {
        assert(name_ok(v2[i]));
    }
    lemma_concat_prefix(v1, v2, str_enc(), name_okf(), r1, r2);
}

proof fn lemma_vec_prefix_free()
    ensures
        prefix_free(vec_enc(), names_okf()),
{
    assert forall|x1: Seq<Name>, x2: Seq<Name>, r1: Seq<u8>, r2: Seq<u8>|
        #![trigger vec_enc()(x1).add(r1), vec_enc()(x2).add(r2)]
        names_okf()(x1) && names_okf()(x2) && vec_enc()(x1).add(r1) == vec_enc()(x2).add(r2) implies x1 == x2
        && r1 == r2 by {
        lemma_vec_prefix(x1, x2, r1, r2);
    }
}

proof fn lemma_entry_prefix_free()
    ensures
        prefix_free(entry_enc(), entry_okf()),
{
    assert forall|x1: (Name, u32), x2: (Name, u32), r1: Seq<u8>, r2: Seq<u8>|
        #![trigger entry_enc()(x1).add(r1), entry_enc()(x2).add(r2)]
        entry_okf()(x1) && entry_okf()(x2) && entry_enc()(x1).add(r1) == entry_enc()(x2).add(r2) implies x1
        == x2 && r1 == r2 by {
        let q1 = u64_le(x1.1 as u64) + r1;
        let q2 = u64_le(x2.1 as u64) + r2;
        assert(entry_enc()(x1).add(r1) =~= borsh_str(x1.0) + q1);
        assert(entry_enc()(x2).add(r2) =~= borsh_str(x2.0) + q2);
        lemma_borsh_str_prefix(x1.0, q1, x2.0, q2);
        lemma_u64_prefix(x1.1 as u64, x2.1 as u64, r1, r2);
    }
}

proof fn lemma_row_prefix(x1: CountRow, x2: CountRow, r1: Seq<u8>, r2: Seq<u8>)
    requires
        row_ok(x1),
        row_ok(x2),
        row_bytes(x1) + r1 == row_bytes(x2) + r2,
    ensures
        x1 == x2,
        r1 == r2,
{
    let b1 = row_body(x1) + r1;
    let b2 = row_body(x2) + r2;
    assert(row_bytes(x1) + r1 =~= u32_le(len32(x1.len())) + b1);
    assert(row_bytes(x2) + r2 =~= u32_le(len32(x2.len())) + b2);
    lemma_u32_prefix(x1.len(), x2.len(), b1, b2);
    lemma_row_body_concat(x1);
    lemma_row_body_concat(x2);
    lemma_entry_prefix_free();
    assert forall|i: int| 0 <= i < x1.len() implies entry_okf()(#[trigger] x1[i]) by {
        assert(name_ok(x1[i].0));
    }
    assert forall|i: int| 0 <= i < x2.len() implies entry_okf()(#[trigger] x2[i]) by {
        assert(name_ok(x2[i].0));
    }
    lemma_concat_prefix(x1, x2, entry_enc(), entry_okf(), r1, r2);
}

proof fn lemma_row_prefix_free()
    ensures
        prefix_free(row_enc(), row_okf()),
{
    assert forall|x1: CountRow, x2: CountRow, r1: Seq<u8>, r2: Seq<u8>|
        #![trigger row_enc()(x1).add(r1), row_enc()(x2).add(r2)]
        row_okf()(x1) && row_okf()(x2) && row_enc()(x1).add(r1) == row_enc()(x2).add(r2) implies x1 == x2
        && r1 == r2 by {
        lemma_row_prefix(x1, x2, r1, r2);
    }
}

proof fn lemma_rows_prefix(x1: Seq<CountRow>, x2: Seq<CountRow>, r1: Seq<u8>, r2: Seq<u8>)
    requires
        rows_ok(x1),
        rows_ok(x2),
        rows_bytes(x1) + r1 == rows_bytes(x2) + r2,
    ensures
        x1 == x2,
        r1 == r2,
{
    let b1 = rows_body(x1) + r1;
    let b2 = rows_body(x2) + r2;
    assert(rows_bytes(x1) + r1 =~= u32_le(len32(x1.len())) + b1);
    assert(rows_bytes(x2) + r2 =~= u32_le(len32(x2.len())) + b2);
    lemma_u32_prefix(x1.len(), x2.len(), b1, b2);
    lemma_rows_body_concat(x1);
    lemma_rows_body_concat(x2);
    lemma_row_prefix_free();
    assert forall|i: int| 0 <= i < x1.len() implies row_okf()(#[trigger] x1[i]) by {
        assert(row_ok(x1[i]));
    }
    assert forall|i: int| 0 <= i < x2.len() implies row_okf()(#[trigger] x2[i]) by {
        assert(row_ok(x2[i]));
    }
    lemma_concat_prefix(x1, x2, row_enc(), row_okf(), r1, r2);
}

proof fn lemma_elims_prefix(x1: Seq<Seq<Name>>, x2: Seq<Seq<Name>>, r1: Seq<u8>, r2: Seq<u8>)
    requires
        elims_ok(x1),
        elims_ok(x2),
        elims_bytes(x1) + r1 == elims_bytes(x2) + r2,
    ensures
        x1 == x2,
        r1 == r2,
{
    let b1 = elims_body(x1) + r1;
    let b2 = elims_body(x2) + r2;
    assert(elims_bytes(x1) + r1 =~= u32_le(len32(x1.len())) + b1);
    assert(elims_bytes(x2) + r2 =~= u32_le(len32(x2.len())) + b2);
    lemma_u32_prefix(x1.len(), x2.len(), b1, b2);
    lemma_elims_body_concat(x1);
    lemma_elims_body_concat(x2);
    lemma_vec_prefix_free();
    assert forall|i: int| 0 <= i < x1.len() implies names_okf()(#[trigger] x1[i]) by {
        assert(names_ok(x1[i]));
    }
    assert forall|i: int| 0 <= i < x2.len() implies names_okf()(#[trigger] x2[i]) by {
        assert(names_ok(x2[i]));
    }
    lemma_concat_prefix(x1, x2, vec_enc(), names_okf(), r1, r2);
}

/// Concatenation regrouped to the right, for seven parts.
proof fn lemma_assoc7(
    s1: Seq<u8>,
    s2: Seq<u8>,
    s3: Seq<u8>,
    s4: Seq<u8>,
    s5: Seq<u8>,
    s6: Seq<u8>,
    s7: Seq<u8>,
)
    ensures
        s1 + s2 + s3 + s4 + s5 + s6 + s7 == s1 + (s2 + (s3 + (s4 + (s5 + (s6 + s7))))),
{
    assert(s1 + s2 + s3 + s4 + s5 + s6 + s7 =~= s1 + (s2 + (s3 + (s4 + (s5 + (s6 + s7))))));
}

/// Concatenation regrouped to the right, for six parts.
proof fn lemma_assoc6(s1: Seq<u8>, s2: Seq<u8>, s3: Seq<u8>, s4: Seq<u8>, s5: Seq<u8>, s6: Seq<u8>)
    ensures
        s1 + s2 + s3 + s4 + s5 + s6 == s1 + (s2 + (s3 + (s4 + (s5 + s6)))),
{
    assert(s1 + s2 + s3 + s4 + s5 + s6 =~= s1 + (s2 + (s3 + (s4 + (s5 + s6)))));
}

/// Two parts of the same length followed by anything split the same way.
proof fn lemma_fixed_prefix(x1: Seq<u8>, x2: Seq<u8>, r1: Seq<u8>, r2: Seq<u8>)
    requires
        x1.len() == x2.len(),
        x1 + r1 == x2 + r2,
    ensures
        x1 == x2,
        r1 == r2,
{
    let k = x1.len() as int;
    assert((x1 + r1).subrange(0, k) =~= x1);
    assert((x2 + r2).subrange(0, k) =~= x2);
    assert((x1 + r1).subrange(k, (x1 + r1).len() as int) =~= r1);
    assert((x2 + r2).subrange(k, (x2 + r2).len() as int) =~= r2);
}

proof fn lemma_tally_body_injective(t1: TallyView, t2: TallyView)
    requires
        tally_ok(t1),
        tally_ok(t2),
        tally_body(t1) == tally_body(t2),
    ensures
        t1 == t2,
{
    let e = Seq::<u8>::empty();
    let g1 = vec_addr(t1.non_voters);
    let g2 = vec_addr(t2.non_voters);
    let f1 = vec_addr(t1.dropped_voters) + g1;
    let f2 = vec_addr(t2.dropped_voters) + g2;
    let d1 = u64_le(t1.ballots_dropped as u64) + f1;
    let d2 = u64_le(t2.ballots_dropped as u64) + f2;
    let c1 = u64_le(t1.ballots_tallied as u64) + d1;
    let c2 = u64_le(t2.ballots_tallied as u64) + d2;
    let b1 = elims_bytes(t1.eliminated_by_round) + c1;
    let b2 = elims_bytes(t2.eliminated_by_round) + c2;
    let a1 = rows_bytes(t1.per_round_counts) + b1;
    let a2 = rows_bytes(t2.per_round_counts) + b2;
    lemma_assoc7(
        vec_addr(t1.winners),
        rows_bytes(t1.per_round_counts),
        elims_bytes(t1.eliminated_by_round),
        u64_le(t1.ballots_tallied as u64),
        u64_le(t1.ballots_dropped as u64),
        vec_addr(t1.dropped_voters),
        g1,
    );
    lemma_assoc7(
        vec_addr(t2.winners),
        rows_bytes(t2.per_round_counts),
        elims_bytes(t2.eliminated_by_round),
        u64_le(t2.ballots_tallied as u64),
        u64_le(t2.ballots_dropped as u64),
        vec_addr(t2.dropped_voters),
        g2,
    );
    lemma_vec_prefix(t1.winners, t2.winners, a1, a2);
    lemma_rows_prefix(t1.per_round_counts, t2.per_round_counts, b1, b2);
    lemma_elims_prefix(t1.eliminated_by_round, t2.eliminated_by_round, c1, c2);
    lemma_u64_prefix(t1.ballots_tallied as u64, t2.ballots_tallied as u64, d1, d2);
    lemma_u64_prefix(t1.ballots_dropped as u64, t2.ballots_dropped as u64, f1, f2);
    lemma_vec_prefix(t1.dropped_voters, t2.dropped_voters, g1, g2);
    assert(g1 + e =~= g1);
    assert(g2 + e =~= g2);
    lemma_vec_prefix(t1.non_voters, t2.non_voters, e, e);
}

// ---------------------------------------------------------------------------
// The law
// ---------------------------------------------------------------------------

/// The canonical serialization is injective: two equal serializations have
/// the same contract address, chain id, election id, ballots hash, names
/// hash and tally (every string and list within the `u32` lengths of its
/// prefix, the two hashes 32 bytes each).
pub proof fn law_canonical_injective(
    a1: Seq<char>,
    c1: Seq<char>,
    i1: u64,
    b1: Seq<u8>,
    n1: Seq<u8>,
    t1: TallyView,
    a2: Seq<char>,
    c2: Seq<char>,
    i2: u64,
    b2: Seq<u8>,
    n2: Seq<u8>,
    t2: TallyView,
)
    requires
        name_ok(a1),
        name_ok(a2),
        name_ok(c1),
        name_ok(c2),
        b1.len() == 32,
        b2.len() == 32,
        n1.len() == 32,
        n2.len() == 32,
        tally_ok(t1),
        tally_ok(t2),
        canonical_bytes(a1, c1, i1, b1, n1, t1) == canonical_bytes(a2, c2, i2, b2, n2, t2),
    ensures
        a1 == a2,
        c1 == c2,
        i1 == i2,
        b1 == b2,
        n1 == n2,
        t1 == t2,
{
    let h1 = n1 + tally_body(t1);
    let h2 = n2 + tally_body(t2);
    let g1 = b1 + h1;
    let g2 = b2 + h2;
    let q1 = u64_le(i1) + g1;
    let q2 = u64_le(i2) + g2;
    let r1 = borsh_str(c1) + q1;
    let r2 = borsh_str(c2) + q2;
    lemma_assoc6(borsh_str(a1), borsh_str(c1), u64_le(i1), b1, n1, tally_body(t1));
    lemma_assoc6(borsh_str(a2), borsh_str(c2), u64_le(i2), b2, n2, tally_body(t2));
    lemma_borsh_str_prefix(a1, r1, a2, r2);
    lemma_borsh_str_prefix(c1, q1, c2, q2);
    lemma_u64_prefix(i1, i2, g1, g2);
    lemma_fixed_prefix(b1, b2, h1, h2);
    lemma_fixed_prefix(n1, n2, tally_body(t1), tally_body(t2));
    lemma_tally_body_injective(t1, t2);
}

} // verus!
