//! The storage-key order of ballots: voters by the bytes of their address,
//! lexicographically, as the contract's ballot map orders its keys.
use vstd::prelude::*;
use vstd::utf8::encode_utf8;
use crate::types::Name;

verus! {

/// `a` comes before `b` in byte-wise lexicographic order.
pub open spec fn bytes_lt(a: Seq<u8>, b: Seq<u8>) -> bool
    decreases a.len(),
{
    if a.len() == 0 {
        b.len() > 0
    } else if b.len() == 0 {
        false
    } else if a[0] != b[0] {
        a[0] < b[0]
    } else {
        bytes_lt(a.drop_first(), b.drop_first())
    }
}

/// Address `a` comes before address `b` in key order.
pub open spec fn key_lt(a: Name, b: Name) -> bool {
    bytes_lt(encode_utf8(a), encode_utf8(b))
}

/// Where a voter's ballot goes among `ballots`, from position `i` on: before
/// the first one whose voter does not come before it in key order.
pub open spec fn ballot_slot(ballots: Seq<(Name, Seq<u8>)>, voter: Name, i: int) -> int
    decreases ballots.len() - i,
{
    if i < 0 || i >= ballots.len() {
        ballots.len() as int
    } else if key_lt(ballots[i].0, voter) {
        ballot_slot(ballots, voter, i + 1)
    } else {
        i
    }
}

/// The ballots are in ascending key order.
pub open spec fn keys_sorted(ballots: Seq<(Name, Seq<u8>)>) -> bool {
    forall|i: int, j: int| 0 <= i < j < ballots.len() ==> key_lt(#[trigger] ballots[i].0, #[trigger] ballots[j].0)
}

// ---------------------------------------------------------------------------
// The order
// ---------------------------------------------------------------------------

proof fn lemma_bytes_lt_irreflexive(a: Seq<u8>)
    ensures
        !bytes_lt(a, a),
    decreases a.len(),
{
    if a.len() > 0 {
        lemma_bytes_lt_irreflexive(a.drop_first());
    }
}

proof fn lemma_bytes_lt_transitive(a: Seq<u8>, b: Seq<u8>, c: Seq<u8>)
    requires
        bytes_lt(a, b),
        bytes_lt(b, c),
    ensures
        bytes_lt(a, c),
    decreases a.len(),
{
    if a.len() > 0 && b.len() > 0 && c.len() > 0 && a[0] == b[0] && b[0] == c[0] {
        lemma_bytes_lt_transitive(a.drop_first(), b.drop_first(), c.drop_first());
    }
}

proof fn lemma_bytes_lt_total(a: Seq<u8>, b: Seq<u8>)
    requires
        a != b,
    ensures
        bytes_lt(a, b) || bytes_lt(b, a),
    decreases a.len(),
{
    if a.len() > 0 && b.len() > 0 && a[0] == b[0] {
        if a.drop_first() == b.drop_first() {
            assert(a =~= seq![a[0]] + a.drop_first());
            assert(b =~= seq![b[0]] + b.drop_first());
        }
        lemma_bytes_lt_total(a.drop_first(), b.drop_first());
    } else if a.len() == 0 && b.len() == 0 {
        assert(a =~= b);
    }
}

/// Key order is a strict total order on addresses.
pub proof fn lemma_key_order(a: Name, b: Name, c: Name)
    ensures
        !key_lt(a, a),
        key_lt(a, b) && key_lt(b, c) ==> key_lt(a, c),
        a != b ==> key_lt(a, b) || key_lt(b, a),
{
    lemma_bytes_lt_irreflexive(encode_utf8(a));
    if key_lt(a, b) && key_lt(b, c) {
        lemma_bytes_lt_transitive(encode_utf8(a), encode_utf8(b), encode_utf8(c));
    }
    if a != b {
        vstd::utf8::encode_utf8_decode_utf8(a);
        vstd::utf8::encode_utf8_decode_utf8(b);
        lemma_bytes_lt_total(encode_utf8(a), encode_utf8(b));
    }
}

proof fn lemma_bytes_lt_skip(a: Seq<u8>, b: Seq<u8>, k: int)
    requires
        0 <= k <= a.len(),
        k <= b.len(),
        forall|j: int| 0 <= j < k ==> a[j] == b[j],
    ensures
        bytes_lt(a, b) == bytes_lt(a.skip(k), b.skip(k)),
    decreases k,
{
    if k == 0 {
        assert(a.skip(0) =~= a);
        assert(b.skip(0) =~= b);
    } else {
        lemma_bytes_lt_skip(a.drop_first(), b.drop_first(), k - 1);
        assert(a.drop_first().skip(k - 1) =~= a.skip(k));
        assert(b.drop_first().skip(k - 1) =~= b.skip(k));
    }
}

/// Where the slot is: every ballot before it comes before the voter, and
/// the one at it (if any) does not.
pub proof fn lemma_ballot_slot(ballots: Seq<(Name, Seq<u8>)>, voter: Name, i: int)
    requires
        0 <= i <= ballots.len(),
        forall|j: int| 0 <= j < i ==> key_lt(#[trigger] ballots[j].0, voter),
    ensures
        i <= ballot_slot(ballots, voter, i) <= ballots.len(),
        forall|j: int| 0 <= j < ballot_slot(ballots, voter, i) ==> key_lt(#[trigger] ballots[j].0, voter),
        ballot_slot(ballots, voter, i) < ballots.len() ==> !key_lt(
            ballots[ballot_slot(ballots, voter, i)].0,
            voter,
        ),
    decreases ballots.len() - i,
{
    if i < ballots.len() && key_lt(ballots[i].0, voter) {
        lemma_ballot_slot(ballots, voter, i + 1);
    }
}

// ---------------------------------------------------------------------------
// Computation
// ---------------------------------------------------------------------------

fn bytes_less(a: &[u8], b: &[u8]) -> (r: bool)
    ensures
        r == bytes_lt(a@, b@),
{
    let mut k: usize = 0;
    while k < a.len() && k < b.len()
        invariant
            k <= a@.len(),
            k <= b@.len(),
            forall|j: int| 0 <= j < k ==> a@[j] == b@[j],
        decreases a@.len() - k,
    {
        if a[k] != b[k] {
            proof {
                lemma_bytes_lt_skip(a@, b@, k as int);
                assert(a@.skip(k as int)[0] == a@[k as int]);
                assert(b@.skip(k as int)[0] == b@[k as int]);
            }
            return a[k] < b[k];
        }
        k += 1;
    }
    proof {
        lemma_bytes_lt_skip(a@, b@, k as int);
    }
    k == a.len() && k < b.len()
}

/// Whether voter `a` comes before voter `b` in key order.
pub fn key_less(a: &String, b: &String) -> (r: bool)
    ensures
        r == key_lt(a@, b@),
{
    bytes_less(a.as_str().as_bytes(), b.as_str().as_bytes())
}

/// The position a voter's ballot takes among the stored ones.
pub fn ballot_slot_of(ballots: &Vec<(String, Vec<u8>)>, voter: &String) -> (i: usize)
    ensures
        i == ballot_slot(ballots.deep_view(), voter@, 0),
{
    let ghost dv = ballots.deep_view();
    let n = ballots.len();
    let mut i: usize = 0;
    while i < n
        invariant
            n == ballots@.len(),
            dv == ballots.deep_view(),
            i <= n,
            ballot_slot(dv, voter@, 0) == ballot_slot(dv, voter@, i as int),
        decreases n - i,
    {
        assert(dv[i as int].0 == ballots@[i as int].0@);
        if !key_less(&ballots[i].0, voter) {
            return i;
        }
        i += 1;
    }
    i
}

} // verus!
