//! Subsequences ("in declaration order") and the facts about them that the
//! tally and the contract rely on.
use vstd::prelude::*;

verus! {

/// `sub` is a subsequence of `full`: its elements occur in `full` in the
/// same order (greedy left-to-right matching).
pub open spec fn is_subseq<A>(sub: Seq<A>, full: Seq<A>) -> bool
    decreases full.len(),
{
    if sub.len() == 0 {
        true
    } else if full.len() == 0 {
        false
    } else if sub[0] == full[0] {
        is_subseq(sub.drop_first(), full.drop_first())
    } else {
        is_subseq(sub, full.drop_first())
    }
}

/// Dropping the first element keeps a subsequence a subsequence.
pub proof fn lemma_subseq_drop_first<A>(a: Seq<A>, b: Seq<A>)
    requires
        is_subseq(a, b),
        a.len() > 0,
    ensures
        is_subseq(a.drop_first(), b),
    decreases 2 * b.len() + 1,
{
    if b.len() > 0 {
        assert(b =~= seq![b[0]] + b.drop_first());
        if a[0] == b[0] {
            lemma_subseq_prepend(a.drop_first(), b.drop_first(), b[0]);
        } else {
            lemma_subseq_drop_first(a, b.drop_first());
            lemma_subseq_prepend(a.drop_first(), b.drop_first(), b[0]);
        }
    }
}

/// A subsequence of `b` is a subsequence of `[x] + b`.
pub proof fn lemma_subseq_prepend<A>(a: Seq<A>, b: Seq<A>, x: A)
    requires
        is_subseq(a, b),
    ensures
        is_subseq(a, seq![x] + b),
    decreases 2 * b.len() + 2,
{
    let c = seq![x] + b;
    assert(c.drop_first() =~= b);
    if a.len() > 0 && a[0] == x {
        lemma_subseq_drop_first(a, b);
    }
}

/// Subsequence is transitive.
pub proof fn lemma_subseq_trans<A>(a: Seq<A>, b: Seq<A>, c: Seq<A>)
    requires
        is_subseq(a, b),
        is_subseq(b, c),
    ensures
        is_subseq(a, c),
    decreases c.len(),
{
    if a.len() == 0 {
    } else if b.len() == 0 {
    } else if c.len() == 0 {
    } else if b[0] == c[0] {
        if a[0] == b[0] {
            lemma_subseq_trans(a.drop_first(), b.drop_first(), c.drop_first());
        } else {
            lemma_subseq_trans(a, b.drop_first(), c.drop_first());
        }
    } else {
        lemma_subseq_trans(a, b, c.drop_first());
        if a[0] == c[0] {
            lemma_subseq_drop_first(a, c.drop_first());
        }
    }
}

/// Every sequence is a subsequence of itself.
pub proof fn lemma_subseq_refl<A>(a: Seq<A>)
    ensures
        is_subseq(a, a),
    decreases a.len(),
{
    if a.len() > 0 {
        lemma_subseq_refl(a.drop_first());
    }
}

/// A filtered sequence is a subsequence of the sequence it filters.
pub proof fn lemma_filter_subseq<A>(s: Seq<A>, p: spec_fn(A) -> bool)
    ensures
        is_subseq(s.filter(p), s),
    decreases s.len(),
{
    reveal_with_fuel(Seq::filter, 1);
    if s.len() > 0 {
        let rest = s.drop_first();
        assert(s =~= seq![s[0]] + rest);
        Seq::filter_distributes_over_add(seq![s[0]], rest, p);
        lemma_filter_subseq(rest, p);
        let head = seq![s[0]].filter(p);
        let e = Seq::<A>::empty();
        assert(e.filter(p) =~= e);
        assert(seq![s[0]].drop_last() =~= e);
        assert(seq![s[0]].last() == s[0]);
        if p(s[0]) {
            assert(head =~= seq![s[0]]);
            assert((head + rest.filter(p)).drop_first() =~= rest.filter(p));
        } else {
            assert(head =~= Seq::<A>::empty());
            assert(head + rest.filter(p) =~= rest.filter(p));
            lemma_subseq_prepend(rest.filter(p), rest, s[0]);
        }
    }
}

/// Mapping preserves subsequences.
pub proof fn lemma_subseq_map<A, B>(a: Seq<A>, b: Seq<A>, f: spec_fn(A) -> B)
    requires
        is_subseq(a, b),
    ensures
        is_subseq(a.map_values(f), b.map_values(f)),
    decreases b.len(),
{
    if a.len() > 0 && b.len() > 0 {
        assert(a.map_values(f).drop_first() =~= a.drop_first().map_values(f));
        assert(b.map_values(f).drop_first() =~= b.drop_first().map_values(f));
        if a[0] == b[0] {
            lemma_subseq_map(a.drop_first(), b.drop_first(), f);
        } else {
            lemma_subseq_map(a, b.drop_first(), f);
            if f(a[0]) == f(b[0]) {
                lemma_subseq_drop_first(a.map_values(f), b.drop_first().map_values(f));
            }
        }
    }
}

/// A single element of `s` forms a subsequence of `s`.
pub proof fn lemma_subseq_single<A>(s: Seq<A>, i: int)
    requires
        0 <= i < s.len(),
    ensures
        is_subseq(seq![s[i]], s),
    decreases s.len(),
{
    let one = seq![s[i]];
    assert(one[0] == s[i]);
    assert(one.drop_first() =~= Seq::<A>::empty());
    assert(is_subseq(one.drop_first(), s.drop_first()));
    if i > 0 {
        assert(s.drop_first()[i - 1] == s[i]);
        lemma_subseq_single(s.drop_first(), i - 1);
    }
}

/// Every element of a subsequence occurs in the full sequence.
pub proof fn lemma_subseq_contains<A>(a: Seq<A>, b: Seq<A>, x: A)
    requires
        is_subseq(a, b),
        a.contains(x),
    ensures
        b.contains(x),
    decreases b.len(),
{
    if a.len() > 0 && b.len() > 0 {
        if a[0] == b[0] {
            if a[0] == x {
                assert(b[0] == x);
            } else {
                let k = choose|k: int| 0 <= k < a.len() && a[k] == x;
                assert(a.drop_first()[k - 1] == x);
                lemma_subseq_contains(a.drop_first(), b.drop_first(), x);
                let j = choose|j: int| 0 <= j < b.drop_first().len() && b.drop_first()[j] == x;
                assert(b[j + 1] == x);
            }
        } else {
            lemma_subseq_contains(a, b.drop_first(), x);
            let j = choose|j: int| 0 <= j < b.drop_first().len() && b.drop_first()[j] == x;
            assert(b[j + 1] == x);
        }
    }
}

/// A subsequence of a sequence without duplicates has none either.
pub proof fn lemma_subseq_no_dup<A>(a: Seq<A>, b: Seq<A>)
    requires
        is_subseq(a, b),
        b.no_duplicates(),
    ensures
        a.no_duplicates(),
    decreases b.len(),
{
    if a.len() > 0 && b.len() > 0 {
        let b1 = b.drop_first();
        assert(b1.no_duplicates()) by {
            assert forall|i: int, j: int| 0 <= i < b1.len() && 0 <= j < b1.len() && i != j implies b1[i]
                != b1[j] by {
                assert(b1[i] == b[i + 1] && b1[j] == b[j + 1]);
            }
        }
        if a[0] == b[0] {
            let a1 = a.drop_first();
            lemma_subseq_no_dup(a1, b1);
            if a1.contains(a[0]) {
                lemma_subseq_contains(a1, b1, a[0]);
                let k = choose|k: int| 0 <= k < b1.len() && b1[k] == a[0];
                assert(b[k + 1] == b[0]);
            }
            assert forall|i: int, j: int| 0 <= i < a.len() && 0 <= j < a.len() && i != j implies a[i]
                != a[j] by {
                if i == 0 {
                    assert(a1[j - 1] == a[j]);
                } else if j == 0 {
                    assert(a1[i - 1] == a[i]);
                } else {
                    assert(a1[i - 1] == a[i] && a1[j - 1] == a[j]);
                }
            }
        } else {
            lemma_subseq_no_dup(a, b1);
        }
    }
}

/// A subsequence is no longer than the sequence it is taken from.
pub proof fn lemma_subseq_len<A>(a: Seq<A>, b: Seq<A>)
    requires
        is_subseq(a, b),
    ensures
        a.len() <= b.len(),
    decreases b.len(),
{
    if a.len() > 0 && b.len() > 0 {
        if a[0] == b[0] {
            lemma_subseq_len(a.drop_first(), b.drop_first());
        } else {
            lemma_subseq_len(a, b.drop_first());
        }
    }
}

/// Appending an element to the full sequence keeps a subsequence.
pub proof fn lemma_subseq_push_right<A>(a: Seq<A>, b: Seq<A>, x: A)
    requires
        is_subseq(a, b),
    ensures
        is_subseq(a, b.push(x)),
    decreases b.len(),
{
    if a.len() > 0 && b.len() > 0 {
        assert(b.push(x).drop_first() =~= b.drop_first().push(x));
        if a[0] == b[0] {
            lemma_subseq_push_right(a.drop_first(), b.drop_first(), x);
        } else {
            lemma_subseq_push_right(a, b.drop_first(), x);
        }
    }
}

/// Appending the same element to both keeps a subsequence.
pub proof fn lemma_subseq_push_both<A>(a: Seq<A>, b: Seq<A>, x: A)
    requires
        is_subseq(a, b),
    ensures
        is_subseq(a.push(x), b.push(x)),
    decreases b.len(),
{
    if b.len() == 0 {
        assert(a.push(x) =~= seq![x]);
        assert(b.push(x) =~= seq![x]);
        lemma_subseq_refl(seq![x]);
    } else if a.len() == 0 {
        lemma_subseq_single(b.push(x), b.len() as int);
        assert(a.push(x) =~= seq![b.push(x)[b.len() as int]]);
    } else {
        assert(b.push(x).drop_first() =~= b.drop_first().push(x));
        assert(a.push(x).drop_first() =~= a.drop_first().push(x));
        if a[0] == b[0] {
            lemma_subseq_push_both(a.drop_first(), b.drop_first(), x);
        } else {
            lemma_subseq_push_both(a, b.drop_first(), x);
        }
    }
}

/// Keeping the elements of `b` that are not in `a`, a subsequence of `b`
/// without duplicates, leaves `|b| - |a|` elements.
pub proof fn lemma_filter_out_len<A>(a: Seq<A>, b: Seq<A>, p: spec_fn(A) -> bool)
    requires
        is_subseq(a, b),
        b.no_duplicates(),
        forall|x: A| #[trigger] p(x) == !a.contains(x),
    ensures
        b.filter(p).len() == b.len() - a.len(),
{
    broadcast use vstd::seq_lib::group_filter_ensures;
    broadcast use vstd::seq_lib::seq_to_set_is_finite;
    let f = b.filter(p);
    lemma_filter_subseq(b, p);
    lemma_subseq_no_dup(f, b);
    lemma_subseq_no_dup(a, b);
    let fs = f.to_set();
    let bs = b.to_set();
    let as_ = a.to_set();
    assert forall|x: A| fs.contains(x) <==> bs.difference(as_).contains(x) by {
        if fs.contains(x) {
            let i = choose|i: int| 0 <= i < f.len() && f[i] == x;
            assert(p(f[i]));
            lemma_subseq_contains(f, b, x);
        }
        if bs.difference(as_).contains(x) {
            let i = choose|i: int| 0 <= i < b.len() && b[i] == x;
            assert(p(b[i]));
            assert(f.contains(b[i]));
        }
    }
    assert(fs =~= bs.difference(as_));
    assert forall|x: A| as_.contains(x) implies bs.contains(x) by {
        lemma_subseq_contains(a, b, x);
    }
    assert(bs.intersect(as_) =~= as_);
    vstd::set_lib::lemma_set_difference_len(bs, as_);
    f.unique_seq_to_set();
    b.unique_seq_to_set();
    a.unique_seq_to_set();
}

} // verus!
