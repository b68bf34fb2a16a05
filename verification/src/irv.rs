//! The instant-runoff (IRV) tally core: full preferential ballots, batch
//! elimination of every candidate tied for the lowest first-preference
//! count, co-winners on a terminal tie, and majority termination at
//! `count > total / 2`.
use vstd::prelude::*;
use crate::types::{copy_names, Ballot, CountRow, Entries, IRVResult, IRVView, Name, RoundCount};

verus! {

// ---------------------------------------------------------------------------
// Mathematical model
// ---------------------------------------------------------------------------

/// The least index `j >= from` with `hay[j] == x`, if there is one.
pub open spec fn find_from(hay: Seq<Name>, x: Name, from: int) -> Option<int>
    decreases hay.len() - from,
{
    if from < 0 || from >= hay.len() {
        None
    } else if hay[from] == x {
        Some(from)
    } else {
        find_from(hay, x, from + 1)
    }
}

/// The least index of `x` in `hay`, if `x` occurs in it.
pub open spec fn position(hay: Seq<Name>, x: Name) -> Option<int> {
    find_from(hay, x, 0)
}

/// Scanning `ranking` from index `i`, the index into `remaining` of the first
/// ranked candidate that is still in `remaining`.
pub open spec fn first_active_from(ranking: Seq<Name>, remaining: Seq<Name>, i: int) -> Option<int>
    decreases ranking.len() - i,
{
    if i < 0 || i >= ranking.len() {
        None
    } else {
        match position(remaining, ranking[i]) {
            Some(j) => Some(j),
            None => first_active_from(ranking, remaining, i + 1),
        }
    }
}

/// The index into `remaining` of the ballot's highest-ranked candidate that
/// is still in the race, if any.
pub open spec fn first_active(ranking: Seq<Name>, remaining: Seq<Name>) -> Option<int> {
    first_active_from(ranking, remaining, 0)
}

/// Among the first `n` ballots, how many go to `remaining[t]` as their
/// first active choice.
pub open spec fn votes_before(entries: Entries, remaining: Seq<Name>, t: int, n: int) -> nat
    decreases n,
{
    if n <= 0 {
        0
    } else {
        votes_before(entries, remaining, t, n - 1) + if first_active(entries[n - 1].1, remaining)
            == Some(t) {
            1nat
        } else {
            0nat
        }
    }
}

/// First-preference votes of `remaining[t]`.
pub open spec fn votes(entries: Entries, remaining: Seq<Name>, t: int) -> nat {
    votes_before(entries, remaining, t, entries.len() as int)
}

/// One round's counts over `remaining`, in `remaining` order.
pub open spec fn tally(entries: Entries, remaining: Seq<Name>) -> CountRow {
    Seq::new(remaining.len(), |i: int| (remaining[i], votes(entries, remaining, i) as u32))
}

/// The sum of the counts in a row.
pub open spec fn sum_counts(rc: CountRow) -> nat
    decreases rc.len(),
{
    if rc.len() == 0 {
        0
    } else {
        sum_counts(rc.drop_last()) + rc.last().1 as nat
    }
}

/// The smallest count in a row (0 for an empty row).
pub open spec fn min_count_of(rc: CountRow) -> u32
    decreases rc.len(),
{
    if rc.len() == 0 {
        0
    } else if rc.len() == 1 {
        rc[0].1
    } else {
        let m = min_count_of(rc.drop_last());
        if rc.last().1 < m {
            rc.last().1
        } else {
            m
        }
    }
}

/// The least index `i >= from` whose count exceeds `threshold`.
pub open spec fn first_over_from(rc: CountRow, threshold: nat, from: int) -> Option<int>
    decreases rc.len() - from,
{
    if from < 0 || from >= rc.len() {
        None
    } else if rc[from].1 > threshold {
        Some(from)
    } else {
        first_over_from(rc, threshold, from + 1)
    }
}

/// The candidates of a row whose count is exactly `m`, in row order.
pub open spec fn with_count(rc: CountRow, m: u32) -> Seq<Name> {
    rc.filter(count_is(m)).map_values(candidate_of())
}

/// The row entries whose count is `m`.
pub open spec fn count_is(m: u32) -> spec_fn((Seq<char>, u32)) -> bool {
    |e: (Seq<char>, u32)| e.1 == m
}

/// The candidate of a row entry.
pub open spec fn candidate_of() -> spec_fn((Seq<char>, u32)) -> Seq<char> {
    |e: (Seq<char>, u32)| e.0
}

/// Names that do not occur in `out`.
pub open spec fn not_in(out: Seq<Name>) -> spec_fn(Name) -> bool {
    |x: Name| !out.contains(x)
}

/// `remaining` without any element of `out`, in `remaining` order.
pub open spec fn without(remaining: Seq<Name>, out: Seq<Name>) -> Seq<Name> {
    remaining.filter(not_in(out))
}

/// The all-zero row over `candidates`.
pub open spec fn zero_round(candidates: Seq<Name>) -> CountRow {
    candidates.map_values(|c: Name| (c, 0u32))
}

/// The rounds run from a given `remaining` set: its winners, the counts of
/// each round, and the candidates eliminated after each non-final round.
pub struct IrvRun {
    pub winners: Seq<Name>,
    pub rounds: Seq<CountRow>,
    pub eliminated: Seq<Seq<Name>>,
}

/// IRV from the state where `remaining` candidates are still in the race,
/// with at most `fuel` more rounds.
pub open spec fn irv_from(entries: Entries, candidates: Seq<Name>, remaining: Seq<Name>, fuel: nat) -> IrvRun
    decreases fuel,
{
    if fuel == 0 {
        IrvRun { winners: remaining, rounds: seq![], eliminated: seq![] }
    } else {
        let rc = tally(entries, remaining);
        if remaining.len() == 0 {
            IrvRun { winners: candidates, rounds: seq![rc], eliminated: seq![] }
        } else if remaining.len() == 1 {
            IrvRun { winners: remaining, rounds: seq![rc], eliminated: seq![] }
        } else if sum_counts(rc) == 0 {
            IrvRun { winners: candidates, rounds: seq![zero_round(candidates)], eliminated: seq![] }
        } else {
            match first_over_from(rc, sum_counts(rc) / 2, 0) {
                Some(i) => IrvRun { winners: seq![rc[i].0], rounds: seq![rc], eliminated: seq![] },
                None => {
                    let losers = with_count(rc, min_count_of(rc));
                    if losers.len() == remaining.len() {
                        IrvRun { winners: remaining, rounds: seq![rc], eliminated: seq![] }
                    } else {
                        let rest = irv_from(
                            entries,
                            candidates,
                            without(remaining, losers),
                            (fuel - 1) as nat,
                        );
                        IrvRun {
                            winners: rest.winners,
                            rounds: seq![rc] + rest.rounds,
                            eliminated: seq![losers] + rest.eliminated,
                        }
                    }
                },
            }
        }
    }
}

/// The IRV result for `entries` (the valid ballots) over `candidates`.
pub open spec fn irv(entries: Entries, candidates: Seq<Name>) -> IRVView {
    if candidates.len() == 0 {
        IRVView {
            winners: seq![],
            per_round_counts: seq![],
            eliminated_by_round: seq![],
            ballots_tallied: entries.len() as u32,
        }
    } else {
        let run = irv_from(entries, candidates, candidates, (candidates.len() + 1) as nat);
        IRVView {
            winners: run.winners,
            per_round_counts: run.rounds,
            eliminated_by_round: run.eliminated,
            ballots_tallied: entries.len() as u32,
        }
    }
}

// ---------------------------------------------------------------------------
// Executable helpers
// ---------------------------------------------------------------------------

/// True iff `a` appears in `xs`.
fn addr_in(xs: &Vec<String>, a: &String) -> (r: bool)
    ensures
        r == xs.deep_view().contains(a@),
{
    let n = xs.len();
    let mut i: usize = 0;
    while i < n
        invariant
            n == xs.len(),
            i <= n,
            forall|k: int| 0 <= k < i ==> xs.deep_view()[k] != a@,
        decreases n - i,
    {
        if xs[i] == *a {
            assert(xs.deep_view()[i as int] == a@);
            return true;
        }
        i += 1;
    }
    false
}


/// `o` with its index widened to `int`.
pub open spec fn opt_int(o: Option<usize>) -> Option<int> {
    match o {
        Some(j) => Some(j as int),
        None => None,
    }
}

/// Linear scan for `needle` in `haystack`: its least index, if any.
fn position_of(needle: &String, haystack: &Vec<String>) -> (r: Option<usize>)
    ensures
        opt_int(r) == position(haystack.deep_view(), needle@),
{
    let n = haystack.len();
    let mut j: usize = 0;
    while j < n
        invariant
            n == haystack.len(),
            j <= n,
            position(haystack.deep_view(), needle@) == find_from(haystack.deep_view(), needle@, j as int),
        decreases n - j,
    {
        if haystack[j] == *needle {
            return Some(j);
        }
        j += 1;
    }
    None
}

/// Index into `remaining` of the first candidate the ballot ranks that is
/// still in `remaining`; `None` if the ballot exhausts first.
fn first_active_index(ranking: &Vec<String>, remaining: &Vec<String>) -> (r: Option<usize>)
    ensures
        opt_int(r) == first_active(ranking.deep_view(), remaining.deep_view()),
{
    let r_len = ranking.len();
    let mut i: usize = 0;
    while i < r_len
        invariant
            r_len == ranking.len(),
            i <= r_len,
            first_active(ranking.deep_view(), remaining.deep_view()) == first_active_from(
                ranking.deep_view(),
                remaining.deep_view(),
                i as int,
            ),
        decreases r_len - i,
    {
        let idx_opt = position_of(&ranking[i], remaining);
        if idx_opt.is_some() {
            return idx_opt;
        }
        i += 1;
    }
    None
}

/// How many ballots in `valid` go to `remaining[target_idx]` as their first
/// active choice.
fn count_at_index(valid: &Vec<(String, Ballot)>, remaining: &Vec<String>, target_idx: usize) -> (r: usize)
    ensures
        r == votes(valid.deep_view(), remaining.deep_view(), target_idx as int),
        r <= valid.len(),
{
    let n = valid.len();
    let mut count: usize = 0;
    let mut b: usize = 0;
    while b < n
        invariant
            n == valid.len(),
            b <= n,
            count <= b,
            count == votes_before(valid.deep_view(), remaining.deep_view(), target_idx as int, b as int),
        decreases n - b,
    {
        let ranking: &Vec<String> = &valid[b].1.ranking;
        proof {
            assert(valid.deep_view()[b as int].1 == ranking.deep_view());
        }
        let idx_opt = first_active_index(ranking, remaining);
        if idx_opt.is_some() && idx_opt.unwrap() == target_idx {
            count = count + 1;
        }
        b += 1;
    }
    count
}

/// First-preference counts over `remaining`, in `remaining` order.
fn tally_round(valid: &Vec<(String, Ballot)>, remaining: &Vec<String>) -> (out: Vec<RoundCount>)
    ensures
        out.deep_view() == tally(valid.deep_view(), remaining.deep_view()),
{
    let rem_len = remaining.len();
    let mut out: Vec<RoundCount> = Vec::with_capacity(rem_len);
    let mut i: usize = 0;
    while i < rem_len
        invariant
            rem_len == remaining.len(),
            i <= rem_len,
            out.deep_view() =~= tally(valid.deep_view(), remaining.deep_view()).take(i as int),
        decreases rem_len - i,
    {
        let c = count_at_index(valid, remaining, i);
        let rc = RoundCount { candidate: remaining[i].clone(), count: #[verifier::truncate] (c as u32) };
        proof {
            assert(rc.deep_view() == tally(valid.deep_view(), remaining.deep_view())[i as int]);
        }
        let ghost before = out.deep_view();
        out.push(rc);
        proof {
            assert(out.deep_view() =~= before.push(rc.deep_view()));
            assert(out.deep_view() =~= tally(valid.deep_view(), remaining.deep_view()).take(i as int + 1));
        }
        i += 1;
    }
    out
}

/// Minimum count of a row; 0 for an empty row.
fn min_count(rc: &Vec<RoundCount>) -> (r: u32)
    ensures
        r == min_count_of(rc.deep_view()),
{
    let n = rc.len();
    if n == 0 {
        return 0u32;
    }
    let mut m: u32 = rc[0].count;
    let mut i: usize = 1;
    proof {
        assert(rc.deep_view().take(1) =~= seq![rc.deep_view()[0]]);
    }
    while i < n
        invariant
            n == rc.len(),
            1 <= i <= n,
            m == min_count_of(rc.deep_view().take(i as int)),
        decreases n - i,
    {
        proof {
            let t = rc.deep_view().take(i as int + 1);
            assert(t.drop_last() =~= rc.deep_view().take(i as int));
            assert(t.last() == rc.deep_view()[i as int]);
        }
        if rc[i].count < m {
            m = rc[i].count;
        }
        i += 1;
    }
    proof {
        assert(rc.deep_view().take(n as int) =~= rc.deep_view());
    }
    m
}

/// The counts of a prefix sum to no more than the counts of the whole row.
pub proof fn lemma_sum_prefix_le(rc: CountRow, i: int)
    requires
        0 <= i <= rc.len(),
    ensures
        sum_counts(rc.take(i)) <= sum_counts(rc),
    decreases rc.len(),
{
    if i < rc.len() {
        lemma_sum_prefix_le(rc.drop_last(), i);
        assert(rc.drop_last().take(i) =~= rc.take(i));
    } else {
        assert(rc.take(i) =~= rc);
    }
}

/// Sum of the counts in a row.
pub fn total_count(rc: &Vec<RoundCount>) -> (r: u32)
    requires
        sum_counts(rc.deep_view()) <= u32::MAX,
    ensures
        r == sum_counts(rc.deep_view()),
{
    let n = rc.len();
    let mut s: u32 = 0;
    let mut i: usize = 0;
    while i < n
        invariant
            n == rc.len(),
            i <= n,
            sum_counts(rc.deep_view()) <= u32::MAX,
            s == sum_counts(rc.deep_view().take(i as int)),
        decreases n - i,
    {
        proof {
            let t = rc.deep_view().take(i as int + 1);
            assert(t.drop_last() =~= rc.deep_view().take(i as int));
            lemma_sum_prefix_le(rc.deep_view(), i as int + 1);
        }
        s = s + rc[i].count;
        i += 1;
    }
    proof {
        assert(rc.deep_view().take(n as int) =~= rc.deep_view());
    }
    s
}

/// All candidates whose count equals `m`, in row order.
fn candidates_with_count(rc: &Vec<RoundCount>, m: u32) -> (out: Vec<String>)
    ensures
        out.deep_view() == with_count(rc.deep_view(), m),
{
    let n = rc.len();
    let mut out: Vec<String> = Vec::new();
    let mut i: usize = 0;
    proof {
        reveal_with_fuel(Seq::filter, 1);
        assert(rc.deep_view().take(0) =~= Seq::<(Seq<char>, u32)>::empty());
        assert(with_count(rc.deep_view().take(0), m) =~= Seq::<Name>::empty());
    }
    while i < n
        invariant
            n == rc.len(),
            i <= n,
            out.deep_view() =~= with_count(rc.deep_view().take(i as int), m),
        decreases n - i,
    {
        let ghost pred = count_is(m);
        proof {
            reveal_with_fuel(Seq::filter, 1);
            let t = rc.deep_view().take(i as int + 1);
            assert(t.drop_last() =~= rc.deep_view().take(i as int));
            assert(t.last() == rc.deep_view()[i as int]);
        }
        let ghost before = out.deep_view();
        if rc[i].count == m {
            let c = rc[i].candidate.clone();
            out.push(c);
            proof {
                assert(out.deep_view() =~= before.push(rc.deep_view()[i as int].0));
            }
        }
        proof {
            let t = rc.deep_view().take(i as int + 1);
            let f = t.drop_last().filter(pred);
            if pred(t.last()) {
                assert(t.filter(pred) == f.push(t.last()));
                assert(t.filter(pred).map_values(candidate_of()) =~= f.map_values(candidate_of()).push(t.last().0));
            } else {
                assert(t.filter(pred) == f);
            }
        }
        i += 1;
    }
    proof {
        assert(rc.deep_view().take(n as int) =~= rc.deep_view());
    }
    out
}

/// First index whose count strictly exceeds `threshold`, if any.
fn first_majority_index(rc: &Vec<RoundCount>, threshold: u32) -> (r: Option<usize>)
    ensures
        opt_int(r) == first_over_from(rc.deep_view(), threshold as nat, 0),
{
    let n = rc.len();
    let mut i: usize = 0;
    while i < n
        invariant
            n == rc.len(),
            i <= n,
            first_over_from(rc.deep_view(), threshold as nat, 0) == first_over_from(rc.deep_view(), threshold as nat, i as int),
        decreases n - i,
    {
        if rc[i].count > threshold {
            return Some(i);
        }
        i += 1;
    }
    None
}

/// `remaining` with the elements of `to_remove` filtered out, in order.
fn remove_from(remaining: &Vec<String>, to_remove: &Vec<String>) -> (out: Vec<String>)
    ensures
        out.deep_view() == without(remaining.deep_view(), to_remove.deep_view()),
{
    let n = remaining.len();
    let mut out: Vec<String> = Vec::new();
    let mut i: usize = 0;
    let ghost pred = not_in(to_remove.deep_view());
    proof {
        reveal_with_fuel(Seq::filter, 1);
        assert(remaining.deep_view().take(0) =~= Seq::<Name>::empty());
    }
    while i < n
        invariant
            n == remaining.len(),
            i <= n,
            pred == not_in(to_remove.deep_view()),
            out.deep_view() =~= remaining.deep_view().take(i as int).filter(pred),
        decreases n - i,
    {
        proof {
            reveal_with_fuel(Seq::filter, 1);
            let t = remaining.deep_view().take(i as int + 1);
            assert(t.drop_last() =~= remaining.deep_view().take(i as int));
            assert(t.last() == remaining.deep_view()[i as int]);
        }
        if !addr_in(to_remove, &remaining[i]) {
            out.push(remaining[i].clone());
            proof {
                assert(out.deep_view() =~= remaining.deep_view().take(i as int).filter(pred).push(remaining.deep_view()[i as int]));
            }
        }
        i += 1;
    }
    proof {
        assert(remaining.deep_view().take(n as int) =~= remaining.deep_view());
    }
    out
}


// ---------------------------------------------------------------------------
// Counting lemmas
// ---------------------------------------------------------------------------

/// A found index is in range and holds the sought name.
pub proof fn lemma_find_from_range(hay: Seq<Name>, x: Name, from: int)
    ensures
        find_from(hay, x, from) matches Some(j) ==> from <= j < hay.len() && hay[j] == x && 0 <= j,
    decreases hay.len() - from,
{
    if 0 <= from < hay.len() && hay[from] != x {
        lemma_find_from_range(hay, x, from + 1);
    }
}

/// A ballot's first active choice is an index into `remaining`.
pub proof fn lemma_first_active_from_range(ranking: Seq<Name>, remaining: Seq<Name>, i: int)
    ensures
        first_active_from(ranking, remaining, i) matches Some(j) ==> 0 <= j < remaining.len(),
    decreases ranking.len() - i,
{
    if 0 <= i < ranking.len() {
        lemma_find_from_range(remaining, ranking[i], 0);
        lemma_first_active_from_range(ranking, remaining, i + 1);
    }
}

/// A found index is in range and its count exceeds the threshold.
pub proof fn lemma_first_over_range(rc: CountRow, threshold: nat, from: int)
    ensures
        first_over_from(rc, threshold, from) matches Some(j) ==> from <= j < rc.len() && 0 <= j && rc[j].1 > threshold,
    decreases rc.len() - from,
{
    if 0 <= from < rc.len() && rc[from].1 <= threshold {
        lemma_first_over_range(rc, threshold, from + 1);
    }
}

/// Among the first `n` ballots, how many have some first active choice.
pub open spec fn active_before(entries: Entries, remaining: Seq<Name>, n: int) -> nat
    decreases n,
{
    if n <= 0 {
        0
    } else {
        active_before(entries, remaining, n - 1) + if first_active(entries[n - 1].1, remaining) is Some {
            1nat
        } else {
            0nat
        }
    }
}

/// `sum_{t < l} votes_before(entries, remaining, t, n)`.
pub open spec fn sum_votes(entries: Entries, remaining: Seq<Name>, n: int, l: int) -> nat
    decreases l,
{
    if l <= 0 {
        0
    } else {
        sum_votes(entries, remaining, n, l - 1) + votes_before(entries, remaining, l - 1, n)
    }
}

proof fn lemma_votes_before_le(entries: Entries, remaining: Seq<Name>, t: int, n: int)
    ensures
        votes_before(entries, remaining, t, n) <= if n < 0 { 0 } else { n },
    decreases n,
{
    if n > 0 {
        lemma_votes_before_le(entries, remaining, t, n - 1);
    }
}

proof fn lemma_active_before_le(entries: Entries, remaining: Seq<Name>, n: int)
    ensures
        active_before(entries, remaining, n) <= if n < 0 { 0 } else { n },
    decreases n,
{
    if n > 0 {
        lemma_active_before_le(entries, remaining, n - 1);
    }
}

proof fn lemma_sum_votes_step(entries: Entries, remaining: Seq<Name>, n: int, l: int)
    requires
        0 <= n,
    ensures
        sum_votes(entries, remaining, n + 1, l) == sum_votes(entries, remaining, n, l) + if first_active(
            entries[n].1,
            remaining,
        ) matches Some(j) && j < l {
            1nat
        } else {
            0nat
        },
    decreases l,
{
    lemma_first_active_from_range(entries[n].1, remaining, 0);
    if l > 0 {
        lemma_sum_votes_step(entries, remaining, n, l - 1);
    }
}

/// Every ballot with a first active choice adds exactly one vote to the row.
pub proof fn lemma_sum_votes_active(entries: Entries, remaining: Seq<Name>, n: int)
    requires
        0 <= n <= entries.len(),
    ensures
        sum_votes(entries, remaining, n, remaining.len() as int) == active_before(entries, remaining, n),
    decreases n,
{
    if n > 0 {
        lemma_sum_votes_active(entries, remaining, n - 1);
        lemma_sum_votes_step(entries, remaining, n - 1, remaining.len() as int);
        lemma_first_active_from_range(entries[n - 1].1, remaining, 0);
    } else {
        lemma_sum_votes_zero(entries, remaining, remaining.len() as int);
    }
}

proof fn lemma_sum_votes_zero(entries: Entries, remaining: Seq<Name>, l: int)
    ensures
        sum_votes(entries, remaining, 0, l) == 0,
    decreases l,
{
    if l > 0 {
        lemma_sum_votes_zero(entries, remaining, l - 1);
    }
}

/// The counts of a prefix of a round's row sum to the summed votes.
proof fn lemma_tally_prefix_sum(entries: Entries, remaining: Seq<Name>, l: int)
    requires
        0 <= l <= remaining.len(),
        entries.len() <= u32::MAX,
    ensures
        sum_counts(tally(entries, remaining).take(l)) == sum_votes(entries, remaining, entries.len() as int, l),
    decreases l,
{
    let row = tally(entries, remaining);
    if l > 0 {
        lemma_tally_prefix_sum(entries, remaining, l - 1);
        assert(row.take(l).drop_last() =~= row.take(l - 1));
        lemma_votes_before_le(entries, remaining, l - 1, entries.len() as int);
    } else {
        assert(row.take(0) =~= Seq::<(Seq<char>, u32)>::empty());
    }
}

/// A round's counts sum to the number of ballots that still have an active
/// choice; in particular to no more than the number of ballots.
pub proof fn lemma_tally_sum(entries: Entries, remaining: Seq<Name>)
    requires
        entries.len() <= u32::MAX,
    ensures
        sum_counts(tally(entries, remaining)) == active_before(entries, remaining, entries.len() as int),
        sum_counts(tally(entries, remaining)) <= entries.len(),
{
    let row = tally(entries, remaining);
    lemma_tally_prefix_sum(entries, remaining, remaining.len() as int);
    assert(row.take(remaining.len() as int) =~= row);
    lemma_sum_votes_active(entries, remaining, entries.len() as int);
    lemma_active_before_le(entries, remaining, entries.len() as int);
}

// ---------------------------------------------------------------------------
// The IRV core
// ---------------------------------------------------------------------------

/// `prefix` rounds already run, followed by `run`.
pub open spec fn after(rounds: Seq<CountRow>, eliminated: Seq<Seq<Name>>, run: IrvRun) -> IrvRun {
    IrvRun { winners: run.winners, rounds: rounds + run.rounds, eliminated: eliminated + run.eliminated }
}

/// The all-zero row over `candidates`.
fn zero_counts(candidates: &Vec<String>) -> (out: Vec<RoundCount>)
    ensures
        out.deep_view() == zero_round(candidates.deep_view()),
{
    let n_cands = candidates.len();
    let mut zero_row: Vec<RoundCount> = Vec::with_capacity(n_cands);
    let mut zi: usize = 0;
    while zi < n_cands
        invariant
            n_cands == candidates.len(),
            zi <= n_cands,
            zero_row.deep_view() =~= zero_round(candidates.deep_view()).take(zi as int),
        decreases n_cands - zi,
    {
        let rc = RoundCount { candidate: candidates[zi].clone(), count: 0u32 };
        let ghost before = zero_row.deep_view();
        zero_row.push(rc);
        proof {
            assert(zero_row.deep_view() =~= before.push(rc.deep_view()));
            assert(zero_round(candidates.deep_view()).take(zi as int + 1) =~= before.push(rc.deep_view()));
        }
        zi += 1;
    }
    zero_row
}

/// Stage 2: the IRV core over already decrypted and validated ballots.
///
/// Every round counts first preferences over the candidates still in the
/// race. A round ends the count when one candidate is left, when no ballot
/// has an active choice (all candidates co-win, with a single all-zero
/// round), when some count exceeds half the round's total (that candidate
/// wins), or when all remaining candidates are tied at the minimum (they
/// co-win). Otherwise every candidate tied at the minimum is eliminated.
pub fn irv_spec(valid: &Vec<(String, Ballot)>, candidates: &Vec<String>) -> (r: IRVResult)
    requires
        valid.len() <= u32::MAX,
        candidates.len() < usize::MAX,
    ensures
        r@ == irv(valid.deep_view(), candidates.deep_view()),
{
    let ghost entries = valid.deep_view();
    let ghost cands = candidates.deep_view();
    let ballots_tallied: u32 = valid.len() as u32;
    let mut per_round_counts: Vec<Vec<RoundCount>> = Vec::new();
    let mut eliminated_by_round: Vec<Vec<String>> = Vec::new();
    let mut remaining: Vec<String> = copy_names(candidates);
    if candidates.len() == 0 {
        let r = IRVResult {
            winners: Vec::new(),
            per_round_counts: Vec::new(),
            eliminated_by_round: Vec::new(),
            ballots_tallied,
        };
        proof {
            assert(r@.winners =~= seq![]);
            assert(r@.per_round_counts =~= seq![]);
            assert(r@.eliminated_by_round =~= seq![]);
        }
        return r;
    }
    let max_rounds: usize = candidates.len() + 1;
    let mut round: usize = 0;
    let mut winners: Vec<String> = Vec::new();
    let ghost full = irv_from(entries, cands, cands, (cands.len() + 1) as nat);
    loop
        invariant_except_break
            entries == valid.deep_view(),
            cands == candidates.deep_view(),
            entries.len() <= u32::MAX,
            max_rounds == cands.len() + 1,
            round <= max_rounds,
            full == irv_from(entries, cands, cands, (cands.len() + 1) as nat),
            full == after(
                per_round_counts.deep_view(),
                eliminated_by_round.deep_view(),
                irv_from(entries, cands, remaining.deep_view(), (max_rounds - round) as nat),
            ),
        ensures
            full == irv_from(entries, cands, cands, (cands.len() + 1) as nat),
            winners.deep_view() == full.winners,
            per_round_counts.deep_view() == full.rounds,
            eliminated_by_round.deep_view() == full.eliminated,
        decreases max_rounds - round,
    {
        let ghost rem = remaining.deep_view();
        let ghost fuel = (max_rounds - round) as nat;
        let ghost prc = per_round_counts.deep_view();
        let ghost ebr = eliminated_by_round.deep_view();
        if round >= max_rounds {
            winners = remaining;
            proof {
                assert(prc + seq![] =~= prc);
                assert(ebr + seq![] =~= ebr);
            }
            break;
        }
        let rc: Vec<RoundCount> = tally_round(valid, &remaining);
        let ghost row = rc.deep_view();
        if remaining.len() == 0 {
            per_round_counts.push(rc);
            winners = copy_names(candidates);
            proof {
                assert(per_round_counts.deep_view() =~= prc + seq![row]);
                assert(ebr + seq![] =~= ebr);
            }
            break;
        }
        if remaining.len() == 1 {
            per_round_counts.push(rc);
            winners = remaining;
            proof {
                assert(per_round_counts.deep_view() =~= prc + seq![row]);
                assert(ebr + seq![] =~= ebr);
            }
            break;
        }
        proof {
            lemma_tally_sum(entries, rem);
        }
        let total: u32 = total_count(&rc);
        if total == 0 {
            let zero_row = zero_counts(candidates);
            let ghost zr = zero_row.deep_view();
            per_round_counts.push(zero_row);
            winners = copy_names(candidates);
            proof {
                assert(per_round_counts.deep_view() =~= prc + seq![zr]);
                assert(ebr + seq![] =~= ebr);
            }
            break;
        }
        let threshold: u32 = total / 2u32;
        match first_majority_index(&rc, threshold) {
            Some(idx) => {
                proof {
                    assert(threshold as nat == sum_counts(row) / 2);
                    lemma_first_over_range(row, threshold as nat, 0);
                }
                let w = rc[idx].candidate.clone();
                let mut single_winner: Vec<String> = Vec::with_capacity(1);
                single_winner.push(w);
                per_round_counts.push(rc);
                winners = single_winner;
                proof {
                    assert(winners.deep_view() =~= seq![row[idx as int].0]);
                    assert(per_round_counts.deep_view() =~= prc + seq![row]);
                    assert(ebr + seq![] =~= ebr);
                }
                break;
            },
            None => {
                proof {
                    assert(threshold as nat == sum_counts(row) / 2);
                }
            },
        }
        let m: u32 = min_count(&rc);
        let losers: Vec<String> = candidates_with_count(&rc, m);
        if losers.len() == remaining.len() {
            per_round_counts.push(rc);
            winners = remaining;
            proof {
                assert(per_round_counts.deep_view() =~= prc + seq![row]);
                assert(ebr + seq![] =~= ebr);
            }
            break;
        }
        let next = remove_from(&remaining, &losers);
        let ghost lv = losers.deep_view();
        per_round_counts.push(rc);
        eliminated_by_round.push(losers);
        remaining = next;
        round += 1;
        proof {
            let rest = irv_from(entries, cands, remaining.deep_view(), (fuel - 1) as nat);
            assert(per_round_counts.deep_view() =~= prc.push(row));
            assert(eliminated_by_round.deep_view() =~= ebr.push(lv));
            assert(prc.push(row) + rest.rounds =~= prc + (seq![row] + rest.rounds));
            assert(ebr.push(lv) + rest.eliminated =~= ebr + (seq![lv] + rest.eliminated));
        }
    }
    IRVResult { winners, per_round_counts, eliminated_by_round, ballots_tallied }
}

} // verus!
