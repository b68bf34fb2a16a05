//! What every IRV result satisfies: the round/elimination length relation,
//! the bound on the number of rounds, the shape of winners and eliminated
//! rows, the per-round sums, and that eliminated candidates never come back.
use vstd::prelude::*;
use crate::types::{CountRow, Entries, Name};
use crate::irv::{candidate_of, count_is, first_active, first_active_from, find_from, irv, irv_from, lemma_tally_sum, active_before, min_count_of, not_in, position, sum_counts, tally, with_count, without, zero_round, first_over_from, lemma_first_over_range};
use crate::seqs::{is_subseq, lemma_filter_subseq, lemma_subseq_len, lemma_subseq_no_dup, lemma_subseq_contains, lemma_subseq_map, lemma_subseq_refl, lemma_subseq_single, lemma_subseq_trans};

verus! {

/// The candidates named in a row, in row order.
pub open spec fn row_names(rc: CountRow) -> Seq<Name> {
    rc.map_values(candidate_of())
}

/// Every valid ballot ranks every candidate (full preferential ballots).
pub open spec fn ranks_all(entries: Entries, candidates: Seq<Name>) -> bool {
    forall|b: int, c: int|
        0 <= b < entries.len() && 0 <= c < candidates.len() ==> #[trigger] entries[b].1.contains(
            #[trigger] candidates[c],
        )
}

// ---------------------------------------------------------------------------
// Sequence facts
// ---------------------------------------------------------------------------

proof fn lemma_tally_names(entries: Entries, remaining: Seq<Name>)
    ensures
        row_names(tally(entries, remaining)) =~= remaining,
{
}

proof fn lemma_zero_round_names(candidates: Seq<Name>)
    ensures
        row_names(zero_round(candidates)) =~= candidates,
{
}

proof fn lemma_zero_round_sum(candidates: Seq<Name>)
    ensures
        sum_counts(zero_round(candidates)) == 0,
    decreases candidates.len(),
{
    if candidates.len() > 0 {
        assert(zero_round(candidates).drop_last() =~= zero_round(candidates.drop_last()));
        lemma_zero_round_sum(candidates.drop_last());
    }
}

/// Filtering by a predicate that every element meets changes nothing.
proof fn lemma_filter_all<A>(s: Seq<A>, p: spec_fn(A) -> bool)
    requires
        forall|i: int| 0 <= i < s.len() ==> p(#[trigger] s[i]),
    ensures
        s.filter(p) == s,
    decreases s.len(),
{
    reveal_with_fuel(Seq::filter, 1);
    if s.len() > 0 {
        let d = s.drop_last();
        assert forall|i: int| 0 <= i < d.len() implies p(#[trigger] d[i]) by {
            assert(d[i] == s[i]);
        }
        lemma_filter_all(d, p);
        assert(p(s[s.len() - 1]));
        assert(d.push(s.last()) =~= s);
    } else {
        assert(s =~= Seq::<A>::empty());
    }
}

/// Filtering out at least one element strictly shortens a sequence.
proof fn lemma_filter_strict<A>(s: Seq<A>, p: spec_fn(A) -> bool, k: int)
    requires
        0 <= k < s.len(),
        !p(s[k]),
    ensures
        s.filter(p).len() < s.len(),
    decreases s.len(),
{
    reveal_with_fuel(Seq::filter, 1);
    let d = s.drop_last();
    d.lemma_filter_len(p);
    if k < s.len() - 1 {
        assert(d[k] == s[k]);
        lemma_filter_strict(d, p, k);
    }
}

/// The minimum of a non-empty row is the count of one of its entries.
proof fn lemma_min_attained(rc: CountRow) -> (i: int)
    requires
        rc.len() > 0,
    ensures
        0 <= i < rc.len(),
        rc[i].1 == min_count_of(rc),
    decreases rc.len(),
{
    if rc.len() == 1 {
        0
    } else {
        let j = lemma_min_attained(rc.drop_last());
        if rc.last().1 < min_count_of(rc.drop_last()) {
            rc.len() - 1
        } else {
            assert(rc[j] == rc.drop_last()[j]);
            j
        }
    }
}

/// The candidates tied at a non-empty row's minimum form a non-empty
/// subsequence of the remaining candidates.
proof fn lemma_losers(entries: Entries, remaining: Seq<Name>)
    requires
        remaining.len() > 0,
    ensures
        with_count(tally(entries, remaining), min_count_of(tally(entries, remaining))).len() > 0,
        is_subseq(
            with_count(tally(entries, remaining), min_count_of(tally(entries, remaining))),
            remaining,
        ),
{
    let rc = tally(entries, remaining);
    let m = min_count_of(rc);
    let p = count_is(m);
    lemma_filter_subseq(rc, p);
    lemma_subseq_map(rc.filter(p), rc, candidate_of());
    lemma_tally_names(entries, remaining);
    let i = lemma_min_attained(rc);
    rc.lemma_filter_contains(p, i);
}

/// Removing a non-empty subsequence strictly shrinks the remaining set.
proof fn lemma_without_shrinks(remaining: Seq<Name>, out: Seq<Name>)
    requires
        out.len() > 0,
        is_subseq(out, remaining),
    ensures
        without(remaining, out).len() < remaining.len(),
        is_subseq(without(remaining, out), remaining),
{
    let x = out[0];
    assert(out.contains(x));
    lemma_subseq_contains(out, remaining, x);
    let k = choose|k: int| 0 <= k < remaining.len() && remaining[k] == x;
    lemma_filter_strict(remaining, not_in(out), k);
    lemma_filter_subseq(remaining, not_in(out));
}

/// A name kept by `without` is not one of the removed names.
proof fn lemma_without_excludes(remaining: Seq<Name>, out: Seq<Name>, x: Name)
    requires
        without(remaining, out).contains(x),
    ensures
        !out.contains(x),
{
    let f = without(remaining, out);
    let k = choose|k: int| 0 <= k < f.len() && f[k] == x;
    remaining.lemma_filter_pred(not_in(out), k);
}

// ---------------------------------------------------------------------------
// Shape of a run
// ---------------------------------------------------------------------------

/// The structural facts about a run from `remaining` with enough rounds.
pub open spec fn run_shape(candidates: Seq<Name>, remaining: Seq<Name>, run: crate::irv::IrvRun) -> bool {
    &&& run.rounds.len() == run.eliminated.len() + 1
    &&& run.rounds.len() <= if remaining.len() == 0 { 1 } else { remaining.len() }
    &&& run.winners.len() > 0
    &&& is_subseq(run.winners, candidates)
    &&& forall|i: int|
        0 <= i < run.eliminated.len() ==> (#[trigger] run.eliminated[i]).len() > 0 && is_subseq(
            run.eliminated[i],
            candidates,
        )
    &&& forall|i: int| 0 <= i < run.rounds.len() ==> is_subseq(row_names(#[trigger] run.rounds[i]), candidates)
}

proof fn lemma_run_shape(entries: Entries, candidates: Seq<Name>, remaining: Seq<Name>, fuel: nat)
    requires
        candidates.len() > 0,
        is_subseq(remaining, candidates),
        fuel >= remaining.len() + 1,
    ensures
        run_shape(candidates, remaining, irv_from(entries, candidates, remaining, fuel)),
    decreases fuel,
{
    let run = irv_from(entries, candidates, remaining, fuel);
    let rc = tally(entries, remaining);
    lemma_tally_names(entries, remaining);
    lemma_subseq_refl(candidates);
    if remaining.len() == 0 {
        assert(row_names(run.rounds[0]) == remaining);
    } else if remaining.len() == 1 {
        assert(row_names(run.rounds[0]) == remaining);
    } else if sum_counts(rc) == 0 {
        lemma_zero_round_names(candidates);
        assert(row_names(run.rounds[0]) == candidates);
    } else {
        match first_over_from(rc, sum_counts(rc) / 2, 0) {
            Some(i) => {
                lemma_first_over_range(rc, sum_counts(rc) / 2, 0);
                assert(rc[i].0 == remaining[i]);
                lemma_subseq_single(remaining, i);
                lemma_subseq_trans(seq![remaining[i]], remaining, candidates);
                assert(row_names(run.rounds[0]) == remaining);
            },
            None => {
                let losers = with_count(rc, min_count_of(rc));
                if losers.len() == remaining.len() {
                    assert(row_names(run.rounds[0]) == remaining);
                } else {
                    lemma_losers(entries, remaining);
                    lemma_without_shrinks(remaining, losers);
                    let next = without(remaining, losers);
                    lemma_subseq_trans(next, remaining, candidates);
                    lemma_subseq_trans(losers, remaining, candidates);
                    lemma_run_shape(entries, candidates, next, (fuel - 1) as nat);
                    let rest = irv_from(entries, candidates, next, (fuel - 1) as nat);
                    assert(run.rounds == seq![rc] + rest.rounds);
                    assert(run.eliminated == seq![losers] + rest.eliminated);
                    assert forall|i: int| 0 <= i < run.eliminated.len() implies (
                    #[trigger] run.eliminated[i]).len() > 0 && is_subseq(run.eliminated[i], candidates) by {
                        if i > 0 {
                            assert(run.eliminated[i] == rest.eliminated[i - 1]);
                        }
                    }
                    assert forall|i: int| 0 <= i < run.rounds.len() implies is_subseq(
                        row_names(#[trigger] run.rounds[i]),
                        candidates,
                    ) by {
                        if i > 0 {
                            assert(run.rounds[i] == rest.rounds[i - 1]);
                        } else {
                            assert(row_names(run.rounds[0]) == remaining);
                        }
                    }
                }
            },
        }
    }
}

/// On a non-empty candidate list, the IRV result has exactly one more round
/// of counts than rounds of eliminations, between one and `|candidates|`
/// rounds, at least one winner, and every winner, every eliminated row and
/// every row of counts lists candidates in declaration order (each
/// eliminated row non-empty).
pub proof fn law_irv_shape(entries: Entries, candidates: Seq<Name>)
    requires
        candidates.len() > 0,
    ensures
        irv(entries, candidates).per_round_counts.len() == irv(entries, candidates).eliminated_by_round.len() + 1,
        1 <= irv(entries, candidates).per_round_counts.len() <= candidates.len(),
        irv(entries, candidates).winners.len() >= 1,
        is_subseq(irv(entries, candidates).winners, candidates),
        forall|i: int|
            0 <= i < irv(entries, candidates).eliminated_by_round.len() ==> (
            #[trigger] irv(entries, candidates).eliminated_by_round[i]).len() > 0 && is_subseq(
                irv(entries, candidates).eliminated_by_round[i],
                candidates,
            ),
        forall|i: int|
            0 <= i < irv(entries, candidates).per_round_counts.len() ==> is_subseq(
                row_names(#[trigger] irv(entries, candidates).per_round_counts[i]),
                candidates,
            ),
{
    lemma_subseq_refl(candidates);
    lemma_run_shape(entries, candidates, candidates, (candidates.len() + 1) as nat);
}

// ---------------------------------------------------------------------------
// Full preferential ballots: every ballot counts in every round
// ---------------------------------------------------------------------------

proof fn lemma_find_some(hay: Seq<Name>, x: Name, from: int, k: int)
    requires
        0 <= from <= k < hay.len(),
        hay[k] == x,
    ensures
        find_from(hay, x, from) is Some,
    decreases hay.len() - from,
{
    if hay[from] != x {
        lemma_find_some(hay, x, from + 1, k);
    }
}

proof fn lemma_first_active_some(ranking: Seq<Name>, remaining: Seq<Name>, i: int, k: int)
    requires
        0 <= i <= k < ranking.len(),
        remaining.contains(ranking[k]),
    ensures
        first_active_from(ranking, remaining, i) is Some,
    decreases ranking.len() - i,
{
    let j = choose|j: int| 0 <= j < remaining.len() && remaining[j] == ranking[k];
    if i == k {
        lemma_find_some(remaining, ranking[k], 0, j);
    } else {
        match position(remaining, ranking[i]) {
            Some(_) => {},
            None => lemma_first_active_some(ranking, remaining, i + 1, k),
        }
    }
}

proof fn lemma_all_active_before(entries: Entries, remaining: Seq<Name>, n: int)
    requires
        0 <= n <= entries.len(),
        forall|b: int| 0 <= b < entries.len() ==> #[trigger] first_active(entries[b].1, remaining) is Some,
    ensures
        active_before(entries, remaining, n) == n,
    decreases n,
{
    if n > 0 {
        lemma_all_active_before(entries, remaining, n - 1);
        assert(first_active(entries[n - 1].1, remaining) is Some);
    }
}

/// With full preferential ballots, every ballot has an active choice while
/// any candidate remains, so each round's counts sum to the ballot count.
proof fn lemma_round_total(entries: Entries, candidates: Seq<Name>, remaining: Seq<Name>)
    requires
        ranks_all(entries, candidates),
        is_subseq(remaining, candidates),
        remaining.len() > 0,
        entries.len() <= u32::MAX,
    ensures
        sum_counts(tally(entries, remaining)) == entries.len(),
{
    assert(remaining.contains(remaining[0]));
    lemma_subseq_contains(remaining, candidates, remaining[0]);
    let c = choose|c: int| 0 <= c < candidates.len() && candidates[c] == remaining[0];
    assert forall|b: int| 0 <= b < entries.len() implies #[trigger] first_active(entries[b].1, remaining) is Some by {
        assert(entries[b].1.contains(candidates[c]));
        let k = choose|k: int| 0 <= k < entries[b].1.len() && entries[b].1[k] == candidates[c];
        assert(remaining.contains(entries[b].1[k]));
        lemma_first_active_some(entries[b].1, remaining, 0, k);
    }
    lemma_all_active_before(entries, remaining, entries.len() as int);
    lemma_tally_sum(entries, remaining);
}

/// When the remaining names are distinct, eliminating the tied-at-minimum
/// candidates while they are not all of `remaining` leaves someone in.
proof fn lemma_without_nonempty(entries: Entries, remaining: Seq<Name>)
    requires
        remaining.len() > 0,
        remaining.no_duplicates(),
        with_count(tally(entries, remaining), min_count_of(tally(entries, remaining))).len()
            != remaining.len(),
    ensures
        without(
            remaining,
            with_count(tally(entries, remaining), min_count_of(tally(entries, remaining))),
        ).len() > 0,
{
    let rc = tally(entries, remaining);
    let m = min_count_of(rc);
    let p = count_is(m);
    let filt = rc.filter(p);
    let losers = with_count(rc, m);
    let next = without(remaining, losers);
    if next.len() == 0 {
        assert forall|i: int| 0 <= i < rc.len() implies p(#[trigger] rc[i]) by {
            if !losers.contains(remaining[i]) {
                remaining.lemma_filter_contains(not_in(losers), i);
            }
            let k = choose|k: int| 0 <= k < losers.len() && losers[k] == remaining[i];
            rc.lemma_filter_pred(p, k);
            assert(filt.contains(filt[k]));
            rc.lemma_filter_contains_rev(p, filt[k]);
            let idx = choose|idx: int| 0 <= idx < rc.len() && rc[idx] == filt[k];
            assert(rc[idx].0 == remaining[idx]);
            assert(losers[k] == filt[k].0);
        }
        lemma_filter_all(rc, p);
        assert(false);
    }
}

proof fn lemma_rows_sum(entries: Entries, candidates: Seq<Name>, remaining: Seq<Name>, fuel: nat)
    requires
        ranks_all(entries, candidates),
        is_subseq(remaining, candidates),
        remaining.no_duplicates(),
        remaining.len() > 0,
        fuel >= remaining.len() + 1,
        entries.len() <= u32::MAX,
    ensures
        forall|j: int|
            0 <= j < irv_from(entries, candidates, remaining, fuel).rounds.len() ==> sum_counts(
                #[trigger] irv_from(entries, candidates, remaining, fuel).rounds[j],
            ) == entries.len(),
    decreases fuel,
{
    let run = irv_from(entries, candidates, remaining, fuel);
    let rc = tally(entries, remaining);
    lemma_round_total(entries, candidates, remaining);
    if remaining.len() >= 2 && sum_counts(rc) != 0 && first_over_from(rc, sum_counts(rc) / 2, 0) is None {
        let losers = with_count(rc, min_count_of(rc));
        if losers.len() != remaining.len() {
            lemma_losers(entries, remaining);
            lemma_without_shrinks(remaining, losers);
            lemma_without_nonempty(entries, remaining);
            let next = without(remaining, losers);
            lemma_subseq_trans(next, remaining, candidates);
            lemma_subseq_no_dup(next, remaining);
            lemma_rows_sum(entries, candidates, next, (fuel - 1) as nat);
            let rest = irv_from(entries, candidates, next, (fuel - 1) as nat);
            assert(run.rounds == seq![rc] + rest.rounds);
            assert forall|j: int| 0 <= j < run.rounds.len() implies sum_counts(#[trigger] run.rounds[j])
                == entries.len() by {
                if j > 0 {
                    assert(run.rounds[j] == rest.rounds[j - 1]);
                }
            }
        }
    } else if remaining.len() >= 2 && sum_counts(rc) == 0 {
        lemma_zero_round_sum(candidates);
    }
}

/// With full preferential ballots over distinct candidates, every round's
/// counts sum to the number of ballots tallied.
pub proof fn law_irv_rows_sum(entries: Entries, candidates: Seq<Name>)
    requires
        ranks_all(entries, candidates),
        candidates.no_duplicates(),
        entries.len() <= u32::MAX,
    ensures
        forall|j: int|
            0 <= j < irv(entries, candidates).per_round_counts.len() ==> sum_counts(
                #[trigger] irv(entries, candidates).per_round_counts[j],
            ) == irv(entries, candidates).ballots_tallied,
{
    if candidates.len() > 0 {
        lemma_subseq_refl(candidates);
        lemma_rows_sum(entries, candidates, candidates, (candidates.len() + 1) as nat);
    }
}

proof fn lemma_rows_within(entries: Entries, candidates: Seq<Name>, remaining: Seq<Name>, fuel: nat)
    requires
        ranks_all(entries, candidates),
        is_subseq(remaining, candidates),
        fuel >= remaining.len() + 1,
        0 < entries.len() <= u32::MAX,
    ensures
        forall|j: int, x: Name|
            #![trigger row_names(irv_from(entries, candidates, remaining, fuel).rounds[j]).contains(x)]
            0 <= j < irv_from(entries, candidates, remaining, fuel).rounds.len() && row_names(
                irv_from(entries, candidates, remaining, fuel).rounds[j],
            ).contains(x) ==> remaining.contains(x),
    decreases fuel,
{
    let run = irv_from(entries, candidates, remaining, fuel);
    let rc = tally(entries, remaining);
    lemma_tally_names(entries, remaining);
    if remaining.len() > 0 {
        lemma_round_total(entries, candidates, remaining);
    }
    if remaining.len() >= 2 && sum_counts(rc) != 0 && first_over_from(rc, sum_counts(rc) / 2, 0) is None {
        let losers = with_count(rc, min_count_of(rc));
        if losers.len() != remaining.len() {
            lemma_losers(entries, remaining);
            lemma_without_shrinks(remaining, losers);
            let next = without(remaining, losers);
            lemma_subseq_trans(next, remaining, candidates);
            lemma_rows_within(entries, candidates, next, (fuel - 1) as nat);
            let rest = irv_from(entries, candidates, next, (fuel - 1) as nat);
            assert(run.rounds == seq![rc] + rest.rounds);
            assert forall|j: int, x: Name|
                0 <= j < run.rounds.len() && #[trigger] row_names(run.rounds[j]).contains(x) implies remaining.contains(x) by {
                if j > 0 {
                    assert(run.rounds[j] == rest.rounds[j - 1]);
                    remaining.lemma_filter_contains_rev(not_in(losers), x);
                }
            }
        }
    }
}

proof fn lemma_no_reappear(entries: Entries, candidates: Seq<Name>, remaining: Seq<Name>, fuel: nat)
    requires
        ranks_all(entries, candidates),
        is_subseq(remaining, candidates),
        fuel >= remaining.len() + 1,
        0 < entries.len() <= u32::MAX,
    ensures
        forall|i: int, j: int, k: int|
            #![trigger irv_from(entries, candidates, remaining, fuel).eliminated[i][k], irv_from(entries, candidates, remaining, fuel).rounds[j]]
            0 <= i < j < irv_from(entries, candidates, remaining, fuel).rounds.len() && i < irv_from(
                entries,
                candidates,
                remaining,
                fuel,
            ).eliminated.len() && 0 <= k < irv_from(entries, candidates, remaining, fuel).eliminated[i].len()
                ==> !row_names(irv_from(entries, candidates, remaining, fuel).rounds[j]).contains(
                irv_from(entries, candidates, remaining, fuel).eliminated[i][k],
            ),
    decreases fuel,
{
    let run = irv_from(entries, candidates, remaining, fuel);
    let rc = tally(entries, remaining);
    if remaining.len() >= 2 && sum_counts(rc) != 0 && first_over_from(rc, sum_counts(rc) / 2, 0) is None {
        let losers = with_count(rc, min_count_of(rc));
        if losers.len() != remaining.len() {
            lemma_losers(entries, remaining);
            lemma_without_shrinks(remaining, losers);
            let next = without(remaining, losers);
            lemma_subseq_trans(next, remaining, candidates);
            lemma_rows_within(entries, candidates, next, (fuel - 1) as nat);
            lemma_no_reappear(entries, candidates, next, (fuel - 1) as nat);
            let rest = irv_from(entries, candidates, next, (fuel - 1) as nat);
            assert(run.rounds == seq![rc] + rest.rounds);
            assert(run.eliminated == seq![losers] + rest.eliminated);
            assert forall|i: int, j: int, k: int|
                0 <= i < j < run.rounds.len() && i < run.eliminated.len() && 0 <= k < run.eliminated[i].len()
                implies !row_names(#[trigger] run.rounds[j]).contains(#[trigger] run.eliminated[i][k]) by {
                assert(run.rounds[j] == rest.rounds[j - 1]);
                if i == 0 {
                    let x = losers[k];
                    assert(losers.contains(x));
                    if row_names(rest.rounds[j - 1]).contains(x) {
                        lemma_without_excludes(remaining, losers, x);
                    }
                } else {
                    assert(run.eliminated[i] == rest.eliminated[i - 1]);
                }
            }
        }
    }
}

/// With full preferential ballots, a candidate eliminated in some round
/// appears in no later round's counts.
pub proof fn law_irv_no_reappearance(entries: Entries, candidates: Seq<Name>)
    requires
        ranks_all(entries, candidates),
        entries.len() <= u32::MAX,
    ensures
        forall|i: int, j: int, k: int|
            #![trigger irv(entries, candidates).eliminated_by_round[i][k], irv(entries, candidates).per_round_counts[j]]
            0 <= i < j < irv(entries, candidates).per_round_counts.len() && i < irv(
                entries,
                candidates,
            ).eliminated_by_round.len() && 0 <= k < irv(entries, candidates).eliminated_by_round[i].len()
                ==> !row_names(irv(entries, candidates).per_round_counts[j]).contains(
                irv(entries, candidates).eliminated_by_round[i][k],
            ),
{
    if candidates.len() > 0 {
        lemma_subseq_refl(candidates);
        let fuel = (candidates.len() + 1) as nat;
        if entries.len() > 0 {
            lemma_no_reappear(entries, candidates, candidates, fuel);
        } else {
            let run = irv_from(entries, candidates, candidates, fuel);
            if candidates.len() >= 2 {
                lemma_round_total(entries, candidates, candidates);
            }
            assert(run.eliminated.len() == 0);
        }
    }
}

// ---------------------------------------------------------------------------
// The counting rules each round follows
// ---------------------------------------------------------------------------

/// Entry `k` of a row has the row's smallest count.
pub open spec fn lowest_at(row: CountRow, k: int) -> bool {
    forall|l: int| 0 <= l < row.len() ==> row[k].1 <= #[trigger] row[l].1
}

/// Every entry of a row has the same count.
pub open spec fn all_tied(row: CountRow) -> bool {
    forall|i: int, j: int| 0 <= i < row.len() && 0 <= j < row.len() ==> #[trigger] row[i].1 == #[trigger] row[j].1
}

/// No entry of a row has more than half of the row's votes.
pub open spec fn no_majority(row: CountRow) -> bool {
    forall|k: int| 0 <= k < row.len() ==> 2 * (#[trigger] row[k].1) <= sum_counts(row)
}

/// A round that eliminates `out`: nobody has a majority, not everybody is
/// tied, and `out` holds exactly the candidates with the lowest count.
pub open spec fn eliminates(row: CountRow, out: Seq<Name>) -> bool {
    &&& no_majority(row)
    &&& !all_tied(row)
    &&& forall|x: Name|
        #[trigger] out.contains(x) <==> exists|k: int| 0 <= k < row.len() && row[k].0 == x && lowest_at(row, k)
}

/// The last round ends the count with `winners`: several winners only when
/// they are that round's candidates, all tied; a single winner is the only
/// candidate left or holds more than half of the round's votes.
pub open spec fn ends_with(row: CountRow, winners: Seq<Name>) -> bool {
    &&& winners.len() >= 2 ==> row_names(row) == winners && all_tied(row)
    &&& winners.len() == 1 ==> (row.len() == 1 && row[0].0 == winners[0]) || exists|k: int|
        0 <= k < row.len() && row[k].0 == winners[0] && 2 * row[k].1 > sum_counts(row)
}

proof fn lemma_min_le(rc: CountRow)
    ensures
        forall|k: int| 0 <= k < rc.len() ==> min_count_of(rc) <= #[trigger] rc[k].1,
    decreases rc.len(),
{
    if rc.len() > 1 {
        lemma_min_le(rc.drop_last());
        assert forall|k: int| 0 <= k < rc.len() implies min_count_of(rc) <= #[trigger] rc[k].1 by {
            if k < rc.len() - 1 {
                assert(rc[k] == rc.drop_last()[k]);
            }
        }
    }
}

proof fn lemma_first_over_none(rc: CountRow, threshold: nat, from: int)
    requires
        0 <= from,
        first_over_from(rc, threshold, from) is None,
    ensures
        forall|k: int| from <= k < rc.len() ==> #[trigger] rc[k].1 <= threshold,
    decreases rc.len() - from,
{
    if from < rc.len() {
        lemma_first_over_none(rc, threshold, from + 1);
    }
}

/// A filter that keeps as many elements as there are keeps them all.
proof fn lemma_filter_len_all<A>(s: Seq<A>, p: spec_fn(A) -> bool)
    requires
        s.filter(p).len() == s.len(),
    ensures
        forall|i: int| 0 <= i < s.len() ==> p(#[trigger] s[i]),
{
    assert forall|i: int| 0 <= i < s.len() implies p(#[trigger] s[i]) by {
        if !p(s[i]) {
            lemma_filter_strict(s, p, i);
        }
    }
}

/// `x` is among the candidates with count `m` exactly when some entry names
/// `x` with that count.
proof fn lemma_with_count_contains(rc: CountRow, m: u32, x: Name)
    ensures
        with_count(rc, m).contains(x) <==> exists|k: int| 0 <= k < rc.len() && rc[k].0 == x && rc[k].1 == m,
{
    let p = count_is(m);
    let f = rc.filter(p);
    if with_count(rc, m).contains(x) {
        let j = choose|j: int| 0 <= j < with_count(rc, m).len() && with_count(rc, m)[j] == x;
        rc.lemma_filter_pred(p, j);
        assert(f.contains(f[j]));
        rc.lemma_filter_contains_rev(p, f[j]);
        let k = choose|k: int| 0 <= k < rc.len() && rc[k] == f[j];
        assert(rc[k].0 == x && rc[k].1 == m);
    }
    if exists|k: int| 0 <= k < rc.len() && rc[k].0 == x && rc[k].1 == m {
        let k = choose|k: int| 0 <= k < rc.len() && rc[k].0 == x && rc[k].1 == m;
        rc.lemma_filter_contains(p, k);
        let j = choose|j: int| 0 <= j < f.len() && f[j] == rc[k];
        assert(with_count(rc, m)[j] == x);
    }
}

proof fn lemma_run_rules(entries: Entries, candidates: Seq<Name>, remaining: Seq<Name>, fuel: nat)
    requires
        is_subseq(remaining, candidates),
        remaining.no_duplicates(),
        remaining.len() > 0,
        fuel >= remaining.len() + 1,
    ensures
        irv_from(entries, candidates, remaining, fuel).rounds.len() == irv_from(
            entries,
            candidates,
            remaining,
            fuel,
        ).eliminated.len() + 1,
        forall|r: int|
            0 <= r < irv_from(entries, candidates, remaining, fuel).eliminated.len() ==> eliminates(
                irv_from(entries, candidates, remaining, fuel).rounds[r],
                #[trigger] irv_from(entries, candidates, remaining, fuel).eliminated[r],
            ),
        ends_with(
            irv_from(entries, candidates, remaining, fuel).rounds.last(),
            irv_from(entries, candidates, remaining, fuel).winners,
        ),
    decreases fuel,
{
    let run = irv_from(entries, candidates, remaining, fuel);
    let rc = tally(entries, remaining);
    lemma_tally_names(entries, remaining);
    assert(rc.len() == remaining.len());
    if remaining.len() == 1 {
        assert(rc[0].0 == row_names(rc)[0]);
    } else if sum_counts(rc) == 0 {
        lemma_zero_round_names(candidates);
        lemma_subseq_len(remaining, candidates);
        let z = zero_round(candidates);
        assert(all_tied(z));
    } else {
        match first_over_from(rc, sum_counts(rc) / 2, 0) {
            Some(i) => {
                lemma_first_over_range(rc, sum_counts(rc) / 2, 0);
                assert(2 * rc[i].1 > sum_counts(rc));
            },
            None => {
                let m = min_count_of(rc);
                let losers = with_count(rc, m);
                lemma_min_le(rc);
                if losers.len() == remaining.len() {
                    lemma_filter_len_all(rc, count_is(m));
                    assert forall|i: int, j: int| 0 <= i < rc.len() && 0 <= j < rc.len() implies #[trigger] rc[i].1
                        == #[trigger] rc[j].1 by {
                        assert(count_is(m)(rc[i]) && count_is(m)(rc[j]));
                    }
                } else {
                    let a = lemma_min_attained(rc);
                    lemma_first_over_none(rc, sum_counts(rc) / 2, 0);
                    assert(no_majority(rc));
                    if all_tied(rc) {
                        assert forall|i: int| 0 <= i < rc.len() implies count_is(m)(#[trigger] rc[i]) by {
                            assert(rc[i].1 == rc[a].1);
                        }
                        lemma_filter_all(rc, count_is(m));
                        assert(false);
                    }
                    assert forall|x: Name| #[trigger] losers.contains(x) <==> exists|k: int|
                        0 <= k < rc.len() && rc[k].0 == x && lowest_at(rc, k) by {
                        lemma_with_count_contains(rc, m, x);
                        if losers.contains(x) {
                            let k = choose|k: int| 0 <= k < rc.len() && rc[k].0 == x && rc[k].1 == m;
                            assert(lowest_at(rc, k));
                        }
                        if exists|k: int| 0 <= k < rc.len() && rc[k].0 == x && lowest_at(rc, k) {
                            let k = choose|k: int| 0 <= k < rc.len() && rc[k].0 == x && lowest_at(rc, k);
                            assert(rc[k].1 <= rc[a].1);
                        }
                    }
                    assert(eliminates(rc, losers));
                    lemma_losers(entries, remaining);
                    lemma_without_shrinks(remaining, losers);
                    lemma_without_nonempty(entries, remaining);
                    let next = without(remaining, losers);
                    lemma_subseq_trans(next, remaining, candidates);
                    lemma_subseq_no_dup(next, remaining);
                    lemma_run_rules(entries, candidates, next, (fuel - 1) as nat);
                    let rest = irv_from(entries, candidates, next, (fuel - 1) as nat);
                    assert(run.rounds == seq![rc] + rest.rounds);
                    assert(run.eliminated == seq![losers] + rest.eliminated);
                    assert(run.rounds.last() == rest.rounds.last());
                    assert forall|r: int| 0 <= r < run.eliminated.len() implies eliminates(
                        run.rounds[r],
                        #[trigger] run.eliminated[r],
                    ) by {
                        if r > 0 {
                            assert(run.rounds[r] == rest.rounds[r - 1]);
                            assert(run.eliminated[r] == rest.eliminated[r - 1]);
                        }
                    }
                }
            },
        }
    }
}

/// The counting rules over distinct candidates. Every round that
/// eliminates has no majority and not everybody tied, and eliminates
/// exactly the candidates with the lowest count. The last round ends the
/// count: co-winners only when they are that round's candidates and all
/// tie, a single winner only as the last candidate left or with more than
/// half of that round's votes.
pub proof fn law_irv_round_rules(entries: Entries, candidates: Seq<Name>)
    requires
        candidates.len() > 0,
        candidates.no_duplicates(),
    ensures
        irv(entries, candidates).per_round_counts.len() == irv(entries, candidates).eliminated_by_round.len() + 1,
        forall|r: int|
            0 <= r < irv(entries, candidates).eliminated_by_round.len() ==> eliminates(
                irv(entries, candidates).per_round_counts[r],
                #[trigger] irv(entries, candidates).eliminated_by_round[r],
            ),
        ends_with(irv(entries, candidates).per_round_counts.last(), irv(entries, candidates).winners),
{
    lemma_subseq_refl(candidates);
    lemma_run_rules(entries, candidates, candidates, (candidates.len() + 1) as nat);
}

} // verus!
