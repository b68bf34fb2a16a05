//! The chain-checkable well-formedness of a published tally: cardinalities,
//! declaration order, the ballot partition, per-round sums, and that no
//! eliminated candidate reappears.
use vstd::prelude::*;
use crate::codec::len32;
use crate::contract::checks::is_in_declaration_order;
use crate::contract::error::{ContractError, ErrorView};
use crate::contract::state::Election;
use crate::irv::{lemma_sum_prefix_le, sum_counts};
use crate::irv_laws::row_names;
use crate::seqs::is_subseq;
use crate::types::{CountRow, Name, RoundCount, TallyResult, TallyView};

verus! {

// ---------------------------------------------------------------------------
// Model
// ---------------------------------------------------------------------------

/// The tally partitions the candidates: `ballots_tallied + ballots_dropped
/// + |non_voters|` equals the candidate count, with no `u32` overflow.
pub open spec fn partition_ok(t: TallyView, n_candidates: nat) -> bool {
    let s = t.ballots_tallied as nat + t.ballots_dropped as nat;
    &&& s <= u32::MAX
    &&& s + len32(t.non_voters.len()) <= u32::MAX
    &&& s + len32(t.non_voters.len()) == len32(n_candidates)
}

/// No name occurs in both lists.
pub open spec fn disjoint(a: Seq<Name>, b: Seq<Name>) -> bool {
    forall|i: int, j: int| 0 <= i < a.len() && 0 <= j < b.len() ==> a[i] != b[j]
}

/// The first failing round from `r` on: its sum differs from `tallied`,
/// or its candidates are out of declaration order.
pub open spec fn rows_error_from(rounds: Seq<CountRow>, cands: Seq<Name>, tallied: u32, r: int) -> Option<
    Seq<char>,
>
    decreases rounds.len() - r,
{
    if r < 0 || r >= rounds.len() {
        None
    } else if sum_counts(rounds[r]) != tallied {
        Some("per_round_counts row does not sum to ballots_tallied"@)
    } else if !is_subseq(row_names(rounds[r]), cands) {
        Some("per_round_counts row not in candidate-declaration order"@)
    } else {
        rows_error_from(rounds, cands, tallied, r + 1)
    }
}

/// Every eliminated row lists candidates in declaration order.
pub open spec fn elims_ordered(elims: Seq<Seq<Name>>, cands: Seq<Name>) -> bool {
    forall|i: int| 0 <= i < elims.len() ==> is_subseq(#[trigger] elims[i], cands)
}

/// Some candidate eliminated in round `i` occurs in round `j > i`'s counts.
pub open spec fn reappears(rounds: Seq<CountRow>, elims: Seq<Seq<Name>>) -> bool {
    exists|j: int, k: int, i: int, m: int|
        0 <= j < rounds.len() && 0 <= k < rounds[j].len() && 0 <= i < j && i < elims.len() && 0 <= m
            < elims[i].len() && #[trigger] elims[i][m] == #[trigger] rounds[j][k].0
}

/// Why a tally is not well-formed for these candidates, if it is not: the
/// text of the first failed check.
pub open spec fn tally_error(cands: Seq<Name>, t: TallyView) -> Option<Seq<char>> {
    let n = cands.len();
    if t.winners.len() == 0 || t.winners.len() > n {
        Some("winners cardinality out of bounds"@)
    } else if !is_subseq(t.winners, cands) {
        Some("winners not in candidate-declaration order"@)
    } else if len32(t.dropped_voters.len()) != t.ballots_dropped {
        Some("dropped_voters length disagrees with ballots_dropped"@)
    } else if !partition_ok(t, n) {
        Some("tally partition equation violated"@)
    } else if !disjoint(t.dropped_voters, t.non_voters) {
        Some("dropped_voters intersects non_voters"@)
    } else if !is_subseq(t.dropped_voters, cands) {
        Some("dropped_voters not in candidate-declaration order"@)
    } else if !is_subseq(t.non_voters, cands) {
        Some("non_voters not in candidate-declaration order"@)
    } else if t.per_round_counts.len() > n {
        Some("per_round_counts exceeds candidate count"@)
    } else if t.eliminated_by_round.len() > t.per_round_counts.len() {
        Some("eliminated_by_round longer than per_round_counts"@)
    } else {
        match rows_error_from(t.per_round_counts, cands, t.ballots_tallied, 0) {
            Some(m) => Some(m),
            None => if !elims_ordered(t.eliminated_by_round, cands) {
                Some("eliminated_by_round row not in candidate-declaration order"@)
            } else if reappears(t.per_round_counts, t.eliminated_by_round) {
                Some("eliminated candidate reappears in later round"@)
            } else {
                None
            },
        }
    }
}

// ---------------------------------------------------------------------------
// What an accepted tally satisfies
// ---------------------------------------------------------------------------

proof fn lemma_rows_accepted(rounds: Seq<CountRow>, cands: Seq<Name>, tallied: u32, r: int)
    requires
        0 <= r,
        rows_error_from(rounds, cands, tallied, r) is None,
    ensures
        forall|k: int|
            r <= k < rounds.len() ==> sum_counts(#[trigger] rounds[k]) == tallied && is_subseq(
                row_names(rounds[k]),
                cands,
            ),
    decreases rounds.len() - r,
{
    if r < rounds.len() {
        lemma_rows_accepted(rounds, cands, tallied, r + 1);
    }
}

/// A tally that the well-formedness check accepts for `cands`: it has
/// between one and `|cands|` winners, in declaration order; no name is
/// both a dropped voter and a non-voter; dropped voters and non-voters are
/// in declaration order; tallied, dropped and non-voters add up to the
/// candidate count; there are at most `|cands|` rounds and no more
/// elimination rows than rounds; every round's counts sum to the tallied
/// ballots and name candidates in declaration order; every elimination row
/// is in declaration order; and no candidate eliminated in a round is
/// counted in a later one.
pub proof fn law_accepted_tally_well_formed(cands: Seq<Name>, t: TallyView)
    requires
        tally_error(cands, t) is None,
    ensures
        1 <= t.winners.len() <= cands.len(),
        is_subseq(t.winners, cands),
        forall|i: int, j: int|
            0 <= i < t.dropped_voters.len() && 0 <= j < t.non_voters.len() ==> #[trigger] t.dropped_voters[i]
                != #[trigger] t.non_voters[j],
        is_subseq(t.dropped_voters, cands),
        is_subseq(t.non_voters, cands),
        t.dropped_voters.len() as u32 == t.ballots_dropped,
        t.ballots_tallied + t.ballots_dropped + (t.non_voters.len() as u32) == cands.len() as u32,
        t.per_round_counts.len() <= cands.len(),
        t.eliminated_by_round.len() <= t.per_round_counts.len(),
        forall|k: int|
            0 <= k < t.per_round_counts.len() ==> sum_counts(#[trigger] t.per_round_counts[k]) == t.ballots_tallied
                && is_subseq(row_names(t.per_round_counts[k]), cands),
        forall|i: int| 0 <= i < t.eliminated_by_round.len() ==> is_subseq(#[trigger] t.eliminated_by_round[i], cands),
        forall|j: int, k: int, i: int, m: int|
            0 <= j < t.per_round_counts.len() && 0 <= k < t.per_round_counts[j].len() && 0 <= i < j && i
                < t.eliminated_by_round.len() && 0 <= m < t.eliminated_by_round[i].len()
                ==> #[trigger] t.eliminated_by_round[i][m] != #[trigger] t.per_round_counts[j][k].0,
{
    lemma_rows_accepted(t.per_round_counts, cands, t.ballots_tallied, 0);
}

// ---------------------------------------------------------------------------
// Helpers
// ---------------------------------------------------------------------------

fn failure(msg: &str) -> (e: ContractError)
    ensures
        e@ == ErrorView::AttestationFailure(msg@),
{
    ContractError::AttestationFailure(msg.to_owned())
}

/// Whether some name occurs in both lists.
fn shares_name(a: &Vec<String>, b: &Vec<String>) -> (r: bool)
    ensures
        r == !disjoint(a.deep_view(), b.deep_view()),
{
    let na = a.len();
    let nb = b.len();
    let mut i: usize = 0;
    while i < na
        invariant
            na == a@.len(),
            nb == b@.len(),
            i <= na,
            forall|x: int, y: int| 0 <= x < i && 0 <= y < nb ==> a.deep_view()[x] != b.deep_view()[y],
        decreases na - i,
    {
        let mut j: usize = 0;
        while j < nb
            invariant
                na == a@.len(),
                nb == b@.len(),
                i < na,
                j <= nb,
                forall|x: int, y: int| 0 <= x < i && 0 <= y < nb ==> a.deep_view()[x] != b.deep_view()[y],
                forall|y: int| 0 <= y < j ==> a.deep_view()[i as int] != b.deep_view()[y],
            decreases nb - j,
        {
            if a[i] == b[j] {
                assert(a.deep_view()[i as int] == b.deep_view()[j as int]);
                return true;
            }
            j += 1;
        }
        i += 1;
    }
    false
}

/// Whether the counts of a row sum to `target`.
fn row_sums_to(row: &Vec<RoundCount>, target: u32) -> (r: bool)
    ensures
        r == (sum_counts(row.deep_view()) == target),
{
    let ghost rv = row.deep_view();
    let n = row.len();
    let mut s: u64 = 0;
    let mut i: usize = 0;
    assert(rv.take(0) =~= Seq::<(Name, u32)>::empty());
    while i < n
        invariant
            n == row@.len(),
            rv == row.deep_view(),
            i <= n,
            s == sum_counts(rv.take(i as int)),
            s <= target,
        decreases n - i,
    {
        proof {
            assert(rv.take(i as int + 1).drop_last() =~= rv.take(i as int));
            assert(rv.take(i as int + 1).last() == rv[i as int]);
        }
        s = s + row[i].count as u64;
        if s > target as u64 {
            proof {
                lemma_sum_prefix_le(rv, i as int + 1);
            }
            return false;
        }
        i += 1;
    }
    assert(rv.take(n as int) =~= rv);
    s == target as u64
}

/// The candidates of a row, in row order.
fn row_candidates(row: &Vec<RoundCount>) -> (out: Vec<String>)
    ensures
        out.deep_view() == row_names(row.deep_view()),
{
    let n = row.len();
    let mut out: Vec<String> = Vec::with_capacity(n);
    let mut i: usize = 0;
    while i < n
        invariant
            n == row@.len(),
            i <= n,
            out.deep_view() =~= row_names(row.deep_view()).take(i as int),
        decreases n - i,
    {
        let c = row[i].candidate.clone();
        let ghost before = out.deep_view();
        out.push(c);
        assert(out.deep_view() =~= before.push(c@));
        i += 1;
    }
    assert(row_names(row.deep_view()).take(n as int) =~= row_names(row.deep_view()));
    out
}

/// Whether some candidate of `elims[i]`, `i < j`, occurs in `rounds[j]`.
fn finds_reappearance(rounds: &Vec<Vec<RoundCount>>, elims: &Vec<Vec<String>>) -> (r: bool)
    ensures
        r == reappears(rounds.deep_view(), elims.deep_view()),
{
    let ghost rv = rounds.deep_view();
    let ghost ev = elims.deep_view();
    let nr = rounds.len();
    let mut j: usize = 0;
    while j < nr
        invariant
            nr == rounds@.len(),
            rv == rounds.deep_view(),
            ev == elims.deep_view(),
            j <= nr,
            forall|jj: int, k: int, i: int, m: int|
                0 <= jj < j && 0 <= k < rv[jj].len() && 0 <= i < jj && i < ev.len() && 0 <= m
                    < ev[i].len() ==> #[trigger] ev[i][m] != #[trigger] rv[jj][k].0,
        decreases nr - j,
    {
        let round_j = &rounds[j];
        let nk = round_j.len();
        let mut k: usize = 0;
        while k < nk
            invariant
                nr == rounds@.len(),
                rv == rounds.deep_view(),
                ev == elims.deep_view(),
                j < nr,
                round_j.deep_view() == rv[j as int],
                nk == rv[j as int].len(),
                k <= nk,
                forall|jj: int, kk: int, i: int, m: int|
                    0 <= jj < j && 0 <= kk < rv[jj].len() && 0 <= i < jj && i < ev.len() && 0 <= m
                        < ev[i].len() ==> #[trigger] ev[i][m] != #[trigger] rv[jj][kk].0,
                forall|kk: int, i: int, m: int|
                    0 <= kk < k && 0 <= i < j && i < ev.len() && 0 <= m < ev[i].len() ==> #[trigger] ev[i][m]
                        != #[trigger] rv[j as int][kk].0,
            decreases nk - k,
        {
            let cand: &String = &round_j[k].candidate;
            let mut i: usize = 0;
            while i < j
                invariant
                    nr == rounds@.len(),
                    rv == rounds.deep_view(),
                    ev == elims.deep_view(),
                    j < nr,
                    round_j.deep_view() == rv[j as int],
                    nk == rv[j as int].len(),
                    k < nk,
                    cand@ == rv[j as int][k as int].0,
                    i <= j,
                    forall|jj: int, kk: int, ii: int, m: int|
                        0 <= jj < j && 0 <= kk < rv[jj].len() && 0 <= ii < jj && ii < ev.len() && 0 <= m
                            < ev[ii].len() ==> #[trigger] ev[ii][m] != #[trigger] rv[jj][kk].0,
                    forall|kk: int, ii: int, m: int|
                        0 <= kk < k && 0 <= ii < j && ii < ev.len() && 0 <= m < ev[ii].len() ==> #[trigger] ev[ii][m]
                            != #[trigger] rv[j as int][kk].0,
                    forall|ii: int, m: int|
                        0 <= ii < i && ii < ev.len() && 0 <= m < ev[ii].len() ==> #[trigger] ev[ii][m]
                            != rv[j as int][k as int].0,
                decreases j - i,
            {
                if i < elims.len() {
                    let row_i = &elims[i];
                    let nm = row_i.len();
                    let mut m: usize = 0;
                    while m < nm
                        invariant
                            ev == elims.deep_view(),
                            rv == rounds.deep_view(),
                            j < nr,
                            nr == rounds@.len(),
                            k < rv[j as int].len(),
                            cand@ == rv[j as int][k as int].0,
                            i < j,
                            i < ev.len(),
                            row_i.deep_view() == ev[i as int],
                            nm == ev[i as int].len(),
                            m <= nm,
                            forall|mm: int| 0 <= mm < m ==> #[trigger] ev[i as int][mm] != cand@,
                        decreases nm - m,
                    {
                        if row_i[m] == *cand {
                            proof {
                                assert(row_i.deep_view()[m as int] == row_i@[m as int]@);
                                assert(ev[i as int][m as int] == rv[j as int][k as int].0);
                                assert(reappears(rv, ev));
                            }
                            return true;
                        }
                        m += 1;
                    }
                }
                i += 1;
            }
            k += 1;
        }
        j += 1;
    }
    false
}

/// Rejects a tally that no honest tally of this election can be: see
/// [`tally_error`] for the checks and their order.
pub fn check_tally_well_formed(election: &Election, tally: &TallyResult) -> (r: Result<(), ContractError>)
    ensures
        match tally_error(election.candidates.deep_view(), tally@) {
            None => r is Ok,
            Some(m) => r matches Err(e) && e@ == ErrorView::AttestationFailure(m),
        },
        r is Ok ==> forall|i: int, j: int|
            0 <= i < tally.dropped_voters@.len() && 0 <= j < tally.non_voters@.len()
                ==> #[trigger] tally.dropped_voters@[i]@ != #[trigger] tally.non_voters@[j]@,
        r is Ok ==> forall|k: int|
            0 <= k < tally.per_round_counts@.len() ==> sum_counts(#[trigger] tally@.per_round_counts[k])
                == tally.ballots_tallied,
{
    let ghost cands = election.candidates.deep_view();
    let ghost t = tally@;
    let n_cands = election.candidates.len();
    let cs = election.candidates.as_slice();
    assert(cs.deep_view() =~= cands);
    if tally.winners.len() == 0 || tally.winners.len() > n_cands {
        return Err(failure("winners cardinality out of bounds"));
    }
    let ws = tally.winners.as_slice();
    assert(ws.deep_view() =~= t.winners);
    if !is_in_declaration_order(ws, cs) {
        return Err(failure("winners not in candidate-declaration order"));
    }
    if tally.dropped_voters.len() as u32 != tally.ballots_dropped {
        return Err(failure("dropped_voters length disagrees with ballots_dropped"));
    }
    let partition_holds = match tally.ballots_tallied.checked_add(tally.ballots_dropped) {
        Some(s) => match s.checked_add(tally.non_voters.len() as u32) {
            Some(total) => total == n_cands as u32,
            None => false,
        },
        None => false,
    };
    if !partition_holds {
        return Err(failure("tally partition equation violated"));
    }
    if shares_name(&tally.dropped_voters, &tally.non_voters) {
        return Err(failure("dropped_voters intersects non_voters"));
    }
    let ds = tally.dropped_voters.as_slice();
    assert(ds.deep_view() =~= t.dropped_voters);
    if !is_in_declaration_order(ds, cs) {
        return Err(failure("dropped_voters not in candidate-declaration order"));
    }
    let nvs = tally.non_voters.as_slice();
    assert(nvs.deep_view() =~= t.non_voters);
    if !is_in_declaration_order(nvs, cs) {
        return Err(failure("non_voters not in candidate-declaration order"));
    }
    if tally.per_round_counts.len() > n_cands {
        return Err(failure("per_round_counts exceeds candidate count"));
    }
    if tally.eliminated_by_round.len() > tally.per_round_counts.len() {
        return Err(failure("eliminated_by_round longer than per_round_counts"));
    }
    let ghost rounds = t.per_round_counts;
    let nr = tally.per_round_counts.len();
    let mut r: usize = 0;
    while r < nr
        invariant
            nr == tally.per_round_counts@.len(),
            rounds == tally.per_round_counts.deep_view(),
            cands == election.candidates.deep_view(),
            cs.deep_view() == cands,
            t == tally@,
            tally_error(cands, t) == match rows_error_from(rounds, cands, t.ballots_tallied, 0) {
                Some(m) => Some(m),
                None => if !elims_ordered(t.eliminated_by_round, cands) {
                    Some("eliminated_by_round row not in candidate-declaration order"@)
                } else if reappears(t.per_round_counts, t.eliminated_by_round) {
                    Some("eliminated candidate reappears in later round"@)
                } else {
                    None
                },
            },
            r <= nr,
            rows_error_from(rounds, cands, t.ballots_tallied, 0) == rows_error_from(
                rounds,
                cands,
                t.ballots_tallied,
                r as int,
            ),
        decreases nr - r,
    {
        let round = &tally.per_round_counts[r];
        if !row_sums_to(round, tally.ballots_tallied) {
            return Err(failure("per_round_counts row does not sum to ballots_tallied"));
        }
        let row_cands = row_candidates(round);
        let rcs = row_cands.as_slice();
        assert(rcs.deep_view() =~= row_cands.deep_view());
        if !is_in_declaration_order(rcs, cs) {
            return Err(failure("per_round_counts row not in candidate-declaration order"));
        }
        r += 1;
    }
    let ne = tally.eliminated_by_round.len();
    let mut q: usize = 0;
    while q < ne
        invariant
            ne == tally.eliminated_by_round@.len(),
            cands == election.candidates.deep_view(),
            cs.deep_view() == cands,
            t == tally@,
            tally_error(cands, t) == if !elims_ordered(t.eliminated_by_round, cands) {
                Some("eliminated_by_round row not in candidate-declaration order"@)
            } else if reappears(t.per_round_counts, t.eliminated_by_round) {
                Some("eliminated candidate reappears in later round"@)
            } else {
                None
            },
            q <= ne,
            forall|i: int| 0 <= i < q ==> is_subseq(#[trigger] t.eliminated_by_round[i], cands),
        decreases ne - q,
    {
        let row = &tally.eliminated_by_round[q];
        let es = row.as_slice();
        assert(es.deep_view() =~= t.eliminated_by_round[q as int]);
        if !is_in_declaration_order(es, cs) {
            return Err(failure("eliminated_by_round row not in candidate-declaration order"));
        }
        q += 1;
    }
    if finds_reappearance(&tally.per_round_counts, &tally.eliminated_by_round) {
        return Err(failure("eliminated candidate reappears in later round"));
    }
    proof {
        law_accepted_tally_well_formed(cands, t);
        assert forall|i: int, j: int|
            0 <= i < tally.dropped_voters@.len() && 0 <= j < tally.non_voters@.len() implies #[trigger] tally.dropped_voters@[i]@
                != #[trigger] tally.non_voters@[j]@ by {
            assert(t.dropped_voters[i] == tally.dropped_voters@[i]@);
            assert(t.non_voters[j] == tally.non_voters@[j]@);
        }
    }
    Ok(())
}

} // verus!
