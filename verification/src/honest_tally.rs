//! What an honest enclave publishes is accepted on chain: the tally of any
//! decryption outcome of ballots cast by distinct candidates, in
//! declaration order, satisfies every clause the contract checks at
//! `PublishResult`, and with an attestation of the registered image over
//! its commit the publication goes through.
use vstd::prelude::*;
use crate::binding::{ballots_preimage, distinct_candidate_voters, distinct_voters, law_ballots_hash_order_free, names_preimage, tagged, DST_TALLY};
use crate::codec::canonical_bytes;
use crate::contract::attest_laws::{law_attested_publish_accepted, matches_registry};
use crate::contract::error::GnarkVerdict;
use crate::contract::handlers::{expected_commit, phase_of, publish_error};
use crate::contract::layout::is_synthetic;
use crate::contract::state::{EnvView, Phase, StateView};
use crate::digest::sha256_spec;
use crate::contract::tally_check::{disjoint, elims_ordered, partition_ok, reappears, rows_error_from, tally_error};
use crate::decrypt::{classify, decode_ballot, first_bad_rank, lemma_classify_sizes, not_voted, stage1, tally_of, voters};
use crate::irv::{irv, sum_counts};
use crate::irv_laws::{law_irv_no_reappearance, law_irv_rows_sum, law_irv_shape, ranks_all, row_names};
use crate::seqs::{is_subseq, lemma_filter_out_len, lemma_filter_subseq, lemma_subseq_contains, lemma_subseq_len, lemma_subseq_push_both, lemma_subseq_push_right, lemma_subseq_trans};
use crate::types::{CountRow, Entries, Name};

verus! {

// ---------------------------------------------------------------------------
// Valid rankings are permutations of the candidates
// ---------------------------------------------------------------------------

proof fn lemma_first_bad_none(r: Seq<Name>, cands: Seq<Name>, i: int)
    requires
        0 <= i,
        first_bad_rank(r, cands, i) is None,
    ensures
        forall|j: int| i <= j < r.len() ==> #[trigger] cands.contains(r[j]) && !r.take(j).contains(r[j]),
    decreases r.len() - i,
{
    if i < r.len() {
        lemma_first_bad_none(r, cands, i + 1);
    }
}

/// A ranking of `|cands|` distinct candidates names every candidate.
proof fn lemma_ranking_covers(r: Seq<Name>, cands: Seq<Name>)
    requires
        r.len() == cands.len(),
        first_bad_rank(r, cands, 0) is None,
        cands.no_duplicates(),
    ensures
        forall|c: int| 0 <= c < cands.len() ==> r.contains(#[trigger] cands[c]),
{
    broadcast use vstd::seq_lib::seq_to_set_is_finite;
    lemma_first_bad_none(r, cands, 0);
    assert(r.no_duplicates()) by {
        assert forall|j: int, k: int| 0 <= j < r.len() && 0 <= k < r.len() && j != k implies r[j] != r[k] by {
            if j < k {
                assert(cands.contains(r[k]));
                assert(r.take(k)[j] == r[j]);
            } else {
                assert(cands.contains(r[j]));
                assert(r.take(j)[k] == r[k]);
            }
        }
    }
    r.unique_seq_to_set();
    cands.unique_seq_to_set();
    assert forall|x: Name| r.to_set().contains(x) implies cands.to_set().contains(x) by {
        let j = choose|j: int| 0 <= j < r.len() && r[j] == x;
        assert(cands.contains(r[j]));
    }
    vstd::set_lib::lemma_subset_equality(r.to_set(), cands.to_set());
    assert forall|c: int| 0 <= c < cands.len() implies r.contains(#[trigger] cands[c]) by {
        assert(cands.to_set().contains(cands[c]));
        assert(r.to_set().contains(cands[c]));
    }
}

// ---------------------------------------------------------------------------
// Stage 1 bookkeeping
// ---------------------------------------------------------------------------

/// Every kept ranking decoded to `|cands|` distinct candidates, and the
/// dropped voters come in the order they voted.
proof fn lemma_classify_facts(raw: Seq<(Name, Seq<u8>)>, cands: Seq<Name>, plaintexts: Seq<Option<Seq<u8>>>)
    ensures
        is_subseq(classify(raw, cands, plaintexts).dropped, voters(raw)),
        forall|i: int|
            0 <= i < classify(raw, cands, plaintexts).valid.len() ==> (#[trigger] classify(
                raw,
                cands,
                plaintexts,
            ).valid[i]).1.len() == cands.len() && first_bad_rank(
                classify(raw, cands, plaintexts).valid[i].1,
                cands,
                0,
            ) is None,
    decreases raw.len(),
{
    if raw.len() > 0 {
        let prefix = raw.drop_last();
        let pp = plaintexts.drop_last();
        lemma_classify_facts(prefix, cands, pp);
        let prev = classify(prefix, cands, pp);
        let e = raw.last();
        assert(voters(raw) =~= voters(prefix).push(e.0));
        match decode_ballot(plaintexts.last(), cands) {
            Ok(r) => {
                lemma_subseq_push_right(prev.dropped, voters(prefix), e.0);
                assert(classify(raw, cands, plaintexts).valid =~= prev.valid.push((e.0, r)));
            },
            Err(_) => {
                lemma_subseq_push_both(prev.dropped, voters(prefix), e.0);
            },
        }
    }
}

// ---------------------------------------------------------------------------
// Round rows
// ---------------------------------------------------------------------------

proof fn lemma_rows_ok(rounds: Seq<CountRow>, cands: Seq<Name>, tallied: u32, from: int)
    requires
        0 <= from,
        forall|j: int|
            from <= j < rounds.len() ==> sum_counts(#[trigger] rounds[j]) == tallied && is_subseq(
                row_names(rounds[j]),
                cands,
            ),
    ensures
        rows_error_from(rounds, cands, tallied, from) is None,
    decreases rounds.len() - from,
{
    if from < rounds.len() {
        assert(sum_counts(rounds[from]) == tallied);
        lemma_rows_ok(rounds, cands, tallied, from + 1);
    }
}

// ---------------------------------------------------------------------------
// The law
// ---------------------------------------------------------------------------

/// An honest tally is accepted: when the raw ballots come from distinct
/// candidates in candidate-declaration order, over a non-empty list of
/// distinct candidates, the tally of whatever the decryption of those
/// ballots gave passes every well-formedness clause the contract checks
/// (cardinalities, declaration order, the partition of the electorate into
/// tallied, dropped and non-voting, per-round sums, and no eliminated
/// candidate reappearing).
pub proof fn law_honest_tally_well_formed(
    raw: Seq<(Name, Seq<u8>)>,
    cands: Seq<Name>,
    plaintexts: Seq<Option<Seq<u8>>>,
)
    requires
        cands.len() > 0,
        cands.len() <= u32::MAX,
        cands.no_duplicates(),
        is_subseq(voters(raw), cands),
    ensures
        tally_error(cands, tally_of(stage1(raw, cands, plaintexts), cands)) is None,
{
    let d = stage1(raw, cands, plaintexts);
    let c = classify(raw, cands, plaintexts);
    let t = tally_of(d, cands);
    let valid: Entries = d.valid;
    let r = irv(valid, cands);
    let n = cands.len();

    // Stage 1 partition.
    lemma_classify_sizes(raw, cands, plaintexts);
    lemma_classify_facts(raw, cands, plaintexts);
    assert(voters(raw).len() == raw.len());
    lemma_subseq_len(voters(raw), cands);
    lemma_filter_out_len(voters(raw), cands, not_voted(raw));
    lemma_filter_subseq(cands, not_voted(raw));
    lemma_subseq_trans(c.dropped, voters(raw), cands);
    assert(valid.len() + d.dropped.len() == raw.len());
    assert(d.non_voters.len() == n - raw.len());

    // Winners and rounds.
    law_irv_shape(valid, cands);
    lemma_subseq_len(r.winners, cands);

    // Full preferential ballots.
    assert(ranks_all(valid, cands)) by {
        assert forall|b: int, k: int| 0 <= b < valid.len() && 0 <= k < cands.len() implies #[trigger] valid[b].1.contains(
            #[trigger] cands[k],
        ) by {
            assert(c.valid[b] == valid[b]);
            lemma_ranking_covers(valid[b].1, cands);
        }
    }
    law_irv_rows_sum(valid, cands);
    law_irv_no_reappearance(valid, cands);

    // Partition equation.
    assert(partition_ok(t, n));

    // Dropped voters and non-voters are disjoint.
    assert(disjoint(t.dropped_voters, t.non_voters)) by {
        assert forall|i: int, j: int| 0 <= i < t.dropped_voters.len() && 0 <= j < t.non_voters.len() implies t.dropped_voters[i]
            != t.non_voters[j] by {
            let x = t.dropped_voters[i];
            assert(c.dropped.contains(x));
            lemma_subseq_contains(c.dropped, voters(raw), x);
            broadcast use vstd::seq_lib::group_filter_ensures;
            assert(not_voted(raw)(cands.filter(not_voted(raw))[j]));
        }
    }

    // Per-round rows.
    assert forall|j: int| 0 <= j < r.per_round_counts.len() implies sum_counts(#[trigger] r.per_round_counts[j])
        == r.ballots_tallied && is_subseq(row_names(r.per_round_counts[j]), cands) by {
        assert(sum_counts(r.per_round_counts[j]) == r.ballots_tallied);
        assert(is_subseq(row_names(r.per_round_counts[j]), cands));
    }
    lemma_rows_ok(r.per_round_counts, cands, r.ballots_tallied, 0);

    assert(elims_ordered(r.eliminated_by_round, cands)) by {
        assert forall|i: int| 0 <= i < r.eliminated_by_round.len() implies is_subseq(
            #[trigger] r.eliminated_by_round[i],
            cands,
        ) by {
            assert(is_subseq(r.eliminated_by_round[i], cands));
        }
    }

    assert(!reappears(r.per_round_counts, r.eliminated_by_round)) by {
        if reappears(r.per_round_counts, r.eliminated_by_round) {
            let (j, k, i, m) = choose|j: int, k: int, i: int, m: int|
                0 <= j < r.per_round_counts.len() && 0 <= k < r.per_round_counts[j].len() && 0 <= i < j && i
                    < r.eliminated_by_round.len() && 0 <= m < r.eliminated_by_round[i].len()
                    && #[trigger] r.eliminated_by_round[i][m] == #[trigger] r.per_round_counts[j][k].0;
            assert(!row_names(r.per_round_counts[j]).contains(r.eliminated_by_round[i][m]));
            assert(row_names(r.per_round_counts[j])[k] == r.per_round_counts[j][k].0);
        }
    }
}

/// An honest publication is accepted: while the election is tallying, the
/// enclave's tally of the stored ballots (given in candidate-declaration
/// order, whatever their decryption gave), attested over the registered
/// image with its commit under the tally tag and a verified proof, passes
/// `PublishResult`.
pub proof fn law_honest_publish_accepted(
    s: StateView,
    env: EnvView,
    raw: Seq<(Name, Seq<u8>)>,
    plaintexts: Seq<Option<Seq<u8>>>,
    commit: Seq<u8>,
    pi: Seq<u8>,
    mrtd: Seq<u8>,
    rtmr0: Seq<u8>,
    rtmr1: Seq<u8>,
    rtmr2: Seq<u8>,
    rtmr3: Seq<u8>,
    tcb_status: u8,
    timestamp: u64,
)
    requires
        s.election is Some,
        phase_of(s, env.time) == Some(Phase::Tallying),
        s.election->0.candidates.len() > 0,
        s.election->0.candidates.len() <= u32::MAX,
        s.election->0.candidates.no_duplicates(),
        distinct_voters(s.ballots),
        distinct_voters(raw),
        forall|x: (Name, Seq<u8>)| raw.contains(x) <==> s.ballots.contains(x),
        is_subseq(voters(raw), s.election->0.candidates),
        commit.len() == 32,
        mrtd.len() == 48,
        rtmr0.len() == 48,
        rtmr1.len() == 48,
        rtmr2.len() == 48,
        rtmr3.len() == 48,
        matches_registry(s.registry, mrtd, rtmr0, rtmr1, rtmr2, rtmr3, tcb_status),
        is_synthetic(pi, mrtd, rtmr0, rtmr1, rtmr2, rtmr3, tagged(commit, DST_TALLY@), tcb_status, timestamp),
    ensures
        ({
            let e = s.election->0;
            let t = tally_of(stage1(raw, e.candidates, plaintexts), e.candidates);
            commit == sha256_spec(
                canonical_bytes(
                    env.contract_address,
                    env.chain_id,
                    e.id,
                    sha256_spec(ballots_preimage(e.candidates, raw)),
                    sha256_spec(names_preimage(e.candidate_names)),
                    t,
                ),
            ) ==> publish_error(s, env, t, pi, GnarkVerdict::Verified) is None
        }),
{
    let e = s.election->0;
    let t = tally_of(stage1(raw, e.candidates, plaintexts), e.candidates);
    law_honest_tally_well_formed(raw, e.candidates, plaintexts);
    assert(distinct_candidate_voters(raw, e.candidates));
    assert(distinct_candidate_voters(s.ballots, e.candidates));
    law_ballots_hash_order_free(e.candidates, raw, s.ballots);
    law_attested_publish_accepted(pi, s.registry, commit, mrtd, rtmr0, rtmr1, rtmr2, rtmr3, tcb_status, timestamp);
    assert(commit == sha256_spec(
        canonical_bytes(
            env.contract_address,
            env.chain_id,
            e.id,
            sha256_spec(ballots_preimage(e.candidates, raw)),
            sha256_spec(names_preimage(e.candidate_names)),
            t,
        ),
    ) ==> commit == expected_commit(s, env, t));
}

} // verus!
