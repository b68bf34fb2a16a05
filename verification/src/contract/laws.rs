//! What the contract's transitions guarantee together: the stored tally is
//! written once per election, only after voting ends; ballots come only
//! from candidates, once each, and are counted; the registry in force
//! changes only through a timelocked proposal; election ids increase.
use vstd::prelude::*;
use crate::binding::sat_u32;
use crate::contract::error::{ErrorView, GnarkVerdict};
use crate::contract::handlers::{
    cancel_post, close_error, create_error, create_post, finalize_error, finalize_post, has_ballot, phase_of,
    plus_seconds_fits, propose_error, propose_post, publish_error, publish_post, submit_error, submit_post,
};
use crate::contract::keys::{ballot_slot, key_lt, keys_sorted, lemma_ballot_slot, lemma_key_order};
use crate::contract::state::{phase_at, EnvView, Phase, RegistryView, StateView};
use crate::types::{Name, TallyView};

verus! {

/// Every stored ballot belongs to a candidate of the stored election.
pub open spec fn ballots_within(s: StateView) -> bool {
    forall|i: int|
        0 <= i < s.ballots.len() ==> s.election is Some && s.election->0.candidates.contains(
            #[trigger] s.ballots[i].0,
        )
}

/// No voter has two stored ballots, and the election's ballot count is
/// the number of stored ballots (saturating at `u32::MAX`).
pub open spec fn ballots_counted(s: StateView) -> bool {
    &&& forall|i: int, j: int| 0 <= i < j < s.ballots.len() ==> s.ballots[i].0 != s.ballots[j].0
    &&& s.election matches Some(e) ==> e.ballot_count == sat_u32(s.ballots.len())
}

/// A successful publish stores exactly the published tally and resolves
/// the election; no transition but creating the next election changes a
/// stored tally.
pub proof fn b1_tally_result_present_after_publish(
    s: StateView,
    env: EnvView,
    tally: TallyView,
    public_inputs: Seq<u8>,
    v: GnarkVerdict,
    sender: Name,
    ciphertext: Seq<u8>,
    reg: RegistryView,
)
    ensures
        publish_error(s, env, tally, public_inputs, v) is None ==> publish_post(s, tally).tally_result
            == Some(tally) && phase_of(publish_post(s, tally), env.time) == Some(Phase::Resolved),
        submit_error(s, env.time, sender) is None ==> submit_post(s, sender, ciphertext).tally_result
            == s.tally_result,
        propose_post(s, env.time, reg).tally_result == s.tally_result,
        finalize_post(s).tally_result == s.tally_result,
        cancel_post(s).tally_result == s.tally_result,
{
}

/// Once a tally is stored, publishing again is refused as already
/// resolved.
pub proof fn already_resolved_enforced(
    s: StateView,
    env: EnvView,
    tally: TallyView,
    public_inputs: Seq<u8>,
    v: GnarkVerdict,
)
    requires
        s.election is Some,
        s.tally_result is Some,
    ensures
        publish_error(s, env, tally, public_inputs, v) == Some(ErrorView::AlreadyResolved),
{
}

/// A tally is accepted only at or after the election's end.
pub proof fn s10_resolution_after_end_at(
    s: StateView,
    env: EnvView,
    tally: TallyView,
    public_inputs: Seq<u8>,
    v: GnarkVerdict,
)
    requires
        publish_error(s, env, tally, public_inputs, v) is None,
    ensures
        s.election is Some,
        env.time >= s.election->0.end_at,
        env.time >= s.election->0.start_at,
        close_error(s, env.time) is None,
{
}

/// A voter with a stored ballot cannot submit another; while voting is
/// open and the voter is a candidate, the refusal is "already voted" (and
/// a refused call leaves the state, this ballot included, unchanged).
pub proof fn already_voted_enforced(s: StateView, now: u64, voter: Name)
    requires
        has_ballot(s.ballots, voter),
    ensures
        submit_error(s, now, voter) is Some,
        s.election is Some && phase_of(s, now) == Some(Phase::Voting) && s.election->0.candidates.contains(
            voter,
        ) ==> submit_error(s, now, voter) == Some(ErrorView::AlreadyVoted),
{
}

/// Stored ballots always belong to candidates: an accepted submission
/// comes from a candidate, creating an election clears the ballots, and
/// no other transition touches ballots or candidates.
pub proof fn s4_ballot_keys_subset_of_candidates(
    s: StateView,
    env: EnvView,
    sender: Name,
    ciphertext: Seq<u8>,
    tally: TallyView,
    reg: RegistryView,
    title: Seq<char>,
    candidates: Seq<Name>,
    names: Seq<Seq<char>>,
    start_at: u64,
    end_at: u64,
    pubkey: Seq<u8>,
)
    requires
        ballots_within(s),
    ensures
        submit_error(s, env.time, sender) is None ==> s.election->0.candidates.contains(sender)
            && ballots_within(submit_post(s, sender, ciphertext)),
        ballots_within(create_post(s, env, title, candidates, names, start_at, end_at, pubkey)),
        ballots_within(publish_post(s, tally)),
        ballots_within(propose_post(s, env.time, reg)),
        s.pending_registry is Some ==> ballots_within(finalize_post(s)),
        ballots_within(cancel_post(s)),
{
    if submit_error(s, env.time, sender) is None {
        let t = submit_post(s, sender, ciphertext);
        let p = ballot_slot(s.ballots, sender, 0);
        lemma_ballot_slot(s.ballots, sender, 0);
        s.ballots.insert_ensures(p, (sender, ciphertext));
        assert forall|i: int| 0 <= i < t.ballots.len() implies t.election is Some
            && t.election->0.candidates.contains(#[trigger] t.ballots[i].0) by {
            if i < p {
                assert(t.ballots[i] == s.ballots[i]);
            } else if i > p {
                assert(t.ballots[i] == s.ballots[i - 1]);
            }
        }
    }
    let c = create_post(s, env, title, candidates, names, start_at, end_at, pubkey);
    assert(c.ballots.len() == 0);
    let p = publish_post(s, tally);
    assert(p.ballots == s.ballots && p.election == s.election);
    let q = propose_post(s, env.time, reg);
    assert(q.ballots == s.ballots && q.election == s.election);
    let f = finalize_post(s);
    assert(f.ballots == s.ballots && f.election == s.election);
    let k = cancel_post(s);
    assert(k.ballots == s.ballots && k.election == s.election);
}

/// Ballots stay one per voter and the election's count matches them.
pub proof fn law_ballot_bookkeeping(
    s: StateView,
    env: EnvView,
    sender: Name,
    ciphertext: Seq<u8>,
    title: Seq<char>,
    candidates: Seq<Name>,
    names: Seq<Seq<char>>,
    start_at: u64,
    end_at: u64,
    pubkey: Seq<u8>,
)
    requires
        ballots_counted(s),
    ensures
        submit_error(s, env.time, sender) is None ==> ballots_counted(submit_post(s, sender, ciphertext)),
        ballots_counted(create_post(s, env, title, candidates, names, start_at, end_at, pubkey)),
{
    if submit_error(s, env.time, sender) is None {
        let t = submit_post(s, sender, ciphertext);
        let p = ballot_slot(s.ballots, sender, 0);
        lemma_ballot_slot(s.ballots, sender, 0);
        s.ballots.insert_ensures(p, (sender, ciphertext));
        assert forall|i: int, j: int| 0 <= i < j < t.ballots.len() implies t.ballots[i].0 != t.ballots[j].0 by {
            let si = if i < p { i } else { i - 1 };
            let sj = if j < p { j } else { j - 1 };
            if i != p {
                assert(t.ballots[i] == s.ballots[si]);
            }
            if j != p {
                assert(t.ballots[j] == s.ballots[sj]);
            }
            if i == p && s.ballots[sj].0 == sender {
                assert(has_ballot(s.ballots, sender));
            }
            if j == p && s.ballots[si].0 == sender {
                assert(has_ballot(s.ballots, sender));
            }
        }
    }
}

/// Stored ballots stay in ascending key order, the order the ballot map
/// keeps and the ballots query answers in: creating an election starts
/// from none, and an accepted ballot goes to its place.
pub proof fn law_ballots_in_key_order(
    s: StateView,
    env: EnvView,
    sender: Name,
    ciphertext: Seq<u8>,
    title: Seq<char>,
    candidates: Seq<Name>,
    names: Seq<Seq<char>>,
    start_at: u64,
    end_at: u64,
    pubkey: Seq<u8>,
)
    requires
        keys_sorted(s.ballots),
    ensures
        submit_error(s, env.time, sender) is None ==> keys_sorted(submit_post(s, sender, ciphertext).ballots),
        keys_sorted(create_post(s, env, title, candidates, names, start_at, end_at, pubkey).ballots),
{
    if submit_error(s, env.time, sender) is None {
        let t = submit_post(s, sender, ciphertext);
        let p = ballot_slot(s.ballots, sender, 0);
        lemma_ballot_slot(s.ballots, sender, 0);
        s.ballots.insert_ensures(p, (sender, ciphertext));
        if p < s.ballots.len() {
            if s.ballots[p].0 == sender {
                assert(has_ballot(s.ballots, sender));
            }
            lemma_key_order(s.ballots[p].0, sender, sender);
        }
        assert forall|i: int, j: int| 0 <= i < j < t.ballots.len() implies key_lt(
            #[trigger] t.ballots[i].0,
            #[trigger] t.ballots[j].0,
        ) by {
            if i < p {
                assert(t.ballots[i] == s.ballots[i]);
                if j < p {
                    assert(t.ballots[j] == s.ballots[j]);
                } else if j == p {
                } else {
                    assert(t.ballots[j] == s.ballots[j - 1]);
                }
            } else if i == p {
                assert(t.ballots[j] == s.ballots[j - 1]);
                if j - 1 > p {
                    lemma_key_order(sender, s.ballots[p].0, s.ballots[j - 1].0);
                }
            } else {
                assert(t.ballots[i] == s.ballots[i - 1]);
                assert(t.ballots[j] == s.ballots[j - 1]);
            }
        }
    }
}

/// The registry in force changes only by finalizing a proposal whose
/// delay has passed, and a proposal's delay is the configured one.
pub proof fn law_registry_timelock(
    s: StateView,
    env: EnvView,
    sender: Name,
    reg: RegistryView,
    ciphertext: Seq<u8>,
    tally: TallyView,
    title: Seq<char>,
    candidates: Seq<Name>,
    names: Seq<Seq<char>>,
    start_at: u64,
    end_at: u64,
    pubkey: Seq<u8>,
)
    ensures
        finalize_error(s, env.time) is None ==> env.time >= s.pending_registry->0.apply_after
            && finalize_post(s).registry == s.pending_registry->0.registry,
        plus_seconds_fits(env.time, s.config.registry_update_delay_seconds) && propose_error(
            s,
            env.time,
            sender,
            reg,
        ) is None ==> propose_post(s, env.time, reg).pending_registry->0.apply_after == env.time
            + s.config.registry_update_delay_seconds * 1_000_000_000 && propose_post(
            s,
            env.time,
            reg,
        ).registry == s.registry,
        create_post(s, env, title, candidates, names, start_at, end_at, pubkey).registry == s.registry,
        submit_error(s, env.time, sender) is None ==> submit_post(s, sender, ciphertext).registry == s.registry,
        publish_post(s, tally).registry == s.registry,
        cancel_post(s).registry == s.registry,
{
}

/// The registry in force does not change while an election is voting or
/// tallying: finalizing a proposal is refused then, whatever its delay.
pub proof fn law_no_finalize_while_active(s: StateView, now: u64)
    requires
        s.election matches Some(e) && (phase_at(now, e.start_at, e.end_at, s.tally_result is Some)
            == Phase::Voting || phase_at(now, e.start_at, e.end_at, s.tally_result is Some) == Phase::Tallying),
    ensures
        finalize_error(s, now) is Some,
{
}

/// An election is created only over pairwise distinct candidates, and the
/// stored election lists exactly those candidates.
pub proof fn law_created_candidates_distinct(
    s: StateView,
    env: EnvView,
    sender: Name,
    title: Seq<char>,
    candidates: Seq<Name>,
    names: Seq<Seq<char>>,
    start_at: u64,
    end_at: u64,
    pubkey: Seq<u8>,
    public_inputs: Seq<u8>,
    v: GnarkVerdict,
)
    requires
        create_error(s, env, sender, candidates, names, start_at, end_at, pubkey, public_inputs, v) is None,
    ensures
        forall|i: int, j: int| 0 <= i < j < candidates.len() ==> #[trigger] candidates[i] != #[trigger] candidates[j],
        create_post(s, env, title, candidates, names, start_at, end_at, pubkey).election matches Some(e)
            && e.candidates == candidates,
{
    assert forall|i: int, j: int| 0 <= i < j < candidates.len() implies #[trigger] candidates[i]
        != #[trigger] candidates[j] by {
        assert(candidates.no_duplicates());
    }
}

/// Each created election takes the next id, and its id is the counter.
pub proof fn law_election_ids_increase(
    s: StateView,
    env: EnvView,
    title: Seq<char>,
    candidates: Seq<Name>,
    names: Seq<Seq<char>>,
    start_at: u64,
    end_at: u64,
    pubkey: Seq<u8>,
)
    requires
        s.election_counter < u64::MAX,
    ensures
        create_post(s, env, title, candidates, names, start_at, end_at, pubkey).election_counter
            == s.election_counter + 1,
        create_post(s, env, title, candidates, names, start_at, end_at, pubkey).election->0.id
            == s.election_counter + 1,
        create_post(s, env, title, candidates, names, start_at, end_at, pubkey).tally_result is None,
{
}

/// The order of the phases: created, voting, tallying, resolved.
pub open spec fn phase_rank(p: Phase) -> nat {
    match p {
        Phase::Created => 0,
        Phase::Voting => 1,
        Phase::Tallying => 2,
        Phase::Resolved => 3,
    }
}

/// The phase never moves back as time passes or once a tally is stored;
/// without a tally, voting is exactly the window `[start_at, end_at)`.
pub proof fn law_phase_progresses(now: u64, later: u64, start_at: u64, end_at: u64, has_tally: bool)
    requires
        now <= later,
    ensures
        phase_rank(phase_at(now, start_at, end_at, has_tally)) <= phase_rank(phase_at(later, start_at, end_at, has_tally)),
        phase_rank(phase_at(now, start_at, end_at, false)) <= phase_rank(phase_at(now, start_at, end_at, true)),
        (phase_at(now, start_at, end_at, false) == Phase::Voting) <==> (start_at <= now && now < end_at),
        phase_at(now, start_at, end_at, true) == Phase::Resolved,
{
}

} // verus!
