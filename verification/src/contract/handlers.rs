//! The contract's transitions. Each handler either refuses, leaving the
//! state as it was, or moves it to the state its model names.
use vstd::prelude::*;
use crate::binding::{compute_ballots_hash, compute_commit_hash, compute_names_hash, ballots_preimage, names_preimage};
use crate::codec::canonical_bytes;
use crate::contract::checks::{names_error, pubkey_shape_ok, registry_error, validate_candidate_names, validate_enclave_pubkey, validate_registry};
use crate::contract::error::{ContractError, ErrorView, GnarkVerdict};
use crate::contract::keys::{ballot_slot, ballot_slot_of, lemma_ballot_slot};
use crate::contract::quote::{publish_quote_error, registration_quote_error, verify_publish_quote, verify_registration_quote};
use crate::contract::state::{derive_phase, phase_at, BlockEnv, Config, ContractState, Election, ElectionView, EnclaveImageRegistry, EnvView, PendingRegistry, PendingView, Phase, RegistryView, StateView};
use crate::contract::tally_check::{check_tally_well_formed, tally_error};
use crate::digest::sha256_spec;
use crate::types::{Name, TallyResult, TallyView};

verus! {

// ---------------------------------------------------------------------------
// Model
// ---------------------------------------------------------------------------

/// The phase of the stored election at `now`, if there is one.
pub open spec fn phase_of(s: StateView, now: u64) -> Option<Phase> {
    match s.election {
        Some(e) => Some(phase_at(now, e.start_at, e.end_at, s.tally_result is Some)),
        None => None,
    }
}

/// An election is voting or tallying at `now`.
pub open spec fn active(s: StateView, now: u64) -> bool {
    phase_of(s, now) == Some(Phase::Voting) || phase_of(s, now) == Some(Phase::Tallying)
}

/// `voter` has a stored ballot.
pub open spec fn has_ballot(ballots: Seq<(Name, Seq<u8>)>, voter: Name) -> bool {
    exists|i: int| 0 <= i < ballots.len() && #[trigger] ballots[i].0 == voter
}

/// The index of the entry keyed `k`, if any.
pub open spec fn key_index<X>(m: Seq<(u64, X)>, k: u64) -> Option<int>
    decreases m.len(),
{
    if m.len() == 0 {
        None
    } else if m.last().0 == k {
        Some(m.len() - 1)
    } else {
        key_index(m.drop_last(), k)
    }
}

/// `m` with the entry keyed `k` replaced by, or extended with, `(k, v)`.
pub open spec fn save_entry<X>(m: Seq<(u64, X)>, k: u64, v: X) -> Seq<(u64, X)> {
    match key_index(m, k) {
        Some(i) => m.remove(i).push((k, v)),
        None => m.push((k, v)),
    }
}

/// The state with the resolved election (and its tally) archived.
pub open spec fn archive(s: StateView) -> StateView {
    let prev = s.election->0;
    StateView {
        historical_tallies: match s.tally_result {
            Some(t) => save_entry(s.historical_tallies, prev.id, t),
            None => s.historical_tallies,
        },
        historical_elections: save_entry(s.historical_elections, prev.id, prev),
        ..s
    }
}

/// Why `CreateElection` is refused, if it is.
pub open spec fn create_error(
    s: StateView,
    env: EnvView,
    sender: Name,
    candidates: Seq<Name>,
    names: Seq<Seq<char>>,
    start_at: u64,
    end_at: u64,
    pubkey: Seq<u8>,
    public_inputs: Seq<u8>,
    v: GnarkVerdict,
) -> Option<ErrorView> {
    if sender != s.config.admin {
        Some(ErrorView::Unauthorized)
    } else if s.pending_registry is Some {
        Some(ErrorView::PendingRegistryUpdateBlocksCreateElection)
    } else if active(s, env.time) {
        Some(ErrorView::ElectionAlreadyActive)
    } else if candidates.len() < 2 {
        Some(ErrorView::NotEnoughCandidates)
    } else if !candidates.no_duplicates() {
        Some(ErrorView::DuplicateCandidate)
    } else if names_error(candidates.len(), names) is Some {
        names_error(candidates.len(), names)
    } else if start_at >= end_at || start_at < env.time {
        Some(ErrorView::InvalidVotingWindow)
    } else if !pubkey_shape_ok(pubkey) {
        Some(ErrorView::InvalidEnclavePubkey { got: pubkey.len() as usize })
    } else {
        registration_quote_error(
            public_inputs,
            s.registry,
            pubkey,
            env.contract_address,
            (s.election_counter + 1) as u64,
            sha256_spec(names_preimage(names)),
            v,
        )
    }
}

/// The state after `CreateElection` succeeds: a resolved predecessor is
/// archived, ballots and tally are cleared, the counter advances and the
/// new election is stored under it.
pub open spec fn create_post(
    s: StateView,
    env: EnvView,
    title: Seq<char>,
    candidates: Seq<Name>,
    names: Seq<Seq<char>>,
    start_at: u64,
    end_at: u64,
    pubkey: Seq<u8>,
) -> StateView {
    let base = if phase_of(s, env.time) == Some(Phase::Resolved) {
        archive(s)
    } else {
        s
    };
    let id = (s.election_counter + 1) as u64;
    StateView {
        election_counter: id,
        election: Some(
            ElectionView {
                id,
                title,
                candidates,
                candidate_names: names,
                start_at,
                end_at,
                ballot_count: 0,
                enclave_pubkey: pubkey,
            },
        ),
        tally_result: None,
        ballots: Seq::empty(),
        ..base
    }
}

/// Why `SubmitBallot` is refused, if it is.
pub open spec fn submit_error(s: StateView, now: u64, sender: Name) -> Option<ErrorView> {
    match s.election {
        None => Some(ErrorView::NoElection),
        Some(e) => if phase_of(s, now) != Some(Phase::Voting) {
            Some(ErrorView::NotVoting)
        } else if !e.candidates.contains(sender) {
            Some(ErrorView::VoterNotCandidate)
        } else if has_ballot(s.ballots, sender) {
            Some(ErrorView::AlreadyVoted)
        } else {
            None
        },
    }
}

/// `n + 1`, saturating at `u32::MAX`.
pub open spec fn sat_inc(n: u32) -> u32 {
    if n == u32::MAX {
        n
    } else {
        (n + 1) as u32
    }
}

/// The state after `SubmitBallot` succeeds: the ballot is stored at its
/// place in key order and the count goes up by one (saturating).
pub open spec fn submit_post(s: StateView, sender: Name, ciphertext: Seq<u8>) -> StateView {
    let e = s.election->0;
    StateView {
        ballots: s.ballots.insert(ballot_slot(s.ballots, sender, 0), (sender, ciphertext)),
        election: Some(ElectionView { ballot_count: sat_inc(e.ballot_count), ..e }),
        ..s
    }
}

/// Why `CloseAndTally` is refused, if it is.
pub open spec fn close_error(s: StateView, now: u64) -> Option<ErrorView> {
    match s.election {
        None => Some(ErrorView::NoElection),
        Some(_) => if phase_of(s, now) != Some(Phase::Tallying) {
            Some(ErrorView::NotTallying)
        } else {
            None
        },
    }
}

/// The commit a publish quote for `tally` must carry in this state.
pub open spec fn expected_commit(s: StateView, env: EnvView, tally: TallyView) -> Seq<u8> {
    let e = s.election->0;
    sha256_spec(
        canonical_bytes(
            env.contract_address,
            env.chain_id,
            e.id,
            sha256_spec(ballots_preimage(e.candidates, s.ballots)),
            sha256_spec(names_preimage(e.candidate_names)),
            tally,
        ),
    )
}

/// Why `PublishResult` is refused, if it is.
pub open spec fn publish_error(
    s: StateView,
    env: EnvView,
    tally: TallyView,
    public_inputs: Seq<u8>,
    v: GnarkVerdict,
) -> Option<ErrorView> {
    match s.election {
        None => Some(ErrorView::NoElection),
        Some(e) => if phase_of(s, env.time) == Some(Phase::Resolved) {
            Some(ErrorView::AlreadyResolved)
        } else if phase_of(s, env.time) != Some(Phase::Tallying) {
            Some(ErrorView::NotTallying)
        } else if tally_error(e.candidates, tally) is Some {
            Some(ErrorView::AttestationFailure(tally_error(e.candidates, tally)->0))
        } else {
            publish_quote_error(public_inputs, s.registry, expected_commit(s, env, tally), v)
        },
    }
}

/// The state after `PublishResult` succeeds: the tally is stored.
pub open spec fn publish_post(s: StateView, tally: TallyView) -> StateView {
    StateView { tally_result: Some(tally), ..s }
}

/// `now` plus `seconds`, in nanoseconds, fits in a `u64`.
pub open spec fn plus_seconds_fits(now: u64, seconds: u64) -> bool {
    now + seconds * 1_000_000_000 <= u64::MAX
}

/// Why `ProposeRegistryUpdate` is refused, if it is.
pub open spec fn propose_error(s: StateView, now: u64, sender: Name, reg: RegistryView) -> Option<ErrorView> {
    if sender != s.config.admin {
        Some(ErrorView::Unauthorized)
    } else if registry_error(reg) is Some {
        registry_error(reg)
    } else if active(s, now) {
        Some(ErrorView::RegistryUpdateDuringActiveElection)
    } else if s.pending_registry is Some {
        Some(ErrorView::RegistryUpdateAlreadyPending)
    } else {
        None
    }
}

/// The state after `ProposeRegistryUpdate` succeeds.
pub open spec fn propose_post(s: StateView, now: u64, reg: RegistryView) -> StateView {
    StateView {
        pending_registry: Some(
            PendingView {
                registry: reg,
                apply_after: (now + s.config.registry_update_delay_seconds * 1_000_000_000) as u64,
            },
        ),
        ..s
    }
}

/// Why `FinalizeRegistryUpdate` is refused, if it is.
pub open spec fn finalize_error(s: StateView, now: u64) -> Option<ErrorView> {
    match s.pending_registry {
        None => Some(ErrorView::NoPendingRegistryUpdate),
        Some(p) => if now < p.apply_after {
            Some(ErrorView::RegistryUpdateTimelockNotExpired)
        } else if active(s, now) {
            Some(ErrorView::FinalizeDuringActiveElection)
        } else {
            None
        },
    }
}

/// The state after `FinalizeRegistryUpdate` succeeds.
pub open spec fn finalize_post(s: StateView) -> StateView {
    StateView { registry: s.pending_registry->0.registry, pending_registry: None, ..s }
}

/// Why `CancelRegistryUpdate` is refused, if it is.
pub open spec fn cancel_error(s: StateView, sender: Name) -> Option<ErrorView> {
    if sender != s.config.admin {
        Some(ErrorView::Unauthorized)
    } else {
        None
    }
}

/// The state after `CancelRegistryUpdate` succeeds.
pub open spec fn cancel_post(s: StateView) -> StateView {
    StateView { pending_registry: None, ..s }
}

// ---------------------------------------------------------------------------
// Helpers
// ---------------------------------------------------------------------------

fn current_phase(state: &ContractState, now: u64) -> (p: Option<Phase>)
    ensures
        p == phase_of(state@, now),
{
    match &state.election {
        Some(e) => Some(derive_phase(now, e, state.tally_result.is_some())),
        None => None,
    }
}

fn is_active(state: &ContractState, now: u64) -> (r: bool)
    ensures
        r == active(state@, now),
{
    match current_phase(state, now) {
        Some(Phase::Voting) => true,
        Some(Phase::Tallying) => true,
        _ => false,
    }
}

fn contains_name(xs: &Vec<String>, a: &String) -> (r: bool)
    ensures
        r == xs.deep_view().contains(a@),
{
    let n = xs.len();
    let mut i: usize = 0;
    while i < n
        invariant
            n == xs.len(),
            i <= n,
            forall|k: int| 0 <= k < i ==> xs.deep_view()[k] != a@,
        decreases n - i,
    {
        if xs[i] == *a {
            assert(xs.deep_view()[i as int] == a@);
            return true;
        }
        i += 1;
    }
    false
}

fn has_duplicate(xs: &Vec<String>) -> (r: bool)
    ensures
        r == !xs.deep_view().no_duplicates(),
{
    let ghost v = xs.deep_view();
    let n = xs.len();
    let mut i: usize = 0;
    while i < n
        invariant
            n == xs.len(),
            v == xs.deep_view(),
            i <= n,
            forall|a: int, b: int| 0 <= a < i && a < b < n ==> v[a] != v[b],
        decreases n - i,
    {
        let mut j: usize = i + 1;
        while j < n
            invariant
                n == xs.len(),
                v == xs.deep_view(),
                i < n,
                i + 1 <= j <= n,
                forall|a: int, b: int| 0 <= a < i && a < b < n ==> v[a] != v[b],
                forall|b: int| i < b < j ==> v[i as int] != v[b],
            decreases n - j,
        {
            if xs[i] == xs[j] {
                assert(v[i as int] == v[j as int]);
                return true;
            }
            j += 1;
        }
        i += 1;
    }
    assert forall|a: int, b: int| 0 <= a < v.len() && 0 <= b < v.len() && a != b implies v[a] != v[b] by {
        if a > b {
            assert(v[b] != v[a]);
        }
    }
    false
}

fn ballot_present(ballots: &Vec<(String, Vec<u8>)>, voter: &String) -> (r: bool)
    ensures
        r == has_ballot(ballots.deep_view(), voter@),
{
    let n = ballots.len();
    let mut i: usize = 0;
    while i < n
        invariant
            n == ballots.len(),
            i <= n,
            forall|k: int| 0 <= k < i ==> ballots.deep_view()[k].0 != voter@,
        decreases n - i,
    {
        if ballots[i].0 == *voter {
            assert(ballots.deep_view()[i as int].0 == voter@);
            return true;
        }
        i += 1;
    }
    false
}

fn find_key<X>(m: &Vec<(u64, X)>, k: u64) -> (r: Option<usize>)
    ensures
        match r {
            Some(i) => i < m@.len() && key_index(m@, k) == Some(i as int),
            None => key_index(m@, k) is None,
        },
{
    let mut i: usize = m.len();
    assert(m@.take(m@.len() as int) =~= m@);
    while i > 0
        invariant
            i <= m@.len(),
            key_index(m@, k) == key_index(m@.take(i as int), k),
        decreases i,
    {
        proof {
            assert(m@.take(i as int).drop_last() =~= m@.take(i - 1));
        }
        if m[i - 1].0 == k {
            return Some(i - 1);
        }
        i -= 1;
    }
    None
}

proof fn lemma_take_all<A>(s: Seq<A>)
    ensures
        s.take(s.len() as int) == s,
{
    assert(s.take(s.len() as int) =~= s);
}

fn save_tally(m: &mut Vec<(u64, TallyResult)>, k: u64, v: TallyResult)
    ensures
        Seq::new(final(m)@.len(), |i: int| (final(m)@[i].0, final(m)@[i].1@)) == save_entry(
            Seq::new(old(m)@.len(), |i: int| (old(m)@[i].0, old(m)@[i].1@)),
            k,
            v@,
        ),
{
    let ghost before = Seq::new(m@.len(), |i: int| (m@[i].0, m@[i].1@));
    proof {
        lemma_take_all(m@);
    }
    let found = find_key(m, k);
    proof {
        lemma_key_index_view(m@, k);
    }
    match found {
        Some(i) => {
            m.remove(i);
        },
        None => {},
    }
    let ghost mid = m@;
    m.push((k, v));
    proof {
        match found {
            Some(i) => {
                assert(Seq::new(m@.len(), |j: int| (m@[j].0, m@[j].1@)) =~= before.remove(i as int).push((k, v@)));
            },
            None => {
                assert(Seq::new(m@.len(), |j: int| (m@[j].0, m@[j].1@)) =~= before.push((k, v@)));
            },
        }
    }
}

fn save_election(m: &mut Vec<(u64, Election)>, k: u64, v: Election)
    ensures
        Seq::new(final(m)@.len(), |i: int| (final(m)@[i].0, final(m)@[i].1@)) == save_entry(
            Seq::new(old(m)@.len(), |i: int| (old(m)@[i].0, old(m)@[i].1@)),
            k,
            v@,
        ),
{
    let ghost before = Seq::new(m@.len(), |i: int| (m@[i].0, m@[i].1@));
    let found = find_key(m, k);
    proof {
        lemma_key_index_view(m@, k);
    }
    match found {
        Some(i) => {
            m.remove(i);
        },
        None => {},
    }
    m.push((k, v));
    proof {
        match found {
            Some(i) => {
                assert(Seq::new(m@.len(), |j: int| (m@[j].0, m@[j].1@)) =~= before.remove(i as int).push((k, v@)));
            },
            None => {
                assert(Seq::new(m@.len(), |j: int| (m@[j].0, m@[j].1@)) =~= before.push((k, v@)));
            },
        }
    }
}

/// The key index does not depend on the values.
proof fn lemma_key_index_view<X: View>(m: Seq<(u64, X)>, k: u64)
    ensures
        key_index(m, k) == key_index(Seq::new(m.len(), |i: int| (m[i].0, m[i].1@)), k),
    decreases m.len(),
{
    let mv = Seq::new(m.len(), |i: int| (m[i].0, m[i].1@));
    if m.len() > 0 {
        assert(mv.drop_last() =~= Seq::new(m.drop_last().len(), |i: int| (m.drop_last()[i].0, m.drop_last()[i].1@)));
        lemma_key_index_view(m.drop_last(), k);
    }
}

// ---------------------------------------------------------------------------
// Handlers
// ---------------------------------------------------------------------------

/// Messages that instantiate the contract.
#[derive(Clone, Debug)]
pub struct InstantiateMsg {
    pub admin: Option<String>,
    pub registry: EnclaveImageRegistry,
    pub voting_duration_seconds: u64,
    pub registry_update_delay_seconds: u64,
}

/// The initial state: the admin (the sender unless named), a valid
/// registry, and a zero election counter.
pub fn instantiate(sender: &String, msg: InstantiateMsg) -> (r: Result<ContractState, ContractError>)
    ensures
        match registry_error(msg.registry@) {
            Some(ev) => r matches Err(e) && e@ == ev,
            None => r matches Ok(st) && st@.config.admin == (match msg.admin {
                Some(a) => a@,
                None => sender@,
            }) && st@.config.voting_duration_seconds == msg.voting_duration_seconds
                && st@.config.registry_update_delay_seconds == msg.registry_update_delay_seconds
                && st@.registry == msg.registry@ && st@.election_counter == 0 && st@.election is None
                && st@.pending_registry is None && st@.tally_result is None && st@.ballots.len() == 0
                && st@.historical_tallies.len() == 0 && st@.historical_elections.len() == 0,
        },
{
    validate_registry(&msg.registry)?;
    let admin = match msg.admin {
        Some(a) => a,
        None => sender.clone(),
    };
    Ok(
        ContractState {
            config: Config {
                admin,
                voting_duration_seconds: msg.voting_duration_seconds,
                registry_update_delay_seconds: msg.registry_update_delay_seconds,
            },
            registry: msg.registry,
            election_counter: 0,
            election: None,
            pending_registry: None,
            tally_result: None,
            ballots: Vec::new(),
            historical_tallies: Vec::new(),
            historical_elections: Vec::new(),
        },
    )
}

/// Admin-only: creates the next election, after its registration quote
/// binds the enclave key to this contract, the new election id and the
/// candidate names. Returns the new election id.
pub fn exec_create_election(
    state: &mut ContractState,
    env: &BlockEnv,
    sender: &String,
    title: String,
    candidates: Vec<String>,
    candidate_names: Vec<String>,
    start_at: u64,
    end_at: u64,
    enclave_pubkey: Vec<u8>,
    public_inputs: Vec<u8>,
    verdict: &GnarkVerdict,
) -> (r: Result<u64, ContractError>)
    requires
        old(state).election_counter < u64::MAX,
    ensures
        match create_error(
            old(state)@,
            env@,
            sender@,
            candidates.deep_view(),
            candidate_names.deep_view(),
            start_at,
            end_at,
            enclave_pubkey@,
            public_inputs@,
            *verdict,
        ) {
            Some(ev) => r matches Err(e) && e@ == ev && final(state)@ == old(state)@,
            None => r == Ok::<u64, ContractError>((old(state).election_counter + 1) as u64) && final(state)@
                == create_post(
                old(state)@,
                env@,
                title@,
                candidates.deep_view(),
                candidate_names.deep_view(),
                start_at,
                end_at,
                enclave_pubkey@,
            ),
        },
        r is Ok ==> forall|i: int, j: int|
            0 <= i < j < candidates@.len() ==> #[trigger] candidates@[i]@ != #[trigger] candidates@[j]@,
        r is Ok ==> (final(state)@.election matches Some(e) && forall|i: int, j: int|
            0 <= i < j < e.candidates.len() ==> #[trigger] e.candidates[i] != #[trigger] e.candidates[j]),
{
    if *sender != state.config.admin {
        return Err(ContractError::Unauthorized);
    }
    if state.pending_registry.is_some() {
        return Err(ContractError::PendingRegistryUpdateBlocksCreateElection);
    }
    let phase = current_phase(state, env.time);
    if is_active(state, env.time) {
        return Err(ContractError::ElectionAlreadyActive);
    }
    if candidates.len() < 2 {
        return Err(ContractError::NotEnoughCandidates);
    }
    if has_duplicate(&candidates) {
        return Err(ContractError::DuplicateCandidate);
    }
    let cs = candidates.as_slice();
    let ns = candidate_names.as_slice();
    assert(ns.deep_view() =~= candidate_names.deep_view());
    validate_candidate_names(cs, ns)?;
    if start_at >= end_at {
        return Err(ContractError::InvalidVotingWindow);
    }
    if start_at < env.time {
        return Err(ContractError::InvalidVotingWindow);
    }
    validate_enclave_pubkey(enclave_pubkey.as_slice())?;
    let next_id = state.election_counter + 1;
    let names_hash = compute_names_hash(ns);
    verify_registration_quote(
        &state.registry,
        enclave_pubkey.as_slice(),
        env.contract_address.as_str(),
        next_id,
        &names_hash,
        public_inputs.as_slice(),
        verdict,
    )?;
    let ghost s0 = state@;
    if phase == Some(Phase::Resolved) {
        let prev = state.election.take().unwrap();
        let prev_id = prev.id;
        match state.tally_result.take() {
            Some(prior) => {
                save_tally(&mut state.historical_tallies, prev_id, prior);
            },
            None => {},
        }
        save_election(&mut state.historical_elections, prev_id, prev);
    }
    state.ballots = Vec::new();
    state.tally_result = None;
    state.election_counter = next_id;
    state.election = Some(
        Election {
            id: next_id,
            title,
            candidates,
            candidate_names,
            start_at,
            end_at,
            ballot_count: 0,
            enclave_pubkey,
        },
    );
    assert(state@.ballots =~= Seq::<(Name, Seq<u8>)>::empty());
    proof {
        let cv = candidates.deep_view();
        assert forall|i: int, j: int| 0 <= i < j < candidates@.len() implies #[trigger] candidates@[i]@
            != #[trigger] candidates@[j]@ by {
            assert(cv[i] == candidates@[i]@ && cv[j] == candidates@[j]@);
        }
    }
    Ok(next_id)
}

/// A candidate casts its (encrypted) ballot, once, while voting is open.
pub fn exec_submit_ballot(state: &mut ContractState, env: &BlockEnv, sender: &String, ciphertext: Vec<u8>) -> (r: Result<(), ContractError>)
    ensures
        match submit_error(old(state)@, env.time, sender@) {
            Some(ev) => r matches Err(e) && e@ == ev && final(state)@ == old(state)@,
            None => r is Ok && final(state)@ == submit_post(old(state)@, sender@, ciphertext@),
        },
{
    let phase = current_phase(state, env.time);
    match &state.election {
        None => {
            return Err(ContractError::NoElection);
        },
        Some(e) => {
            if phase != Some(Phase::Voting) {
                return Err(ContractError::NotVoting);
            }
            if !contains_name(&e.candidates, sender) {
                return Err(ContractError::VoterNotCandidate);
            }
        },
    }
    if ballot_present(&state.ballots, sender) {
        return Err(ContractError::AlreadyVoted);
    }
    let ghost ct = ciphertext@;
    assert(ciphertext.deep_view() =~= ct);
    let voter = sender.clone();
    let ghost entry = (voter, ciphertext);
    assert(entry.deep_view() == (sender@, ct));
    let slot = ballot_slot_of(&state.ballots, sender);
    proof {
        lemma_ballot_slot(old(state)@.ballots, sender@, 0);
    }
    state.ballots.insert(slot, (voter, ciphertext));
    let mut e = state.election.take().unwrap();
    e.ballot_count = e.ballot_count.saturating_add(1);
    state.election = Some(e);
    assert(state@.ballots =~= old(state)@.ballots.insert(slot as int, (sender@, ct)));
    Ok(())
}

/// Acknowledges that voting has closed; changes nothing. Returns the
/// election id.
pub fn exec_close_and_tally(state: &ContractState, env: &BlockEnv) -> (r: Result<u64, ContractError>)
    ensures
        match close_error(state@, env.time) {
            Some(ev) => r matches Err(e) && e@ == ev,
            None => r == Ok::<u64, ContractError>(state.election->0.id),
        },
{
    let phase = current_phase(state, env.time);
    match &state.election {
        None => Err(ContractError::NoElection),
        Some(e) => {
            if phase != Some(Phase::Tallying) {
                return Err(ContractError::NotTallying);
            }
            Ok(e.id)
        },
    }
}

/// Stores the enclave's tally once voting has ended, if it is well-formed
/// and its publish quote binds it to this contract, chain, election, the
/// stored ballots and the candidate names.
pub fn exec_publish_result(
    state: &mut ContractState,
    env: &BlockEnv,
    tally: TallyResult,
    public_inputs: Vec<u8>,
    verdict: &GnarkVerdict,
) -> (r: Result<(), ContractError>)
    ensures
        match publish_error(old(state)@, env@, tally@, public_inputs@, *verdict) {
            Some(ev) => r matches Err(e) && e@ == ev && final(state)@ == old(state)@,
            None => r is Ok && final(state)@ == publish_post(old(state)@, tally@),
        },
{
    let phase = current_phase(state, env.time);
    let commit = match &state.election {
        None => {
            return Err(ContractError::NoElection);
        },
        Some(e) => {
            if phase == Some(Phase::Resolved) {
                return Err(ContractError::AlreadyResolved);
            }
            if phase != Some(Phase::Tallying) {
                return Err(ContractError::NotTallying);
            }
            check_tally_well_formed(e, &tally)?;
            let cs = e.candidates.as_slice();
            let bs = state.ballots.as_slice();
            let ns = e.candidate_names.as_slice();
            assert(cs.deep_view() =~= e.candidates.deep_view());
            assert(bs.deep_view() =~= state.ballots.deep_view());
            assert(ns.deep_view() =~= e.candidate_names.deep_view());
            let ballots_hash = compute_ballots_hash(cs, bs);
            let names_hash = compute_names_hash(ns);
            compute_commit_hash(
                env.contract_address.as_str(),
                env.chain_id.as_str(),
                e.id,
                &ballots_hash,
                &names_hash,
                &tally,
            )
        },
    };
    verify_publish_quote(&state.registry, &commit, public_inputs.as_slice(), verdict)?;
    state.tally_result = Some(tally);
    Ok(())
}

/// Admin-only: proposes a registry, applicable after the configured delay.
/// Returns the time from which it can be finalized.
pub fn exec_propose_registry_update(
    state: &mut ContractState,
    env: &BlockEnv,
    sender: &String,
    new_registry: EnclaveImageRegistry,
) -> (r: Result<u64, ContractError>)
    requires
        plus_seconds_fits(env.time, old(state).config.registry_update_delay_seconds),
    ensures
        match propose_error(old(state)@, env.time, sender@, new_registry@) {
            Some(ev) => r matches Err(e) && e@ == ev && final(state)@ == old(state)@,
            None => r == Ok::<u64, ContractError>(
                (env.time + old(state).config.registry_update_delay_seconds * 1_000_000_000) as u64,
            ) && final(state)@ == propose_post(old(state)@, env.time, new_registry@),
        },
{
    if *sender != state.config.admin {
        return Err(ContractError::Unauthorized);
    }
    validate_registry(&new_registry)?;
    if is_active(state, env.time) {
        return Err(ContractError::RegistryUpdateDuringActiveElection);
    }
    if state.pending_registry.is_some() {
        return Err(ContractError::RegistryUpdateAlreadyPending);
    }
    let apply_after = env.time + state.config.registry_update_delay_seconds * 1_000_000_000;
    state.pending_registry = Some(PendingRegistry { registry: new_registry, apply_after });
    Ok(apply_after)
}

/// Anyone: applies the pending registry once its delay has passed and no
/// election is voting or tallying.
pub fn exec_finalize_registry_update(state: &mut ContractState, env: &BlockEnv) -> (r: Result<(), ContractError>)
    ensures
        match finalize_error(old(state)@, env.time) {
            Some(ev) => r matches Err(e) && e@ == ev && final(state)@ == old(state)@,
            None => r is Ok && final(state)@ == finalize_post(old(state)@),
        },
        r is Ok ==> !(old(state)@.election matches Some(e) && (phase_at(
            env.time,
            e.start_at,
            e.end_at,
            old(state)@.tally_result is Some,
        ) == Phase::Voting || phase_at(env.time, e.start_at, e.end_at, old(state)@.tally_result is Some)
            == Phase::Tallying)),
        (old(state)@.election matches Some(e) && (phase_at(
            env.time,
            e.start_at,
            e.end_at,
            old(state)@.tally_result is Some,
        ) == Phase::Voting || phase_at(env.time, e.start_at, e.end_at, old(state)@.tally_result is Some)
            == Phase::Tallying)) ==> r is Err && final(state)@.registry == old(state)@.registry,
{
    match &state.pending_registry {
        None => {
            return Err(ContractError::NoPendingRegistryUpdate);
        },
        Some(p) => {
            if env.time < p.apply_after {
                return Err(ContractError::RegistryUpdateTimelockNotExpired);
            }
        },
    }
    if is_active(state, env.time) {
        return Err(ContractError::FinalizeDuringActiveElection);
    }
    let pending = state.pending_registry.take().unwrap();
    state.registry = pending.registry;
    Ok(())
}

/// Admin-only: discards any pending registry.
pub fn exec_cancel_registry_update(state: &mut ContractState, sender: &String) -> (r: Result<(), ContractError>)
    ensures
        match cancel_error(old(state)@, sender@) {
            Some(ev) => r matches Err(e) && e@ == ev && final(state)@ == old(state)@,
            None => r is Ok && final(state)@ == cancel_post(old(state)@),
        },
{
    if *sender != state.config.admin {
        return Err(ContractError::Unauthorized);
    }
    state.pending_registry = None;
    Ok(())
}

} // verus!
