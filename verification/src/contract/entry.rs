//! The contract's messages: what `execute` dispatches to and what `query`
//! answers from the stored state.
use vstd::prelude::*;
use crate::contract::error::{ContractError, GnarkVerdict};
use crate::contract::handlers::{cancel_error, cancel_post, close_error, create_error, create_post, exec_cancel_registry_update, exec_close_and_tally, exec_create_election, exec_finalize_registry_update, exec_propose_registry_update, exec_publish_result, exec_submit_ballot, finalize_error, finalize_post, key_index, phase_of, plus_seconds_fits, propose_error, propose_post, publish_error, publish_post, submit_error, submit_post};
use crate::contract::state::{derive_phase, BlockEnv, Config, ContractState, Election, EnclaveImageRegistry, PendingRegistry, Phase};
use crate::types::TallyResult;

verus! {

/// Transactions the contract accepts.
#[derive(Clone, Debug)]
pub enum ExecuteMsg {
    CreateElection {
        title: String,
        candidates: Vec<String>,
        candidate_names: Vec<String>,
        start_at: u64,
        end_at: u64,
        enclave_pubkey: Vec<u8>,
        proof: Vec<u8>,
        public_inputs: Vec<u8>,
    },
    SubmitBallot { ciphertext: Vec<u8> },
    CloseAndTally {},
    PublishResult { tally: TallyResult, proof: Vec<u8>, public_inputs: Vec<u8> },
    ProposeRegistryUpdate { registry: EnclaveImageRegistry },
    FinalizeRegistryUpdate {},
    CancelRegistryUpdate {},
}

/// What a successful transaction reports.
#[derive(Clone, Debug, PartialEq, Eq)]
pub enum ExecOutcome {
    ElectionCreated { election_id: u64 },
    BallotSubmitted { voter: String },
    TallyClosed { election_id: u64 },
    ResultPublished { election_id: u64, winners_count: usize },
    RegistryUpdateProposed { apply_after: u64 },
    RegistryUpdateFinalized,
    RegistryUpdateCancelled,
}

/// Dispatches a transaction to its handler. `verdict` is the gnark
/// verifier's answer for the message's proof and public inputs (ignored by
/// messages that carry none).
pub fn execute(
    state: &mut ContractState,
    env: &BlockEnv,
    sender: &String,
    msg: ExecuteMsg,
    verdict: &GnarkVerdict,
) -> (r: Result<ExecOutcome, ContractError>)
    requires
        msg is CreateElection ==> old(state).election_counter < u64::MAX,
        msg is ProposeRegistryUpdate ==> plus_seconds_fits(env.time, old(state).config.registry_update_delay_seconds),
    ensures
        match msg {
            ExecuteMsg::CreateElection {
                title,
                candidates,
                candidate_names,
                start_at,
                end_at,
                enclave_pubkey,
                proof: _,
                public_inputs,
            } => match create_error(
                old(state)@,
                env@,
                sender@,
                candidates.deep_view(),
                candidate_names.deep_view(),
                start_at,
                end_at,
                enclave_pubkey@,
                public_inputs@,
                *verdict,
            ) {
                Some(ev) => r matches Err(e) && e@ == ev && final(state)@ == old(state)@,
                None => r == Ok::<ExecOutcome, ContractError>(
                    ExecOutcome::ElectionCreated { election_id: (old(state).election_counter + 1) as u64 },
                ) && final(state)@ == create_post(
                    old(state)@,
                    env@,
                    title@,
                    candidates.deep_view(),
                    candidate_names.deep_view(),
                    start_at,
                    end_at,
                    enclave_pubkey@,
                ),
            },
            ExecuteMsg::SubmitBallot { ciphertext } => match submit_error(old(state)@, env.time, sender@) {
                Some(ev) => r matches Err(e) && e@ == ev && final(state)@ == old(state)@,
                None => r matches Ok(ExecOutcome::BallotSubmitted { voter }) && voter@ == sender@ && final(state)@
                    == submit_post(old(state)@, sender@, ciphertext@),
            },
            ExecuteMsg::CloseAndTally {} => final(state)@ == old(state)@ && match close_error(old(state)@, env.time) {
                Some(ev) => r matches Err(e) && e@ == ev,
                None => r == Ok::<ExecOutcome, ContractError>(
                    ExecOutcome::TallyClosed { election_id: old(state).election->0.id },
                ),
            },
            ExecuteMsg::PublishResult { tally, proof: _, public_inputs } => match publish_error(
                old(state)@,
                env@,
                tally@,
                public_inputs@,
                *verdict,
            ) {
                Some(ev) => r matches Err(e) && e@ == ev && final(state)@ == old(state)@,
                None => r == Ok::<ExecOutcome, ContractError>(
                    ExecOutcome::ResultPublished {
                        election_id: old(state).election->0.id,
                        winners_count: tally.winners@.len() as usize,
                    },
                ) && final(state)@ == publish_post(old(state)@, tally@),
            },
            ExecuteMsg::ProposeRegistryUpdate { registry } => match propose_error(
                old(state)@,
                env.time,
                sender@,
                registry@,
            ) {
                Some(ev) => r matches Err(e) && e@ == ev && final(state)@ == old(state)@,
                None => r == Ok::<ExecOutcome, ContractError>(
                    ExecOutcome::RegistryUpdateProposed {
                        apply_after: (env.time + old(state).config.registry_update_delay_seconds
                            * 1_000_000_000) as u64,
                    },
                ) && final(state)@ == propose_post(old(state)@, env.time, registry@),
            },
            ExecuteMsg::FinalizeRegistryUpdate {} => match finalize_error(old(state)@, env.time) {
                Some(ev) => r matches Err(e) && e@ == ev && final(state)@ == old(state)@,
                None => r == Ok::<ExecOutcome, ContractError>(ExecOutcome::RegistryUpdateFinalized)
                    && final(state)@ == finalize_post(old(state)@),
            },
            ExecuteMsg::CancelRegistryUpdate {} => match cancel_error(old(state)@, sender@) {
                Some(ev) => r matches Err(e) && e@ == ev && final(state)@ == old(state)@,
                None => r == Ok::<ExecOutcome, ContractError>(ExecOutcome::RegistryUpdateCancelled)
                    && final(state)@ == cancel_post(old(state)@),
            },
        },
{
    match msg {
        ExecuteMsg::CreateElection {
            title,
            candidates,
            candidate_names,
            start_at,
            end_at,
            enclave_pubkey,
            proof: _,
            public_inputs,
        } => {
            let id = exec_create_election(
                state,
                env,
                sender,
                title,
                candidates,
                candidate_names,
                start_at,
                end_at,
                enclave_pubkey,
                public_inputs,
                verdict,
            )?;
            Ok(ExecOutcome::ElectionCreated { election_id: id })
        },
        ExecuteMsg::SubmitBallot { ciphertext } => {
            exec_submit_ballot(state, env, sender, ciphertext)?;
            Ok(ExecOutcome::BallotSubmitted { voter: sender.clone() })
        },
        ExecuteMsg::CloseAndTally {} => {
            let id = exec_close_and_tally(state, env)?;
            Ok(ExecOutcome::TallyClosed { election_id: id })
        },
        ExecuteMsg::PublishResult { tally, proof: _, public_inputs } => {
            let winners_count = tally.winners.len();
            let ghost id = state.election->0.id;
            exec_publish_result(state, env, tally, public_inputs, verdict)?;
            let election_id = match &state.election {
                Some(e) => e.id,
                None => 0,
            };
            Ok(ExecOutcome::ResultPublished { election_id, winners_count })
        },
        ExecuteMsg::ProposeRegistryUpdate { registry } => {
            let apply_after = exec_propose_registry_update(state, env, sender, registry)?;
            Ok(ExecOutcome::RegistryUpdateProposed { apply_after })
        },
        ExecuteMsg::FinalizeRegistryUpdate {} => {
            exec_finalize_registry_update(state, env)?;
            Ok(ExecOutcome::RegistryUpdateFinalized)
        },
        ExecuteMsg::CancelRegistryUpdate {} => {
            exec_cancel_registry_update(state, sender)?;
            Ok(ExecOutcome::RegistryUpdateCancelled)
        },
    }
}

/// Questions the contract answers.
#[derive(Clone, Debug, PartialEq, Eq)]
pub enum QueryMsg {
    Config {},
    Election {},
    Phase {},
    Ballots {},
    Result {},
    HistoricalTally { election_id: u64 },
    HistoricalElection { election_id: u64 },
    Registry {},
    PendingRegistry {},
}

/// The stored ballots.
#[derive(Clone, Debug)]
pub struct BallotsResponse {
    pub ballots: Vec<(String, Vec<u8>)>,
}

/// A stored tally, if any.
#[derive(Clone, Debug)]
pub struct ResultResponse {
    pub result: Option<TallyResult>,
}

/// The pending registry, if any.
#[derive(Clone, Debug)]
pub struct PendingRegistryResponse {
    pub pending: Option<PendingRegistry>,
}

/// An archived election, if any.
#[derive(Clone, Debug)]
pub struct HistoricalElectionResponse {
    pub election: Option<Election>,
}

/// An answer to a [`QueryMsg`].
#[derive(Clone, Debug)]
pub enum QueryResponse {
    Config(Config),
    Election(Election),
    Phase(Phase),
    Ballots(BallotsResponse),
    Result(ResultResponse),
    HistoricalElection(HistoricalElectionResponse),
    Registry(EnclaveImageRegistry),
    PendingRegistry(PendingRegistryResponse),
}

/// The archived value keyed `k`, if any.
fn take_entry<X>(m: &mut Vec<(u64, X)>, k: u64) -> (r: Option<X>)
    ensures
        match key_index(old(m)@, k) {
            Some(i) => r == Some(old(m)@[i].1),
            None => r is None,
        },
{
    let ghost m0 = m@;
    let mut i: usize = m.len();
    assert(m0.take(m0.len() as int) =~= m0);
    while i > 0
        invariant
            m@ == m0,
            m0 == old(m)@,
            i <= m0.len(),
            key_index(m0, k) == key_index(m0.take(i as int), k),
        decreases i,
    {
        proof {
            assert(m0.take(i as int).drop_last() =~= m0.take(i - 1));
            assert(m0.take(i as int).last() == m0[i - 1]);
        }
        if m[i - 1].0 == k {
            let (_, x) = m.remove(i - 1);
            return Some(x);
        }
        i -= 1;
    }
    None
}

/// Answers a query from the stored state; `None` when it asks for an
/// election and none is stored.
pub fn query(state: ContractState, env: &BlockEnv, msg: QueryMsg) -> (r: Option<QueryResponse>)
    ensures
        match msg {
            QueryMsg::Config {} => r == Some(QueryResponse::Config(state.config)),
            QueryMsg::Election {} => match state.election {
                Some(e) => r == Some(QueryResponse::Election(e)),
                None => r is None,
            },
            QueryMsg::Phase {} => match phase_of(state@, env.time) {
                Some(p) => r == Some(QueryResponse::Phase(p)),
                None => r is None,
            },
            QueryMsg::Ballots {} => r == Some(QueryResponse::Ballots(BallotsResponse { ballots: state.ballots })),
            QueryMsg::Result {} => r == Some(QueryResponse::Result(ResultResponse { result: state.tally_result })),
            QueryMsg::HistoricalTally { election_id } => r == Some(
                QueryResponse::Result(
                    ResultResponse {
                        result: match key_index(state.historical_tallies@, election_id) {
                            Some(i) => Some(state.historical_tallies@[i].1),
                            None => None,
                        },
                    },
                ),
            ),
            QueryMsg::HistoricalElection { election_id } => r == Some(
                QueryResponse::HistoricalElection(
                    HistoricalElectionResponse {
                        election: match key_index(state.historical_elections@, election_id) {
                            Some(i) => Some(state.historical_elections@[i].1),
                            None => None,
                        },
                    },
                ),
            ),
            QueryMsg::Registry {} => r == Some(QueryResponse::Registry(state.registry)),
            QueryMsg::PendingRegistry {} => r == Some(
                QueryResponse::PendingRegistry(PendingRegistryResponse { pending: state.pending_registry }),
            ),
        },
{
    let mut state = state;
    let phase = match &state.election {
        Some(e) => Some(derive_phase(env.time, e, state.tally_result.is_some())),
        None => None,
    };
    match msg {
        QueryMsg::Config {} => Some(QueryResponse::Config(state.config)),
        QueryMsg::Election {} => match state.election {
            Some(e) => Some(QueryResponse::Election(e)),
            None => None,
        },
        QueryMsg::Phase {} => match phase {
            Some(p) => Some(QueryResponse::Phase(p)),
            None => None,
        },
        QueryMsg::Ballots {} => Some(QueryResponse::Ballots(BallotsResponse { ballots: state.ballots })),
        QueryMsg::Result {} => Some(QueryResponse::Result(ResultResponse { result: state.tally_result })),
        QueryMsg::HistoricalTally { election_id } => Some(
            QueryResponse::Result(ResultResponse { result: take_entry(&mut state.historical_tallies, election_id) }),
        ),
        QueryMsg::HistoricalElection { election_id } => Some(
            QueryResponse::HistoricalElection(
                HistoricalElectionResponse { election: take_entry(&mut state.historical_elections, election_id) },
            ),
        ),
        QueryMsg::Registry {} => Some(QueryResponse::Registry(state.registry)),
        QueryMsg::PendingRegistry {} => Some(
            QueryResponse::PendingRegistry(PendingRegistryResponse { pending: state.pending_registry }),
        ),
    }
}

} // verus!
