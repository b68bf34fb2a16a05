//! The contract's transitions on a stored state.
use verified_rcv::contract::entry::{execute, query, ExecOutcome, ExecuteMsg, QueryMsg, QueryResponse};
use verified_rcv::contract::handlers::{
    exec_cancel_registry_update, exec_close_and_tally, exec_create_election, exec_finalize_registry_update,
    exec_propose_registry_update, exec_publish_result, exec_submit_ballot, instantiate, InstantiateMsg,
};
use verified_rcv::contract::layout::build_synthetic_public_inputs;
use verified_rcv::contract::quote::build_publish_report_data;
use verified_rcv::contract::state::{derive_phase, BlockEnv, ContractState, EnclaveImageRegistry, Phase};
use verified_rcv::contract::{
    build_registration_report_data, compute_ballots_hash, compute_commit_hash, compute_names_hash, ContractError,
    GnarkVerdict,
};
use verified_rcv::ballot_codec::encode_ranking;
use verified_rcv::enclave::attestation::EnclaveIdentity;
use verified_rcv::enclave::server::TallyServiceImpl;
use verified_rcv::{RawEntry, RoundCount, TallyResult};

const NANOS: u64 = 1_000_000_000;

fn mock_block() -> BlockEnv {
    let env = cosmwasm_std::testing::mock_env();
    BlockEnv {
        time: env.block.time.nanos(),
        chain_id: env.block.chain_id.clone(),
        contract_address: env.contract.address.to_string(),
    }
}

fn at(env: &BlockEnv, secs: u64) -> BlockEnv {
    BlockEnv { time: env.time + secs * NANOS, ..env.clone() }
}

fn good_pubkey() -> Vec<u8> {
    let mut b = vec![0u8; 33];
    b[0] = 0x02;
    b
}

fn good_registry() -> EnclaveImageRegistry {
    EnclaveImageRegistry {
        vkey_name: "verified_rcv_v1".to_string(),
        mrtd: vec![0u8; 48],
        rtmr1: vec![0u8; 48],
        rtmr2: vec![0u8; 48],
        rtmr0: None,
        rtmr3: None,
        accepted_tcb_statuses: vec![0, 1, 2, 3],
    }
}

fn new_registry_v2() -> EnclaveImageRegistry {
    EnclaveImageRegistry {
        vkey_name: "verified_rcv_v2".into(),
        mrtd: vec![1u8; 48],
        rtmr1: vec![1u8; 48],
        rtmr2: vec![1u8; 48],
        rtmr0: None,
        rtmr3: None,
        accepted_tcb_statuses: vec![0, 1, 2, 3],
    }
}

fn three_cands() -> Vec<String> {
    vec!["c0".to_string(), "c1".to_string(), "c2".to_string()]
}

fn three_names() -> Vec<String> {
    vec!["Alice".to_string(), "Bob".to_string(), "Carol".to_string()]
}

fn pi_for_pubkey(pk: &[u8], election_id: u64) -> Vec<u8> {
    let reg = good_registry();
    let nh = compute_names_hash(&three_names());
    let rd = build_registration_report_data(pk, &mock_block().contract_address, election_id, &nh);
    build_synthetic_public_inputs(
        &reg.mrtd.clone().try_into().unwrap(),
        &[0; 48],
        &reg.rtmr1.clone().try_into().unwrap(),
        &reg.rtmr2.clone().try_into().unwrap(),
        &[0; 48],
        &rd,
        0,
        1_700_000_000,
    )
}

fn pi_for_tally(env: &BlockEnv, election_id: u64, tally: &TallyResult, ballots: &[(String, Vec<u8>)]) -> Vec<u8> {
    let reg = good_registry();
    let bh = compute_ballots_hash(&three_cands(), ballots);
    let nh = compute_names_hash(&three_names());
    let commit = compute_commit_hash(&env.contract_address, &env.chain_id, election_id, &bh, &nh, tally);
    let rd = build_publish_report_data(&commit);
    build_synthetic_public_inputs(
        &reg.mrtd.clone().try_into().unwrap(),
        &[0; 48],
        &reg.rtmr1.clone().try_into().unwrap(),
        &reg.rtmr2.clone().try_into().unwrap(),
        &[0; 48],
        &rd,
        0,
        1_700_000_000,
    )
}

fn minimal_valid_tally() -> TallyResult {
    TallyResult {
        winners: vec!["c0".to_string()],
        per_round_counts: vec![vec![RoundCount { candidate: "c0".to_string(), count: 1 }]],
        eliminated_by_round: vec![],
        ballots_tallied: 1,
        ballots_dropped: 0,
        dropped_voters: vec![],
        non_voters: vec!["c1".to_string(), "c2".to_string()],
    }
}

fn instantiate_with_delay(delay: u64) -> ContractState {
    instantiate(
        &"admin".to_string(),
        InstantiateMsg {
            admin: Some("admin".to_string()),
            registry: good_registry(),
            voting_duration_seconds: 1000,
            registry_update_delay_seconds: delay,
        },
    )
    .unwrap()
}

fn create(state: &mut ContractState, env: &BlockEnv, start: u64, end: u64, pk: Vec<u8>, pi: Vec<u8>) -> Result<u64, ContractError> {
    exec_create_election(
        state,
        env,
        &"admin".to_string(),
        "e".into(),
        three_cands(),
        three_names(),
        env.time + start * NANOS,
        env.time + end * NANOS,
        pk,
        pi,
        &GnarkVerdict::Verified,
    )
}

#[test]
fn create_election_during_voting_rejected() {
    let mut state = instantiate_with_delay(0);
    let env = mock_block();
    let pk = good_pubkey();
    assert!(create(&mut state, &env, 10, 1000, pk.clone(), pi_for_pubkey(&pk, 1)).is_ok());
    let env2 = at(&env, 500);
    let second = exec_create_election(
        &mut state,
        &env2,
        &"admin".to_string(),
        "second".into(),
        three_cands(),
        three_names(),
        env.time + 2000 * NANOS,
        env.time + 3000 * NANOS,
        pk.clone(),
        pi_for_pubkey(&pk, 1),
        &GnarkVerdict::Verified,
    );
    assert!(matches!(second, Err(ContractError::ElectionAlreadyActive)));
}

#[test]
fn create_election_initial_state_ok() {
    let mut state = instantiate_with_delay(0);
    let env = mock_block();
    let pk = good_pubkey();
    let id = create(&mut state, &env, 10, 1000, pk.clone(), pi_for_pubkey(&pk, 1)).unwrap();
    assert_eq!(id, 1);
    assert_eq!(state.election_counter, 1);
    let e = state.election.as_ref().unwrap();
    assert_eq!(e.id, 1);
    assert_eq!(e.ballot_count, 0);
    assert_eq!(derive_phase(env.time, e, false), Phase::Created);
    assert!(state.tally_result.is_none());
}

#[test]
fn create_election_from_resolved_archives_prior_tally() {
    let mut state = instantiate_with_delay(0);
    let env = mock_block();
    let pk = good_pubkey();
    create(&mut state, &env, 10, 1000, pk.clone(), pi_for_pubkey(&pk, 1)).unwrap();
    let env_tally = at(&env, 2000);
    let first_tally = minimal_valid_tally();
    let pi_pub = pi_for_tally(&env_tally, 1, &first_tally, &[]);
    exec_publish_result(&mut state, &env_tally, first_tally.clone(), pi_pub, &GnarkVerdict::Verified).unwrap();
    assert!(state.tally_result.is_some());
    assert!(state.historical_tallies.is_empty());
    exec_create_election(
        &mut state,
        &env_tally,
        &"admin".to_string(),
        "second".into(),
        three_cands(),
        three_names(),
        env.time + 3000 * NANOS,
        env.time + 4000 * NANOS,
        pk.clone(),
        pi_for_pubkey(&pk, 2),
        &GnarkVerdict::Verified,
    )
    .unwrap();
    assert!(state.tally_result.is_none());
    assert_eq!(state.historical_tallies.len(), 1);
    assert_eq!(state.historical_tallies[0].0, 1);
    assert_eq!(state.historical_tallies[0].1, first_tally);
    assert_eq!(state.historical_elections[0].0, 1);
}

#[test]
fn create_election_with_bad_registration_quote_rejected() {
    let mut state = instantiate_with_delay(0);
    let env = mock_block();
    let pk_chain = good_pubkey();
    let mut pk_quote = vec![0u8; 33];
    pk_quote[0] = 0x03;
    let res = create(&mut state, &env, 10, 1000, pk_chain, pi_for_pubkey(&pk_quote, 1));
    assert!(matches!(res, Err(ContractError::AttestationPubkeyBindingMismatch)));
    assert!(state.election.is_none());
}

#[test]
fn submit_close_publish_lifecycle() {
    let mut state = instantiate_with_delay(0);
    let env = mock_block();
    let pk = good_pubkey();
    create(&mut state, &env, 10, 1000, pk.clone(), pi_for_pubkey(&pk, 1)).unwrap();
    let voting = at(&env, 20);
    assert!(matches!(
        exec_submit_ballot(&mut state, &env, &"c0".to_string(), vec![1, 2]),
        Err(ContractError::NotVoting)
    ));
    assert!(matches!(
        exec_submit_ballot(&mut state, &voting, &"x".to_string(), vec![1, 2]),
        Err(ContractError::VoterNotCandidate)
    ));
    exec_submit_ballot(&mut state, &voting, &"c0".to_string(), vec![1, 2]).unwrap();
    assert!(matches!(
        exec_submit_ballot(&mut state, &voting, &"c0".to_string(), vec![3]),
        Err(ContractError::AlreadyVoted)
    ));
    assert_eq!(state.ballots, vec![("c0".to_string(), vec![1, 2])]);
    assert_eq!(state.election.as_ref().unwrap().ballot_count, 1);
    assert!(matches!(exec_close_and_tally(&state, &voting), Err(ContractError::NotTallying)));
    let after = at(&env, 2000);
    assert_eq!(exec_close_and_tally(&state, &after).unwrap(), 1);
    let tally = minimal_valid_tally();
    assert!(matches!(
        exec_publish_result(&mut state, &voting, tally.clone(), vec![], &GnarkVerdict::Verified),
        Err(ContractError::NotTallying)
    ));
    let pi = pi_for_tally(&after, 1, &tally, &[("c0".to_string(), vec![1, 2])]);
    exec_publish_result(&mut state, &after, tally.clone(), pi.clone(), &GnarkVerdict::Verified).unwrap();
    assert_eq!(state.tally_result, Some(tally.clone()));
    assert!(matches!(
        exec_publish_result(&mut state, &after, tally, pi, &GnarkVerdict::Verified),
        Err(ContractError::AlreadyResolved)
    ));
}

#[test]
fn propose_registry_update_during_voting_rejected() {
    let mut state = instantiate_with_delay(0);
    let env = mock_block();
    let pk = good_pubkey();
    create(&mut state, &env, 10, 1000, pk.clone(), pi_for_pubkey(&pk, 1)).unwrap();
    let env2 = at(&env, 500);
    let err = exec_propose_registry_update(&mut state, &env2, &"admin".to_string(), new_registry_v2()).unwrap_err();
    assert!(matches!(err, ContractError::RegistryUpdateDuringActiveElection));
}

#[test]
fn propose_then_finalize_with_zero_delay_ok() {
    let mut state = instantiate_with_delay(0);
    let env = mock_block();
    exec_propose_registry_update(&mut state, &env, &"admin".to_string(), new_registry_v2()).unwrap();
    assert_eq!(state.registry.vkey_name, "verified_rcv_v1");
    exec_finalize_registry_update(&mut state, &env).unwrap();
    assert_eq!(state.registry.vkey_name, "verified_rcv_v2");
    assert!(state.pending_registry.is_none());
}

#[test]
fn finalize_before_timelock_expiry_rejected() {
    let mut state = instantiate_with_delay(86400);
    let env = mock_block();
    exec_propose_registry_update(&mut state, &env, &"admin".to_string(), new_registry_v2()).unwrap();
    let err = exec_finalize_registry_update(&mut state, &env).unwrap_err();
    assert!(matches!(err, ContractError::RegistryUpdateTimelockNotExpired));
    let later = at(&env, 86401);
    exec_finalize_registry_update(&mut state, &later).unwrap();
    assert_eq!(state.registry.vkey_name, "verified_rcv_v2");
}

#[test]
fn finalize_without_pending_rejected() {
    let mut state = instantiate_with_delay(0);
    let err = exec_finalize_registry_update(&mut state, &mock_block()).unwrap_err();
    assert!(matches!(err, ContractError::NoPendingRegistryUpdate));
}

#[test]
fn finalize_permissionless_after_timelock() {
    let mut state = instantiate_with_delay(100);
    let env = mock_block();
    exec_propose_registry_update(&mut state, &env, &"admin".to_string(), new_registry_v2()).unwrap();
    let later = at(&env, 101);
    exec_finalize_registry_update(&mut state, &later).unwrap();
    assert_eq!(state.registry.vkey_name, "verified_rcv_v2");
}

#[test]
fn propose_while_pending_rejected() {
    let mut state = instantiate_with_delay(100);
    let env = mock_block();
    exec_propose_registry_update(&mut state, &env, &"admin".to_string(), new_registry_v2()).unwrap();
    let mut second = new_registry_v2();
    second.vkey_name = "verified_rcv_v3".into();
    let err = exec_propose_registry_update(&mut state, &env, &"admin".to_string(), second).unwrap_err();
    assert!(matches!(err, ContractError::RegistryUpdateAlreadyPending));
}

#[test]
fn cancel_clears_pending_admin_only() {
    let mut state = instantiate_with_delay(100);
    let env = mock_block();
    exec_propose_registry_update(&mut state, &env, &"admin".to_string(), new_registry_v2()).unwrap();
    let err = exec_cancel_registry_update(&mut state, &"attacker".to_string()).unwrap_err();
    assert!(matches!(err, ContractError::Unauthorized));
    assert!(state.pending_registry.is_some());
    exec_cancel_registry_update(&mut state, &"admin".to_string()).unwrap();
    assert!(state.pending_registry.is_none());
}

#[test]
fn propose_non_admin_rejected() {
    let mut state = instantiate_with_delay(0);
    let err = exec_propose_registry_update(&mut state, &mock_block(), &"attacker".to_string(), new_registry_v2()).unwrap_err();
    assert!(matches!(err, ContractError::Unauthorized));
}

#[test]
fn execute_dispatches_and_query_answers() {
    let mut state = instantiate_with_delay(0);
    let env = mock_block();
    let pk = good_pubkey();
    let out = execute(
        &mut state,
        &env,
        &"admin".to_string(),
        ExecuteMsg::CreateElection {
            title: "e".into(),
            candidates: three_cands(),
            candidate_names: three_names(),
            start_at: env.time + 10 * NANOS,
            end_at: env.time + 1000 * NANOS,
            enclave_pubkey: pk.clone(),
            proof: vec![0xAB; 192],
            public_inputs: pi_for_pubkey(&pk, 1),
        },
        &GnarkVerdict::Verified,
    )
    .unwrap();
    assert_eq!(out, ExecOutcome::ElectionCreated { election_id: 1 });
    let voting = at(&env, 20);
    let out = execute(
        &mut state,
        &voting,
        &"c1".to_string(),
        ExecuteMsg::SubmitBallot { ciphertext: vec![5] },
        &GnarkVerdict::Verified,
    )
    .unwrap();
    assert_eq!(out, ExecOutcome::BallotSubmitted { voter: "c1".to_string() });
    match query(state.clone(), &voting, QueryMsg::Phase {}) {
        Some(QueryResponse::Phase(p)) => assert_eq!(p, Phase::Voting),
        other => panic!("unexpected {other:?}"),
    }
    match query(state, &voting, QueryMsg::Ballots {}) {
        Some(QueryResponse::Ballots(b)) => assert_eq!(b.ballots, vec![("c1".to_string(), vec![5])]),
        other => panic!("unexpected {other:?}"),
    }
}

#[test]
fn phase_moves_forward_through_the_window() {
    let e = verified_rcv::contract::state::Election {
        id: 1,
        title: "t".to_string(),
        candidates: vec!["a".to_string(), "b".to_string()],
        candidate_names: vec!["A".to_string(), "B".to_string()],
        start_at: 100,
        end_at: 200,
        ballot_count: 0,
        enclave_pubkey: good_pubkey(),
    };
    assert_eq!(derive_phase(99, &e, false), Phase::Created);
    assert_eq!(derive_phase(100, &e, false), Phase::Voting);
    assert_eq!(derive_phase(199, &e, false), Phase::Voting);
    assert_eq!(derive_phase(200, &e, false), Phase::Tallying);
    assert_eq!(derive_phase(0, &e, true), Phase::Resolved);
    assert_eq!(derive_phase(150, &e, true), Phase::Resolved);
}

#[test]
fn honest_enclave_publication_is_accepted_end_to_end() {
    let (sk, pk) = ecies::utils::generate_keypair();
    let mut priv32 = [0u8; 32];
    priv32.copy_from_slice(&sk.serialize());
    let svc = TallyServiceImpl::new(EnclaveIdentity {
        mrtd: [0u8; 48],
        rtmr0: [0u8; 48],
        rtmr1: [0u8; 48],
        rtmr2: [0u8; 48],
        rtmr3: [0u8; 48],
        tcb_status: 0,
        timestamp: 1_700_000_000,
    });
    let reg = svc.register_pubkey(&priv32, &mock_block().contract_address, 1, &three_names()).unwrap();

    let mut state = instantiate_with_delay(0);
    let env = mock_block();
    create(&mut state, &env, 10, 1000, reg.enclave_pubkey.clone(), pi_for_pubkey(&reg.enclave_pubkey, 1)).unwrap();

    let voting = at(&env, 100);
    let ballot = |r: &[&str]| {
        let ranking: Vec<String> = r.iter().map(|x| x.to_string()).collect();
        ecies::encrypt(&pk.serialize(), &encode_ranking(&ranking)).unwrap()
    };
    exec_submit_ballot(&mut state, &voting, &"c2".to_string(), ballot(&["c2", "c0", "c1"])).unwrap();
    exec_submit_ballot(&mut state, &voting, &"c0".to_string(), ballot(&["c0", "c1", "c2"])).unwrap();
    exec_submit_ballot(&mut state, &voting, &"c1".to_string(), vec![1, 2, 3]).unwrap();

    let tallying = at(&env, 2000);
    exec_close_and_tally(&state, &tallying).unwrap();
    let mut raw: Vec<RawEntry> = Vec::new();
    for c in three_cands() {
        for (v, ct) in &state.ballots {
            if *v == c {
                raw.push(RawEntry { voter: v.clone(), ciphertext: ct.clone() });
            }
        }
    }
    let out = svc.tally(&priv32, &tallying.contract_address, 1, &three_cands(), &raw, &tallying.chain_id, &three_names());
    assert_eq!(out.tally.ballots_tallied, 2);
    assert_eq!(out.tally.dropped_voters, vec!["c1".to_string()]);
    let pi = pi_for_tally(&tallying, 1, &out.tally, &state.ballots);
    exec_publish_result(&mut state, &tallying, out.tally.clone(), pi, &GnarkVerdict::Verified).unwrap();
    assert_eq!(state.tally_result, Some(out.tally));
}

#[test]
fn stored_ballots_are_kept_in_key_order() {
    let mut state = instantiate_with_delay(0);
    let env = mock_block();
    let pk = good_pubkey();
    create(&mut state, &env, 10, 1000, pk.clone(), pi_for_pubkey(&pk, 1)).unwrap();
    let voting = at(&env, 100);
    exec_submit_ballot(&mut state, &voting, &"c2".to_string(), vec![2]).unwrap();
    exec_submit_ballot(&mut state, &voting, &"c0".to_string(), vec![0]).unwrap();
    exec_submit_ballot(&mut state, &voting, &"c1".to_string(), vec![1]).unwrap();
    let voters: Vec<&str> = state.ballots.iter().map(|(v, _)| v.as_str()).collect();
    assert_eq!(voters, vec!["c0", "c1", "c2"]);
    assert_eq!(state.election.as_ref().unwrap().ballot_count, 3);
}
