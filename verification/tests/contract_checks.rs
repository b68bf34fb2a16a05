//! The contract's shape checks, public-input extraction and quote checks.
use verified_rcv::contract::checks::{
    is_in_declaration_order, validate_candidate_names, validate_enclave_pubkey, validate_registry,
};
use verified_rcv::contract::layout::{
    build_synthetic_public_inputs, extract_measurement_48, extract_report_data, extract_u64_from_fr,
    extract_u8_from_fr, gnark_witness_bytes, validate_public_inputs_shape, ELEM_MRTD_START, ELEM_TCBSTATUS,
    FR_BYTES, GNARK_PUBLIC_INPUTS_LEN,
};
use verified_rcv::contract::quote::{
    build_publish_report_data, check_dst_tag, verify_measurements_match_registry, verify_publish_quote,
    verify_registration_quote, verify_tcb_status_accepted,
};
use verified_rcv::contract::state::{Election, EnclaveImageRegistry};
use verified_rcv::contract::tally_check::check_tally_well_formed;
use verified_rcv::contract::{
    build_registration_report_data, compute_ballots_hash, compute_commit_hash, compute_names_hash,
    ContractError, GnarkVerdict,
};
use verified_rcv::binding::{DST_PUBKEY, DST_TALLY};
use verified_rcv::{RoundCount, TallyResult};
use sha2::{Digest, Sha256};

const MOCK_CHAIN_ID: &str = "cosmos-testnet-14002";
const MOCK_NEXT_ELECTION_ID: u64 = 1;

fn mock_contract_addr() -> String {
    cosmwasm_std::testing::mock_env().contract.address.to_string()
}

fn good_pubkey() -> Vec<u8> {
    let mut b = vec![0u8; 33];
    b[0] = 0x02;
    b
}

fn good_registry() -> EnclaveImageRegistry {
    EnclaveImageRegistry {
        vkey_name: "verified_rcv_v1".to_string(),
        mrtd: vec![0u8; 48],
        rtmr1: vec![0u8; 48],
        rtmr2: vec![0u8; 48],
        rtmr0: None,
        rtmr3: None,
        accepted_tcb_statuses: vec![0, 1, 2, 3],
    }
}

fn three_cands() -> Vec<String> {
    vec!["c0".to_string(), "c1".to_string(), "c2".to_string()]
}

fn three_names() -> Vec<String> {
    vec!["Alice".to_string(), "Bob".to_string(), "Carol".to_string()]
}

fn three_names_hash() -> [u8; 32] {
    compute_names_hash(&three_names())
}

fn empty_ballots_hash() -> [u8; 32] {
    compute_ballots_hash(&[], &[])
}

fn arr48(v: &[u8]) -> [u8; 48] {
    v.try_into().unwrap()
}

fn synthetic_pi_for_pubkey_with_id_and_names(
    pk: &[u8],
    reg: &EnclaveImageRegistry,
    contract_addr: &str,
    election_id: u64,
    names_hash: &[u8; 32],
) -> Vec<u8> {
    let r0 = reg.rtmr0.clone().unwrap_or_else(|| vec![0u8; 48]);
    let r3 = reg.rtmr3.clone().unwrap_or_else(|| vec![0u8; 48]);
    let rd = build_registration_report_data(pk, contract_addr, election_id, names_hash);
    build_synthetic_public_inputs(
        &arr48(&reg.mrtd),
        &arr48(&r0),
        &arr48(&reg.rtmr1),
        &arr48(&reg.rtmr2),
        &arr48(&r3),
        &rd,
        0,
        1_700_000_000,
    )
}

fn synthetic_pi_for_pubkey_with_id(pk: &[u8], reg: &EnclaveImageRegistry, contract_addr: &str, election_id: u64) -> Vec<u8> {
    synthetic_pi_for_pubkey_with_id_and_names(pk, reg, contract_addr, election_id, &three_names_hash())
}

fn synthetic_pi_for_pubkey(pk: &[u8], reg: &EnclaveImageRegistry) -> Vec<u8> {
    synthetic_pi_for_pubkey_with_id(pk, reg, &mock_contract_addr(), MOCK_NEXT_ELECTION_ID)
}

fn synthetic_pi_for_tally(contract_addr: &str, election_id: u64, tally: &TallyResult, reg: &EnclaveImageRegistry) -> Vec<u8> {
    let r0 = reg.rtmr0.clone().unwrap_or_else(|| vec![0u8; 48]);
    let r3 = reg.rtmr3.clone().unwrap_or_else(|| vec![0u8; 48]);
    let commit = compute_commit_hash(contract_addr, MOCK_CHAIN_ID, election_id, &empty_ballots_hash(), &three_names_hash(), tally);
    let rd = build_publish_report_data(&commit);
    build_synthetic_public_inputs(
        &arr48(&reg.mrtd),
        &arr48(&r0),
        &arr48(&reg.rtmr1),
        &arr48(&reg.rtmr2),
        &arr48(&r3),
        &rd,
        0,
        1_700_000_000,
    )
}

fn minimal_valid_tally() -> TallyResult {
    TallyResult {
        winners: vec!["c0".to_string()],
        per_round_counts: vec![vec![RoundCount { candidate: "c0".to_string(), count: 1 }]],
        eliminated_by_round: vec![],
        ballots_tallied: 1,
        ballots_dropped: 0,
        dropped_voters: vec![],
        non_voters: vec!["c1".to_string(), "c2".to_string()],
    }
}

#[test]
fn enclave_pubkey_wrong_length_rejected() {
    let err = validate_enclave_pubkey(&vec![0u8; 32]).unwrap_err();
    assert!(matches!(err, ContractError::InvalidEnclavePubkey { got: 32 }));
}

#[test]
fn enclave_pubkey_compressed_wrong_leading_byte_rejected() {
    let mut b = vec![0u8; 33];
    b[0] = 0x05;
    let err = validate_enclave_pubkey(&b).unwrap_err();
    assert!(matches!(err, ContractError::InvalidEnclavePubkey { .. }));
}

#[test]
fn enclave_pubkey_uncompressed_wrong_leading_byte_rejected() {
    let mut b = vec![0u8; 65];
    b[0] = 0x02;
    let err = validate_enclave_pubkey(&b).unwrap_err();
    assert!(matches!(err, ContractError::InvalidEnclavePubkey { .. }));
}

#[test]
fn enclave_pubkey_compressed_ok() {
    let mut b = vec![0u8; 33];
    b[0] = 0x03;
    validate_enclave_pubkey(&b).unwrap();
}

#[test]
fn enclave_pubkey_uncompressed_ok() {
    let mut b = vec![0u8; 65];
    b[0] = 0x04;
    validate_enclave_pubkey(&b).unwrap();
}

#[test]
fn registry_mrtd_wrong_length_rejected() {
    let mut r = good_registry();
    r.mrtd = vec![0u8; 32];
    let err = validate_registry(&r).unwrap_err();
    assert!(matches!(err, ContractError::InvalidRegistry(_)));
}

#[test]
fn registry_rtmr1_wrong_length_rejected() {
    let mut r = good_registry();
    r.rtmr1 = vec![0u8; 32];
    let err = validate_registry(&r).unwrap_err();
    assert!(matches!(err, ContractError::InvalidRegistry(_)));
}

#[test]
fn registry_optional_rtmr0_wrong_length_rejected() {
    let mut r = good_registry();
    r.rtmr0 = Some(vec![0u8; 32]);
    let err = validate_registry(&r).unwrap_err();
    assert!(matches!(err, ContractError::InvalidRegistry(_)));
}

#[test]
fn registry_empty_vkey_name_rejected() {
    let mut r = good_registry();
    r.vkey_name = String::new();
    let err = validate_registry(&r).unwrap_err();
    assert!(matches!(err, ContractError::InvalidRegistry(_)));
}

#[test]
fn registry_empty_accepted_tcb_rejected() {
    let mut r = good_registry();
    r.accepted_tcb_statuses = vec![];
    let err = validate_registry(&r).unwrap_err();
    assert!(matches!(err, ContractError::InvalidRegistry(_)));
}

#[test]
fn registry_revoked_in_accepted_rejected() {
    let mut r = good_registry();
    r.accepted_tcb_statuses = vec![0, 6];
    let err = validate_registry(&r).unwrap_err();
    assert!(matches!(err, ContractError::InvalidRegistry(_)));
}

#[test]
fn registry_good_ok() {
    validate_registry(&good_registry()).unwrap();
}

#[test]
fn registry_messages_name_the_field_and_length() {
    let mut r = good_registry();
    r.mrtd = vec![0u8; 32];
    match validate_registry(&r).unwrap_err() {
        ContractError::InvalidRegistry(m) => assert_eq!(m, "mrtd must be 48 bytes (TDX SHA-384), got 32"),
        other => panic!("unexpected {other:?}"),
    }
    let mut r = good_registry();
    r.accepted_tcb_statuses = vec![0, 9];
    match validate_registry(&r).unwrap_err() {
        ContractError::InvalidRegistry(m) => {
            assert_eq!(m, "accepted_tcb_statuses contains out-of-range severity 9 (max 5)")
        }
        other => panic!("unexpected {other:?}"),
    }
}

#[test]
fn public_inputs_wrong_length_rejected() {
    let bad = vec![0u8; GNARK_PUBLIC_INPUTS_LEN - 1];
    let err = validate_public_inputs_shape(&bad).unwrap_err();
    assert!(matches!(
        err,
        ContractError::GnarkPublicInputsLength { got, expected }
            if got == GNARK_PUBLIC_INPUTS_LEN - 1 && expected == GNARK_PUBLIC_INPUTS_LEN
    ));
}

#[test]
fn u8_high_byte_nonzero_rejected() {
    let mut pi = vec![0u8; GNARK_PUBLIC_INPUTS_LEN];
    pi[0] = 1;
    let err = extract_u8_from_fr(&pi, 0).unwrap_err();
    assert!(matches!(err, ContractError::GnarkPublicInputNotU8 { elem_idx: 0 }));
}

#[test]
fn u8_low_byte_extracted_correctly() {
    let mut pi = vec![0u8; GNARK_PUBLIC_INPUTS_LEN];
    pi[31] = 0xAB;
    assert_eq!(extract_u8_from_fr(&pi, 0).unwrap(), 0xAB);
}

#[test]
fn u64_high_bytes_nonzero_rejected() {
    let mut pi = vec![0u8; GNARK_PUBLIC_INPUTS_LEN];
    pi[ELEM_TCBSTATUS * FR_BYTES] = 1;
    let err = extract_u64_from_fr(&pi, ELEM_TCBSTATUS).unwrap_err();
    assert!(matches!(
        err,
        ContractError::GnarkPublicInputOutOfRange { elem_idx } if elem_idx == ELEM_TCBSTATUS
    ));
}

#[test]
fn u64_big_endian_value_extracted() {
    let pi = build_synthetic_public_inputs(&[0; 48], &[0; 48], &[0; 48], &[0; 48], &[0; 48], &[0; 64], 5, 0x0102_0304_0506_0708);
    assert_eq!(extract_u64_from_fr(&pi, ELEM_TCBSTATUS).unwrap(), 5);
    assert_eq!(extract_u64_from_fr(&pi, 305).unwrap(), 0x0102_0304_0506_0708);
}

#[test]
fn measurement_extraction_round_trip() {
    let mut mrtd = [0u8; 48];
    for (i, b) in mrtd.iter_mut().enumerate() {
        *b = i as u8;
    }
    let pi = build_synthetic_public_inputs(&mrtd, &[0; 48], &[0; 48], &[0; 48], &[0; 48], &[0; 64], 0, 0);
    assert_eq!(extract_measurement_48(&pi, ELEM_MRTD_START).unwrap(), mrtd);
}

#[test]
fn report_data_extraction_round_trip() {
    let mut rd = [0u8; 64];
    for (i, b) in rd.iter_mut().enumerate() {
        *b = (i + 1) as u8;
    }
    let pi = build_synthetic_public_inputs(&[0; 48], &[0; 48], &[0; 48], &[0; 48], &[0; 48], &rd, 0, 0);
    assert_eq!(extract_report_data(&pi).unwrap(), rd);
}

#[test]
fn measurement_mismatch_rejected() {
    let reg = good_registry();
    let mut mrtd = [0u8; 48];
    mrtd[0] = 0xFF;
    let pi = build_synthetic_public_inputs(&mrtd, &[0; 48], &[0; 48], &[0; 48], &[0; 48], &[0; 64], 0, 0);
    let err = verify_measurements_match_registry(&pi, &reg).unwrap_err();
    assert!(matches!(err, ContractError::AttestationMeasurementMismatch { field: "mrtd" }));
}

#[test]
fn optional_rtmr_unbound_skips_check() {
    let reg = good_registry();
    let mut bad_rtmr0 = [0u8; 48];
    bad_rtmr0[0] = 0xFF;
    let pi = build_synthetic_public_inputs(&[0; 48], &bad_rtmr0, &[0; 48], &[0; 48], &[0; 48], &[0; 64], 0, 0);
    verify_measurements_match_registry(&pi, &reg).unwrap();
}

#[test]
fn optional_rtmr_bound_mismatch_rejected() {
    let mut reg = good_registry();
    reg.rtmr0 = Some(vec![0u8; 48]);
    let mut bad_rtmr0 = [0u8; 48];
    bad_rtmr0[0] = 0xFF;
    let pi = build_synthetic_public_inputs(&[0; 48], &bad_rtmr0, &[0; 48], &[0; 48], &[0; 48], &[0; 64], 0, 0);
    let err = verify_measurements_match_registry(&pi, &reg).unwrap_err();
    assert!(matches!(err, ContractError::AttestationMeasurementMismatch { field: "rtmr0" }));
}

#[test]
fn tcb_status_unaccepted_rejected() {
    let reg = good_registry();
    let pi = build_synthetic_public_inputs(&[0; 48], &[0; 48], &[0; 48], &[0; 48], &[0; 48], &[0; 64], 4, 0);
    let err = verify_tcb_status_accepted(&pi, &reg).unwrap_err();
    assert!(matches!(err, ContractError::AttestationTcbStatusUnaccepted { status: 4 }));
}

#[test]
fn tcb_status_checked_on_longer_public_inputs() {
    let reg = good_registry();
    let mut pi = build_synthetic_public_inputs(&[0; 48], &[0; 48], &[0; 48], &[0; 48], &[0; 48], &[0; 64], 4, 0);
    pi.extend_from_slice(&[0u8; 8]);
    assert_eq!(pi.len(), 9800);
    let err = verify_tcb_status_accepted(&pi, &reg).unwrap_err();
    assert!(matches!(err, ContractError::AttestationTcbStatusUnaccepted { status: 4 }));
    let mut ok_pi = build_synthetic_public_inputs(&[0; 48], &[0; 48], &[0; 48], &[0; 48], &[0; 48], &[0; 64], 0, 0);
    ok_pi.extend_from_slice(&[0u8; 8]);
    verify_tcb_status_accepted(&ok_pi, &reg).unwrap();
}

#[test]
fn tcb_status_revoked_rejected_even_if_in_registry() {
    let mut reg = good_registry();
    reg.accepted_tcb_statuses = vec![6];
    let pi = build_synthetic_public_inputs(&[0; 48], &[0; 48], &[0; 48], &[0; 48], &[0; 48], &[0; 64], 6, 0);
    verify_tcb_status_accepted(&pi, &reg).unwrap();
    let err = validate_registry(&reg).unwrap_err();
    assert!(matches!(err, ContractError::InvalidRegistry(_)));
}

#[test]
fn publish_quote_wrong_dst_rejected() {
    let reg = good_registry();
    let tally = minimal_valid_tally();
    let commit = compute_commit_hash("cw1xxx", MOCK_CHAIN_ID, 1, &empty_ballots_hash(), &three_names_hash(), &tally);
    let mut rd = [0u8; 64];
    rd[..32].copy_from_slice(&commit);
    let pi = build_synthetic_public_inputs(&[0; 48], &[0; 48], &[0; 48], &[0; 48], &[0; 48], &rd, 0, 0);
    let err = verify_publish_quote(&reg, &commit, &pi, &GnarkVerdict::Verified).unwrap_err();
    assert!(matches!(err, ContractError::AttestationDomainTagInvalid));
}

#[test]
fn publish_quote_wrong_commit_hash_rejected() {
    let reg = good_registry();
    let tally = minimal_valid_tally();
    let pi = synthetic_pi_for_tally("cw1xxx", 999, &tally, &reg);
    let expected_commit = compute_commit_hash("cw1xxx", MOCK_CHAIN_ID, 1, &empty_ballots_hash(), &three_names_hash(), &tally);
    let err = verify_publish_quote(&reg, &expected_commit, &pi, &GnarkVerdict::Verified).unwrap_err();
    assert!(matches!(err, ContractError::AttestationCommitMismatch));
}

#[test]
fn publish_quote_wrong_measurements_rejected() {
    let mut reg = good_registry();
    let tally = minimal_valid_tally();
    let pi = synthetic_pi_for_tally("cw1xxx", 1, &tally, &reg);
    let commit = compute_commit_hash("cw1xxx", MOCK_CHAIN_ID, 1, &empty_ballots_hash(), &three_names_hash(), &tally);
    reg.mrtd = vec![0xFF; 48];
    let err = verify_publish_quote(&reg, &commit, &pi, &GnarkVerdict::Verified).unwrap_err();
    assert!(matches!(err, ContractError::AttestationMeasurementMismatch { field: "mrtd" }));
}

#[test]
fn publish_quote_correct_binding_ok() {
    let reg = good_registry();
    let tally = minimal_valid_tally();
    let pi = synthetic_pi_for_tally("cw1xxx", 1, &tally, &reg);
    let commit = compute_commit_hash("cw1xxx", MOCK_CHAIN_ID, 1, &empty_ballots_hash(), &three_names_hash(), &tally);
    verify_publish_quote(&reg, &commit, &pi, &GnarkVerdict::Verified).unwrap();
}

#[test]
fn publish_quote_gnark_verdict_decides_last() {
    let reg = good_registry();
    let tally = minimal_valid_tally();
    let pi = synthetic_pi_for_tally("cw1xxx", 1, &tally, &reg);
    let commit = compute_commit_hash("cw1xxx", MOCK_CHAIN_ID, 1, &empty_ballots_hash(), &three_names_hash(), &tally);
    let err = verify_publish_quote(&reg, &commit, &pi, &GnarkVerdict::NotVerified).unwrap_err();
    assert!(matches!(err, ContractError::ProofVerificationFailed));
    let err = verify_publish_quote(&reg, &commit, &pi, &GnarkVerdict::QueryFailed("down".to_string())).unwrap_err();
    assert!(matches!(err, ContractError::AttestationFailure(s) if s == "down"));
}

#[test]
fn registration_quote_wrong_dst_rejected() {
    let reg = good_registry();
    let pk = good_pubkey();
    let nh = three_names_hash();
    let expected = build_registration_report_data(&pk, &mock_contract_addr(), MOCK_NEXT_ELECTION_ID, &nh);
    let mut rd = [0u8; 64];
    rd[..32].copy_from_slice(&expected[..32]);
    rd[32..32 + DST_TALLY.len()].copy_from_slice(&DST_TALLY);
    let pi = build_synthetic_public_inputs(&[0; 48], &[0; 48], &[0; 48], &[0; 48], &[0; 48], &rd, 0, 0);
    let err = verify_registration_quote(&reg, &pk, &mock_contract_addr(), MOCK_NEXT_ELECTION_ID, &nh, &pi, &GnarkVerdict::Verified)
        .unwrap_err();
    assert!(matches!(err, ContractError::AttestationDomainTagInvalid));
}

#[test]
fn registration_quote_wrong_pubkey_binding_rejected() {
    let reg = good_registry();
    let pk_a = good_pubkey();
    let mut pk_b = vec![0u8; 33];
    pk_b[0] = 0x03;
    pk_b[1] = 0x01;
    let pi = synthetic_pi_for_pubkey(&pk_a, &reg);
    let err = verify_registration_quote(
        &reg,
        &pk_b,
        &mock_contract_addr(),
        MOCK_NEXT_ELECTION_ID,
        &three_names_hash(),
        &pi,
        &GnarkVerdict::Verified,
    )
    .unwrap_err();
    assert!(matches!(err, ContractError::AttestationPubkeyBindingMismatch));
}

#[test]
fn registration_quote_wrong_election_id_rejected() {
    let reg = good_registry();
    let pk = good_pubkey();
    let pi = synthetic_pi_for_pubkey_with_id(&pk, &reg, &mock_contract_addr(), 1);
    let err = verify_registration_quote(&reg, &pk, &mock_contract_addr(), 2, &three_names_hash(), &pi, &GnarkVerdict::Verified)
        .unwrap_err();
    assert!(matches!(err, ContractError::AttestationPubkeyBindingMismatch));
}

#[test]
fn registration_quote_old_pubkey_only_binding_rejected_as_wrong_election() {
    let reg = good_registry();
    let pk = good_pubkey();
    let mut rd = [0u8; 64];
    let h = Sha256::digest(&pk);
    rd[..32].copy_from_slice(&h);
    rd[32..32 + DST_PUBKEY.len()].copy_from_slice(&DST_PUBKEY);
    let pi = build_synthetic_public_inputs(
        &arr48(&reg.mrtd),
        &[0; 48],
        &arr48(&reg.rtmr1),
        &arr48(&reg.rtmr2),
        &[0; 48],
        &rd,
        0,
        0,
    );
    let err = verify_registration_quote(
        &reg,
        &pk,
        &mock_contract_addr(),
        MOCK_NEXT_ELECTION_ID,
        &three_names_hash(),
        &pi,
        &GnarkVerdict::Verified,
    )
    .unwrap_err();
    assert!(matches!(err, ContractError::RegistrationQuoteWrongElection));
}

#[test]
fn registration_quote_wrong_names_hash_rejected() {
    let reg = good_registry();
    let pk = good_pubkey();
    let nh_a = three_names_hash();
    let mut nh_b = nh_a;
    nh_b[0] ^= 0xFF;
    let pi = synthetic_pi_for_pubkey_with_id_and_names(&pk, &reg, &mock_contract_addr(), MOCK_NEXT_ELECTION_ID, &nh_a);
    let err = verify_registration_quote(&reg, &pk, &mock_contract_addr(), MOCK_NEXT_ELECTION_ID, &nh_b, &pi, &GnarkVerdict::Verified)
        .unwrap_err();
    assert!(matches!(err, ContractError::AttestationPubkeyBindingMismatch));
}

#[test]
fn registration_quote_correct_binding_ok() {
    let reg = good_registry();
    let pk = good_pubkey();
    let pi = synthetic_pi_for_pubkey(&pk, &reg);
    verify_registration_quote(
        &reg,
        &pk,
        &mock_contract_addr(),
        MOCK_NEXT_ELECTION_ID,
        &three_names_hash(),
        &pi,
        &GnarkVerdict::Verified,
    )
    .unwrap();
}

#[test]
fn declaration_order_subsequence_accepted() {
    let full = vec!["a".to_string(), "b".to_string(), "c".to_string()];
    assert!(is_in_declaration_order(&["a".to_string(), "c".to_string()], &full));
    assert!(is_in_declaration_order(&[], &full));
}

#[test]
fn declaration_order_shuffled_rejected() {
    let full = vec!["a".to_string(), "b".to_string(), "c".to_string()];
    assert!(!is_in_declaration_order(&["c".to_string(), "a".to_string()], &full));
    assert!(!is_in_declaration_order(&["d".to_string()], &full));
}

#[test]
fn check_tally_well_formed_shuffled_winners_rejected() {
    let election = Election {
        id: 1,
        title: "t".into(),
        candidates: three_cands(),
        candidate_names: three_names(),
        start_at: 0,
        end_at: 100_000_000_000,
        ballot_count: 3,
        enclave_pubkey: good_pubkey(),
    };
    let mut tally = TallyResult {
        winners: vec!["c2".to_string(), "c0".to_string()],
        per_round_counts: vec![vec![
            RoundCount { candidate: "c0".to_string(), count: 1 },
            RoundCount { candidate: "c1".to_string(), count: 1 },
            RoundCount { candidate: "c2".to_string(), count: 1 },
        ]],
        eliminated_by_round: vec![],
        ballots_tallied: 3,
        ballots_dropped: 0,
        dropped_voters: vec![],
        non_voters: vec![],
    };
    let err = check_tally_well_formed(&election, &tally).unwrap_err();
    assert!(matches!(err, ContractError::AttestationFailure(s) if s.contains("winners not in candidate-declaration order")));
    tally.winners = vec!["c0".to_string(), "c2".to_string()];
    check_tally_well_formed(&election, &tally).unwrap();
}

#[test]
fn check_tally_well_formed_rejects_each_broken_rule() {
    let election = Election {
        id: 1,
        title: "t".into(),
        candidates: three_cands(),
        candidate_names: three_names(),
        start_at: 0,
        end_at: 100,
        ballot_count: 1,
        enclave_pubkey: good_pubkey(),
    };
    check_tally_well_formed(&election, &minimal_valid_tally()).unwrap();
    let msg = |t: &TallyResult| match check_tally_well_formed(&election, t) {
        Err(ContractError::AttestationFailure(s)) => s,
        other => panic!("unexpected {other:?}"),
    };
    let mut t = minimal_valid_tally();
    t.winners = vec![];
    assert_eq!(msg(&t), "winners cardinality out of bounds");
    let mut t = minimal_valid_tally();
    t.ballots_dropped = 1;
    assert_eq!(msg(&t), "dropped_voters length disagrees with ballots_dropped");
    let mut t = minimal_valid_tally();
    t.non_voters = vec!["c1".to_string()];
    assert_eq!(msg(&t), "tally partition equation violated");
    let mut t = minimal_valid_tally();
    t.per_round_counts[0][0].count = 2;
    assert_eq!(msg(&t), "per_round_counts row does not sum to ballots_tallied");
    let mut t = minimal_valid_tally();
    t.per_round_counts = vec![
        vec![RoundCount { candidate: "c0".to_string(), count: 1 }, RoundCount { candidate: "c1".to_string(), count: 0 }],
        vec![RoundCount { candidate: "c1".to_string(), count: 1 }],
    ];
    t.eliminated_by_round = vec![vec!["c1".to_string()]];
    assert_eq!(msg(&t), "eliminated candidate reappears in later round");
}

#[test]
fn candidate_names_rules() {
    let cands = three_cands();
    validate_candidate_names(&cands, &three_names()).unwrap();
    assert!(matches!(
        validate_candidate_names(&cands, &["a".to_string()]),
        Err(ContractError::CandidateNamesLengthMismatch { expected: 3, actual: 1 })
    ));
    let names = vec!["a".to_string(), String::new(), "c".to_string()];
    assert!(matches!(validate_candidate_names(&cands, &names), Err(ContractError::CandidateNameEmpty { index: 1 })));
    let names = vec!["a".to_string(), "x".repeat(65), "c".to_string()];
    assert!(matches!(
        validate_candidate_names(&cands, &names),
        Err(ContractError::CandidateNameTooLong { index: 1, len: 65, max: 64 })
    ));
    let names = vec!["a".to_string(), "b\0".to_string(), "c".to_string()];
    assert!(matches!(validate_candidate_names(&cands, &names), Err(ContractError::CandidateNameContainsNul { index: 1 })));
    let names = vec!["a".to_string(), "b".to_string(), "a".to_string()];
    assert!(matches!(
        validate_candidate_names(&cands, &names),
        Err(ContractError::DuplicateCandidateName { index: 2, duplicate_of: 0 })
    ));
}

#[test]
fn dst_tag_check_accepts_only_tag_and_zeros() {
    let commit = [7u8; 32];
    let rd = build_publish_report_data(&commit);
    assert_eq!(&rd[..32], &commit[..]);
    check_dst_tag(&rd, &DST_TALLY).unwrap();
    assert!(matches!(check_dst_tag(&rd, &DST_PUBKEY), Err(ContractError::AttestationDomainTagInvalid)));
    let mut bad = rd;
    bad[63] = 1;
    assert!(matches!(check_dst_tag(&bad, &DST_TALLY), Err(ContractError::AttestationDomainTagInvalid)));
}

#[test]
fn gnark_witness_has_header_then_inputs() {
    let pi = vec![9u8; 5];
    let w = gnark_witness_bytes(&pi);
    assert_eq!(&w[..12], &[0, 0, 1, 50, 0, 0, 0, 0, 0, 0, 1, 50]);
    assert_eq!(&w[12..], &pi[..]);
}
