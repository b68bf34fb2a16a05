//! The contract's and the enclave's encodings agree byte for byte: both
//! sides of the binding go through the same verified serializers.
use sha2::{Digest, Sha256};
use verified_rcv::contract as contract_impl;
use verified_rcv::contract::layout::{build_synthetic_public_inputs, extract_measurement_48, ELEM_MRTD_START, ELEM_RTMR1_START};
use verified_rcv::contract::quote::build_publish_report_data as contract_build_publish_report_data;
use verified_rcv::enclave::attestation as runtime_impl;
use verified_rcv::{RoundCount, TallyResult};

fn sample_tally() -> TallyResult {
    TallyResult {
        winners: vec!["alice".to_string(), "carol".to_string()],
        per_round_counts: vec![
            vec![
                RoundCount { candidate: "alice".to_string(), count: 2 },
                RoundCount { candidate: "bob".to_string(), count: 1 },
                RoundCount { candidate: "carol".to_string(), count: 2 },
            ],
            vec![
                RoundCount { candidate: "alice".to_string(), count: 2 },
                RoundCount { candidate: "carol".to_string(), count: 3 },
            ],
        ],
        eliminated_by_round: vec![vec!["bob".to_string()]],
        ballots_tallied: 5,
        ballots_dropped: 1,
        dropped_voters: vec!["dave".to_string()],
        non_voters: vec!["eve".to_string()],
    }
}

fn empty_bh() -> [u8; 32] {
    runtime_impl::compute_ballots_hash(&[], &[])
}

fn empty_nh() -> [u8; 32] {
    runtime_impl::compute_names_hash(&[])
}

#[test]
fn canonical_serialization_contract_vs_runtime_byte_identical() {
    let tally = sample_tally();
    let bh = empty_bh();
    let nh = empty_nh();
    let contract_bytes = contract_impl::canonical_serialization("xion1abcdef", "xion-1", 42, &bh, &nh, &tally);
    let runtime_bytes = runtime_impl::canonical_serialization("xion1abcdef", "xion-1", 42, &bh, &nh, &tally);
    assert_eq!(contract_bytes, runtime_bytes, "canonical_serialization divergence between contract and runtime");
}

#[test]
fn canonical_serialization_election_id_affects_bytes() {
    let tally = sample_tally();
    let bh = empty_bh();
    let nh = empty_nh();
    let a = runtime_impl::canonical_serialization("xion1addr", "cid", 1, &bh, &nh, &tally);
    let b = runtime_impl::canonical_serialization("xion1addr", "cid", 2, &bh, &nh, &tally);
    assert_ne!(a, b, "election_id must affect canonical_serialization bytes");
}

#[test]
fn canonical_serialization_chain_id_affects_bytes() {
    let tally = sample_tally();
    let bh = empty_bh();
    let nh = empty_nh();
    let a = runtime_impl::canonical_serialization("xion1addr", "xion-1", 7, &bh, &nh, &tally);
    let b = runtime_impl::canonical_serialization("xion1addr", "xion-2", 7, &bh, &nh, &tally);
    assert_ne!(a, b, "chain_id must affect canonical_serialization bytes");
}

#[test]
fn canonical_serialization_ballots_hash_affects_bytes() {
    let tally = sample_tally();
    let bh_empty = empty_bh();
    let bh_one = runtime_impl::compute_ballots_hash(&["alice".to_string()], &[("alice".to_string(), vec![1, 2, 3])]);
    let nh = empty_nh();
    let a = runtime_impl::canonical_serialization("xion1c", "xion-1", 7, &bh_empty, &nh, &tally);
    let b = runtime_impl::canonical_serialization("xion1c", "xion-1", 7, &bh_one, &nh, &tally);
    assert_ne!(a, b, "ballots_hash must affect canonical_serialization bytes");
}

#[test]
fn canonical_serialization_names_hash_affects_bytes() {
    let tally = sample_tally();
    let bh = empty_bh();
    let nh_a = runtime_impl::compute_names_hash(&["Alice".to_string(), "Bob".to_string()]);
    let nh_b = runtime_impl::compute_names_hash(&["Carol".to_string(), "Dan".to_string()]);
    let a = runtime_impl::canonical_serialization("xion1c", "xion-1", 7, &bh, &nh_a, &tally);
    let b = runtime_impl::canonical_serialization("xion1c", "xion-1", 7, &bh, &nh_b, &tally);
    assert_ne!(a, b, "names_hash must affect canonical_serialization bytes");
}

#[test]
fn canonical_serialization_empty_tally_position_check() {
    let tally = TallyResult {
        winners: vec![],
        per_round_counts: vec![],
        eliminated_by_round: vec![],
        ballots_tallied: 0,
        ballots_dropped: 0,
        dropped_voters: vec![],
        non_voters: vec![],
    };
    let bh = empty_bh();
    let nh = empty_nh();
    let bytes_e1 = runtime_impl::canonical_serialization("a", "b", 1, &bh, &nh, &tally);
    let bytes_e2 = runtime_impl::canonical_serialization("a", "b", 2, &bh, &nh, &tally);
    assert_eq!(bytes_e1[0..5], bytes_e2[0..5]);
    assert_eq!(bytes_e1[5..10], bytes_e2[5..10]);
    assert_eq!(bytes_e1[10..18], 1u64.to_le_bytes());
    assert_eq!(bytes_e2[10..18], 2u64.to_le_bytes());
    assert_eq!(bytes_e1[18..50], bh);
    assert_eq!(bytes_e2[18..50], bh);
    assert_eq!(bytes_e1[50..82], nh);
    assert_eq!(bytes_e2[50..82], nh);
    assert_eq!(bytes_e1[82..], bytes_e2[82..]);
}

#[test]
fn commit_hash_matches_runtime_publish_report_data() {
    let tally = sample_tally();
    let bh = empty_bh();
    let nh = empty_nh();
    let contract_commit = contract_impl::compute_commit_hash("xion1c", "xion-1", 7, &bh, &nh, &tally);
    let runtime_rd = runtime_impl::build_publish_report_data("xion1c", "xion-1", 7, &bh, &nh, &tally);
    assert_eq!(&runtime_rd[..32], &contract_commit[..]);
    let canonical = runtime_impl::canonical_serialization("xion1c", "xion-1", 7, &bh, &nh, &tally);
    let expected = Sha256::digest(&canonical);
    assert_eq!(&runtime_rd[..32], &expected[..]);
}

#[test]
fn publish_report_data_dst_matches_contract_layout() {
    let tally = sample_tally();
    let bh = empty_bh();
    let nh = empty_nh();
    let commit = contract_impl::compute_commit_hash("xion1c", "xion-1", 7, &bh, &nh, &tally);
    let contract_rd = contract_build_publish_report_data(&commit);
    let runtime_rd = runtime_impl::build_publish_report_data("xion1c", "xion-1", 7, &bh, &nh, &tally);
    assert_eq!(contract_rd, runtime_rd);
}

#[test]
fn compute_names_hash_contract_vs_runtime_byte_identical() {
    let names = vec!["Alice".to_string(), "Bob".to_string(), "Carol Q. \u{00e9}".to_string()];
    let runtime_nh = runtime_impl::compute_names_hash(&names);
    let contract_nh = contract_impl::compute_names_hash(&names);
    assert_eq!(runtime_nh, contract_nh, "compute_names_hash divergence between contract and runtime");
    let runtime_empty = runtime_impl::compute_names_hash(&[]);
    let contract_empty = contract_impl::compute_names_hash(&[]);
    assert_eq!(runtime_empty, contract_empty);
}

#[test]
fn compute_ballots_hash_contract_vs_runtime_byte_identical() {
    let candidates = vec!["alice".to_string(), "bob".to_string(), "carol".to_string()];
    let ballots: Vec<(String, Vec<u8>)> = vec![("alice".to_string(), vec![0xAA; 8]), ("carol".to_string(), vec![0xCC; 12])];
    let runtime_bh = runtime_impl::compute_ballots_hash(&candidates, &ballots);
    let contract_bh = contract_impl::compute_ballots_hash(&candidates, &ballots);
    assert_eq!(runtime_bh, contract_bh, "compute_ballots_hash divergence between contract and runtime");
}

#[test]
fn registration_report_data_dst_matches_contract_layout() {
    let pk = vec![0x02u8; 33];
    let names = vec!["Alice".to_string(), "Bob".to_string()];
    let runtime_nh = runtime_impl::compute_names_hash(&names);
    let contract_nh = contract_impl::compute_names_hash(&names);
    assert_eq!(runtime_nh, contract_nh, "names_hash cross-byte-identity");
    let contract_rd = contract_impl::build_registration_report_data(&pk, "xion1addr", 7, &contract_nh);
    let runtime_rd = runtime_impl::build_registration_report_data(&pk, "xion1addr", 7, &runtime_nh);
    assert_eq!(contract_rd, runtime_rd);
}

#[test]
fn registration_report_data_binds_names_hash() {
    let pk = vec![0x02u8; 33];
    let names_a = vec!["Alice".to_string(), "Bob".to_string()];
    let names_b = vec!["Carol".to_string(), "Dan".to_string()];
    let nh_a = runtime_impl::compute_names_hash(&names_a);
    let nh_b = runtime_impl::compute_names_hash(&names_b);
    let rd_a = runtime_impl::build_registration_report_data(&pk, "xion1addr", 7, &nh_a);
    let rd_b = runtime_impl::build_registration_report_data(&pk, "xion1addr", 7, &nh_b);
    assert_ne!(rd_a[..32], rd_b[..32], "names_hash must affect registration ReportData");
    let crd_a = contract_impl::build_registration_report_data(&pk, "xion1addr", 7, &nh_a);
    let crd_b = contract_impl::build_registration_report_data(&pk, "xion1addr", 7, &nh_b);
    assert_eq!(rd_a, crd_a);
    assert_eq!(rd_b, crd_b);
}

#[test]
fn synthetic_public_inputs_round_trip_contract_extraction() {
    let mut mrtd = [0u8; 48];
    for (i, b) in mrtd.iter_mut().enumerate() {
        *b = (i as u8).wrapping_add(0x10);
    }
    let mut rtmr1 = [0u8; 48];
    for (i, b) in rtmr1.iter_mut().enumerate() {
        *b = (i as u8).wrapping_add(0x20);
    }
    let mut rd = [0u8; 64];
    for (i, b) in rd.iter_mut().enumerate() {
        *b = (i as u8).wrapping_add(0xA0);
    }
    let pi = build_synthetic_public_inputs(&mrtd, &[0; 48], &rtmr1, &[0; 48], &[0; 48], &rd, 3, 1_700_000_000);
    let extracted_mrtd = extract_measurement_48(&pi, ELEM_MRTD_START).unwrap();
    assert_eq!(extracted_mrtd, mrtd);
    let extracted_rtmr1 = extract_measurement_48(&pi, ELEM_RTMR1_START).unwrap();
    assert_eq!(extracted_rtmr1, rtmr1);
    let extracted_rd = verified_rcv::contract::layout::extract_report_data(&pi).unwrap();
    assert_eq!(extracted_rd, rd);
    let packed = runtime_impl::build_public_inputs(&mrtd, &[0; 48], &rtmr1, &[0; 48], &[0; 48], &rd, 3, 1_700_000_000);
    assert_eq!(runtime_impl::extract_report_data(&packed), Some(rd));
    assert_eq!(runtime_impl::extract_timestamp(&packed), Some(1_700_000_000));
}
