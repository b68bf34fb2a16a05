//! Attestation artifacts: canonical serialization, hashes, ReportData
//! layouts and the packed public inputs.
use sha2::{Digest, Sha256};
use verified_rcv::enclave::attestation::{
    build_public_inputs, build_publish_report_data, build_registration_report_data,
    canonical_serialization, check_prover_output, compute_ballots_hash, compute_names_hash,
    extract_report_data, extract_timestamp, write_borsh_string, DST_PUBKEY, DST_TALLY,
    ULTRAHONK_PUBLIC_INPUTS_LEN,
};
use verified_rcv::{RoundCount, TallyResult};

fn sample_tally() -> TallyResult {
    TallyResult {
        winners: vec!["alice".to_string()],
        per_round_counts: vec![vec![
            RoundCount { candidate: "alice".to_string(), count: 2 },
            RoundCount { candidate: "bob".to_string(), count: 1 },
        ]],
        eliminated_by_round: vec![],
        ballots_tallied: 3,
        ballots_dropped: 0,
        dropped_voters: vec![],
        non_voters: vec!["carol".to_string()],
    }
}

fn empty_bh() -> [u8; 32] {
    compute_ballots_hash(&[], &[])
}

fn empty_nh() -> [u8; 32] {
    compute_names_hash(&[])
}

#[test]
fn publish_report_data_layout() {
    let tally = sample_tally();
    let bh = empty_bh();
    let nh = empty_nh();
    let rd = build_publish_report_data("xion1contract", "xion-1", 7, &bh, &nh, &tally);
    let canonical = canonical_serialization("xion1contract", "xion-1", 7, &bh, &nh, &tally);
    let expect = Sha256::digest(&canonical);
    assert_eq!(&rd[..32], &expect[..]);
    assert_eq!(&rd[32..32 + DST_TALLY.len()], &DST_TALLY[..]);
    assert!(rd[32 + DST_TALLY.len()..].iter().all(|&b| b == 0));
}

#[test]
fn chain_id_affects_canonical_serialization_bytes() {
    let tally = sample_tally();
    let bh = empty_bh();
    let nh = empty_nh();
    let a = canonical_serialization("xion1c", "xion-1", 7, &bh, &nh, &tally);
    let b = canonical_serialization("xion1c", "xion-2", 7, &bh, &nh, &tally);
    assert_ne!(a, b, "chain_id must affect canonical_serialization bytes");
}

#[test]
fn ballots_hash_affects_canonical_serialization_bytes() {
    let tally = sample_tally();
    let bh_a = compute_ballots_hash(&["alice".to_string()], &[("alice".to_string(), vec![0u8; 4])]);
    let bh_b = compute_ballots_hash(&["alice".to_string()], &[("alice".to_string(), vec![0xFFu8; 4])]);
    let nh = empty_nh();
    let a = canonical_serialization("xion1c", "xion-1", 7, &bh_a, &nh, &tally);
    let b = canonical_serialization("xion1c", "xion-1", 7, &bh_b, &nh, &tally);
    assert_ne!(a, b, "ballots_hash must affect canonical_serialization bytes");
}

#[test]
fn names_hash_affects_canonical_serialization_bytes() {
    let tally = sample_tally();
    let bh = empty_bh();
    let nh_a = compute_names_hash(&["Alice".to_string(), "Bob".to_string()]);
    let nh_b = compute_names_hash(&["Carol".to_string(), "Dan".to_string()]);
    let a = canonical_serialization("xion1c", "xion-1", 7, &bh, &nh_a, &tally);
    let b = canonical_serialization("xion1c", "xion-1", 7, &bh, &nh_b, &tally);
    assert_ne!(a, b, "names_hash must affect canonical_serialization bytes");
}

#[test]
fn compute_names_hash_order_sensitive() {
    let a = compute_names_hash(&["Alice".to_string(), "Bob".to_string()]);
    let b = compute_names_hash(&["Bob".to_string(), "Alice".to_string()]);
    assert_ne!(a, b, "name order must affect names_hash");
}

#[test]
fn compute_names_hash_empty_stable() {
    let a = compute_names_hash(&[]);
    let b = compute_names_hash(&[]);
    assert_eq!(a, b);
}

#[test]
fn ballots_hash_candidate_declaration_order_pinned() {
    let cands = vec!["alice".to_string(), "bob".to_string()];
    let in_order = compute_ballots_hash(
        &cands,
        &[("alice".to_string(), vec![1, 2, 3]), ("bob".to_string(), vec![4, 5, 6])],
    );
    let shuffled = compute_ballots_hash(
        &cands,
        &[("bob".to_string(), vec![4, 5, 6]), ("alice".to_string(), vec![1, 2, 3])],
    );
    assert_eq!(in_order, shuffled);
}

#[test]
fn ballots_hash_ignores_entries_of_non_candidates() {
    let cands = vec!["alice".to_string(), "bob".to_string()];
    let plain = compute_ballots_hash(
        &cands,
        &[("alice".to_string(), vec![1, 2, 3]), ("bob".to_string(), vec![4, 5, 6])],
    );
    let with_stranger = compute_ballots_hash(
        &cands,
        &[
            ("bob".to_string(), vec![4, 5, 6]),
            ("mallory".to_string(), vec![9, 9]),
            ("alice".to_string(), vec![1, 2, 3]),
        ],
    );
    assert_eq!(plain, with_stranger);
}

#[test]
fn tally_affects_canonical_serialization_bytes() {
    let t1 = sample_tally();
    let mut t2 = sample_tally();
    t2.ballots_tallied += 1;
    let bh = empty_bh();
    let nh = empty_nh();
    let a = canonical_serialization("xion1c", "xion-1", 7, &bh, &nh, &t1);
    let b = canonical_serialization("xion1c", "xion-1", 7, &bh, &nh, &t2);
    assert_ne!(a, b);
    let mut t3 = sample_tally();
    t3.winners = vec!["al".to_string(), "ice".to_string()];
    let c = canonical_serialization("xion1c", "xion-1", 7, &bh, &nh, &t3);
    assert_ne!(a, c);
}

#[test]
fn registration_report_data_layout() {
    let pk = vec![0x02u8; 33];
    let nh = compute_names_hash(&["Alice".to_string(), "Bob".to_string()]);
    let rd = build_registration_report_data(&pk, "xion1addr", 7, &nh);
    let mut preimage = Vec::new();
    preimage.extend_from_slice(&pk);
    write_borsh_string(&mut preimage, "xion1addr");
    preimage.extend_from_slice(&7u64.to_le_bytes());
    preimage.extend_from_slice(&nh);
    let expect = Sha256::digest(&preimage);
    assert_eq!(&rd[..32], &expect[..]);
    assert_eq!(&rd[32..32 + DST_PUBKEY.len()], &DST_PUBKEY[..]);
    assert!(rd[32 + DST_PUBKEY.len()..].iter().all(|&b| b == 0));
}

#[test]
fn registration_report_data_election_id_binds_n22() {
    let pk = vec![0x03u8; 33];
    let nh = [0u8; 32];
    let a = build_registration_report_data(&pk, "xion1addr", 1, &nh);
    let b = build_registration_report_data(&pk, "xion1addr", 2, &nh);
    assert_ne!(a[..32], b[..32], "election_id must affect registration ReportData");
}

#[test]
fn registration_report_data_contract_addr_binds_n22() {
    let pk = vec![0x03u8; 33];
    let nh = [0u8; 32];
    let a = build_registration_report_data(&pk, "xion1A", 7, &nh);
    let b = build_registration_report_data(&pk, "xion1B", 7, &nh);
    assert_ne!(a[..32], b[..32], "contract_addr must affect registration ReportData");
}

#[test]
fn registration_report_data_names_hash_binds_f1() {
    let pk = vec![0x03u8; 33];
    let nh_a = compute_names_hash(&["Alice".to_string()]);
    let nh_b = compute_names_hash(&["Bob".to_string()]);
    assert_ne!(nh_a, nh_b, "compute_names_hash distinguishes inputs");
    let a = build_registration_report_data(&pk, "xion1addr", 7, &nh_a);
    let b = build_registration_report_data(&pk, "xion1addr", 7, &nh_b);
    assert_ne!(a[..32], b[..32], "names_hash must affect registration ReportData");
}

#[test]
fn public_inputs_total_length() {
    let pi = build_public_inputs(&[0; 48], &[0; 48], &[0; 48], &[0; 48], &[0; 48], &[0; 64], 0, 0);
    assert_eq!(pi.len(), ULTRAHONK_PUBLIC_INPUTS_LEN);
    assert_eq!(pi.len(), 544);
}

#[test]
fn public_inputs_pack_be_invariant() {
    let mut mrtd = [0u8; 48];
    mrtd[0] = 0xAB;
    mrtd[47] = 0xCD;
    let pi = build_public_inputs(&mrtd, &[0; 48], &[0; 48], &[0; 48], &[0; 48], &[0; 64], 0, 0);
    assert_eq!(pi[1], 0xAB);
    assert_eq!(pi[0], 0, "field 0 high byte zero");
    let field1 = 32usize;
    assert_eq!(pi[field1 + 31], 0xCD);
    for b in &pi[field1..field1 + (32 - 17)] {
        assert_eq!(*b, 0, "field 1 high bytes zero");
    }
}

#[test]
fn public_inputs_extract_round_trip() {
    let mut mrtd = [0u8; 48];
    for (i, b) in mrtd.iter_mut().enumerate() {
        *b = (i as u8).wrapping_add(0x10);
    }
    let mut rd = [0u8; 64];
    for (i, b) in rd.iter_mut().enumerate() {
        *b = (i as u8).wrapping_add(0xA0);
    }
    let pi = build_public_inputs(&mrtd, &[0; 48], &[0; 48], &[0; 48], &[0; 48], &rd, 3, 1_700_000_000);
    assert_eq!(extract_report_data(&pi), Some(rd));
    assert_eq!(extract_timestamp(&pi), Some(1_700_000_000));
}

#[test]
fn canonical_serialization_byte_for_byte() {
    let tally = TallyResult {
        winners: vec!["a".to_string()],
        per_round_counts: vec![vec![RoundCount { candidate: "a".to_string(), count: 1 }]],
        eliminated_by_round: vec![],
        ballots_tallied: 1,
        ballots_dropped: 0,
        dropped_voters: vec![],
        non_voters: vec![],
    };
    let bh = [0u8; 32];
    let nh = [0xFFu8; 32];
    let bytes = canonical_serialization("xc", "cid", 7, &bh, &nh, &tally);
    let mut expect = Vec::new();
    expect.extend_from_slice(&2u32.to_le_bytes());
    expect.extend_from_slice(b"xc");
    expect.extend_from_slice(&3u32.to_le_bytes());
    expect.extend_from_slice(b"cid");
    expect.extend_from_slice(&7u64.to_le_bytes());
    expect.extend_from_slice(&bh);
    expect.extend_from_slice(&nh);
    expect.extend_from_slice(&1u32.to_le_bytes());
    expect.extend_from_slice(&1u32.to_le_bytes());
    expect.extend_from_slice(b"a");
    expect.extend_from_slice(&1u32.to_le_bytes());
    expect.extend_from_slice(&1u32.to_le_bytes());
    expect.extend_from_slice(&1u32.to_le_bytes());
    expect.extend_from_slice(b"a");
    expect.extend_from_slice(&1u64.to_le_bytes());
    expect.extend_from_slice(&0u32.to_le_bytes());
    expect.extend_from_slice(&1u64.to_le_bytes());
    expect.extend_from_slice(&0u64.to_le_bytes());
    expect.extend_from_slice(&0u32.to_le_bytes());
    expect.extend_from_slice(&0u32.to_le_bytes());
    assert_eq!(bytes, expect);
}

#[test]
fn dst_tags_match_intent_v0_3_9() {
    assert_eq!(&DST_TALLY, b"DST_VERIFIED_RCV_TALLY_V1");
    assert_eq!(&DST_PUBKEY, b"DST_VERIFIED_RCV_PUBKEY_V1");
}

// ---------------------------------------------------------------------------
// Own tests
// ---------------------------------------------------------------------------

#[test]
fn names_hash_is_sha256_of_tagged_preimage() {
    let nh = compute_names_hash(&["Alice".to_string()]);
    let mut pre = Vec::new();
    pre.extend_from_slice(b"verified-rcv:names:v1");
    pre.extend_from_slice(&1u32.to_le_bytes());
    pre.extend_from_slice(&5u32.to_le_bytes());
    pre.extend_from_slice(b"Alice");
    let expect = Sha256::digest(&pre);
    assert_eq!(&nh[..], &expect[..]);
}

#[test]
fn prover_output_check_accepts_and_rejects() {
    let rd = [7u8; 64];
    let pi = build_public_inputs(&[0; 48], &[0; 48], &[0; 48], &[0; 48], &[0; 48], &rd, 0, 42);
    assert!(check_prover_output(&pi, &rd, 42).is_ok());
    assert!(check_prover_output(&pi, &rd, 43).is_err());
    assert!(check_prover_output(&pi, &[8u8; 64], 42).is_err());
    assert!(check_prover_output(&pi[..100], &rd, 42).is_err());
}

#[test]
fn extract_rejects_wrong_length() {
    assert_eq!(extract_report_data(&[0u8; 543]), None);
    assert_eq!(extract_timestamp(&[0u8; 545]), None);
}
