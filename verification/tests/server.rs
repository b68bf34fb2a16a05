//! The tally service's request handling with a fixed enclave key.
use borsh::to_vec as borsh_to_vec;
use ecies::utils::generate_keypair;
use verified_rcv::enclave::attestation::{
    build_publish_report_data, build_registration_report_data, compute_ballots_hash, compute_names_hash,
    extract_report_data, EnclaveIdentity, DST_PUBKEY, ULTRAHONK_PUBLIC_INPUTS_LEN,
};
use verified_rcv::enclave::server::{ServiceError, TallyServiceImpl};
use verified_rcv::enclave::tdx_quote::Measurements;
use verified_rcv::RawEntry;

fn encrypt_for_test(ranking: &[&str], pubkey_uncompressed: &[u8]) -> Vec<u8> {
    let v: Vec<String> = ranking.iter().map(|s| s.to_string()).collect();
    let plaintext = borsh_to_vec(&v).unwrap();
    ecies::encrypt(pubkey_uncompressed, &plaintext).unwrap()
}

fn dev_identity() -> EnclaveIdentity {
    EnclaveIdentity {
        mrtd: [0u8; 48],
        rtmr0: [0u8; 48],
        rtmr1: [0u8; 48],
        rtmr2: [0u8; 48],
        rtmr3: [0u8; 48],
        tcb_status: 0,
        timestamp: 1_700_000_000,
    }
}

#[test]
fn server_smoke() {
    let (sk, pk) = generate_keypair();
    let mut priv32 = [0u8; 32];
    priv32.copy_from_slice(&sk.serialize());
    let pubkey = pk.serialize();
    let cands = vec!["A".to_string(), "B".to_string(), "C".to_string()];
    let ct_a = encrypt_for_test(&["A", "B", "C"], &pubkey);
    let ct_b = encrypt_for_test(&["A", "C", "B"], &pubkey);
    let raw_ballots = vec![
        RawEntry { voter: "A".to_string(), ciphertext: ct_a.clone() },
        RawEntry { voter: "B".to_string(), ciphertext: ct_b.clone() },
    ];
    let svc = TallyServiceImpl::new(dev_identity());
    let names = vec!["Ada".to_string(), "Bea".to_string(), "Cyd".to_string()];
    let resp = svc.tally(&priv32, "xion1contract", 42, &cands, &raw_ballots, "xion-test-1", &names);
    let tally = resp.tally;
    assert_eq!(tally.winners, vec!["A".to_string()]);
    assert_eq!(tally.ballots_tallied, 2);
    assert_eq!(tally.ballots_dropped, 0);
    assert_eq!(tally.non_voters, vec!["C".to_string()]);
    assert!(!resp.proof.is_empty(), "proof bytes present");
    assert_eq!(resp.public_inputs.len(), ULTRAHONK_PUBLIC_INPUTS_LEN, "public_inputs length matches the packed layout");
    let rd = extract_report_data(&resp.public_inputs).expect("packed public_inputs decodes");
    let rd_low: [u8; 32] = rd[..32].try_into().unwrap();
    let ballots_for_hash: Vec<(String, Vec<u8>)> = vec![("A".to_string(), ct_a), ("B".to_string(), ct_b)];
    let bh = compute_ballots_hash(&cands, &ballots_for_hash);
    let nh = compute_names_hash(&names);
    let expected_rd = build_publish_report_data("xion1contract", "xion-test-1", 42, &bh, &nh, &tally);
    assert_eq!(rd_low, expected_rd[..32], "ReportData[0..32] = commit_hash");
}

#[test]
fn register_pubkey_smoke() {
    let priv32 = [0x42u8; 32];
    let svc = TallyServiceImpl::new(dev_identity());
    let reg_names = vec!["Ada".to_string(), "Bea".to_string(), "Cyd".to_string()];
    let resp = svc.register_pubkey(&priv32, "xion1contract", 7, &reg_names).expect("register_pubkey");
    assert_eq!(resp.enclave_pubkey.len(), 33, "enclave_pubkey is SEC1-compressed (33 bytes)");
    assert!(
        resp.enclave_pubkey[0] == 0x02 || resp.enclave_pubkey[0] == 0x03,
        "enclave_pubkey leading byte is 0x02 or 0x03 (got 0x{:02x})",
        resp.enclave_pubkey[0]
    );
    assert_eq!(resp.public_inputs.len(), ULTRAHONK_PUBLIC_INPUTS_LEN);
    let rd = extract_report_data(&resp.public_inputs).expect("packed public_inputs decodes");
    let rd_low: [u8; 32] = rd[..32].try_into().unwrap();
    let expected_nh = compute_names_hash(&reg_names);
    let expected_rd = build_registration_report_data(&resp.enclave_pubkey, "xion1contract", 7, &expected_nh);
    assert_eq!(rd_low, expected_rd[..32], "ReportData[0..32] = registration preimage hash");
    let rd_high: [u8; 32] = rd[32..64].try_into().unwrap();
    assert_eq!(&rd_high[..DST_PUBKEY.len()], &DST_PUBKEY[..], "ReportData[32..58] = DST_VERIFIED_RCV_PUBKEY_V1");
    assert!(!resp.proof.is_empty(), "proof bytes present");
}

#[test]
fn health_returns_cached_measurements() {
    let svc_no_m = TallyServiceImpl::new(dev_identity());
    let resp = svc_no_m.health();
    assert!(!resp.ready, "no measurements => ready=false");
    assert!(resp.mrtd_hex.is_empty());
    assert!(resp.rtmr_hex.is_empty());
    let m = Measurements { mrtd: [0xAA; 48], rtmr0: [0xBB; 48], rtmr1: [0xCC; 48], rtmr2: [0xDD; 48], rtmr3: [0xEE; 48] };
    let svc_with_m = TallyServiceImpl::with_measurements(dev_identity(), m.clone());
    let resp2 = svc_with_m.health();
    assert!(resp2.ready, "cached measurements => ready=true");
    assert_eq!(resp2.mrtd_hex, hex::encode(m.mrtd));
    assert_eq!(resp2.rtmr_hex, hex::encode(m.rtmr0));
}

#[test]
fn register_pubkey_deterministic_for_same_input() {
    let priv32 = [0x33u8; 32];
    let svc = TallyServiceImpl::new(dev_identity());
    let names = vec!["Ada".to_string(), "Bea".to_string()];
    let a = svc.register_pubkey(&priv32, "xion1abc", 99, &names).unwrap();
    let b = svc.register_pubkey(&priv32, "xion1abc", 99, &names).unwrap();
    assert_eq!(a.enclave_pubkey, b.enclave_pubkey);
    assert_eq!(a.public_inputs, b.public_inputs);
}

// ---------------------------------------------------------------------------
// Own tests
// ---------------------------------------------------------------------------

#[test]
fn register_pubkey_rejects_zero_key() {
    let svc = TallyServiceImpl::new(dev_identity());
    let r = svc.register_pubkey(&[0u8; 32], "xion1abc", 1, &vec![]);
    assert!(matches!(r, Err(ServiceError::InvalidEnclaveKey)));
}

#[test]
fn registered_pubkey_matches_the_ecies_public_key() {
    let (sk, pk) = generate_keypair();
    let mut priv32 = [0u8; 32];
    priv32.copy_from_slice(&sk.serialize());
    let svc = TallyServiceImpl::new(dev_identity());
    let r = svc.register_pubkey(&priv32, "xion1abc", 1, &vec![]).unwrap();
    assert_eq!(r.enclave_pubkey, pk.serialize_compressed().to_vec());
}

#[test]
fn health_hex_is_lowercase_two_digits_per_byte() {
    let m = Measurements { mrtd: [0x0F; 48], rtmr0: [0xA0; 48], rtmr1: [0; 48], rtmr2: [0; 48], rtmr3: [0; 48] };
    let h = TallyServiceImpl::with_measurements(dev_identity(), m).health();
    assert_eq!(h.mrtd_hex, "0f".repeat(48));
    assert_eq!(h.rtmr_hex, "a0".repeat(48));
}

#[test]
fn register_pubkey_key_range_is_below_the_group_order() {
    let order: [u8; 32] = [
        0xFF, 0xFF, 0xFF, 0xFF, 0xFF, 0xFF, 0xFF, 0xFF, 0xFF, 0xFF, 0xFF, 0xFF, 0xFF, 0xFF, 0xFF, 0xFE, 0xBA, 0xAE,
        0xDC, 0xE6, 0xAF, 0x48, 0xA0, 0x3B, 0xBF, 0xD2, 0x5E, 0x8C, 0xD0, 0x36, 0x41, 0x41,
    ];
    let svc = TallyServiceImpl::new(dev_identity());
    assert!(matches!(svc.register_pubkey(&order, "x", 1, &vec![]), Err(ServiceError::InvalidEnclaveKey)));
    let mut below = order;
    below[31] = 0x40;
    assert!(svc.register_pubkey(&below, "x", 1, &vec![]).is_ok());
    let mut one = [0u8; 32];
    one[31] = 1;
    let r = svc.register_pubkey(&one, "x", 1, &vec![]).unwrap();
    assert_eq!(r.enclave_pubkey[0], 0x02);
}
