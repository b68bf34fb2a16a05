//! The dstack simulator: fixed key, mock quotes, empty identity.
use sha2::{Digest, Sha256};
use verified_rcv::enclave::dstack::{key_from_bytes, mock_quote, parse_mock_quote_user_data, SimulatorDstackClient};

#[test]
fn simulator_derive_privkey_is_deterministic() {
    let key = [7u8; 32];
    let client = SimulatorDstackClient::with_privkey(key);
    let a = client.derive_privkey("xion1abc", 7).unwrap();
    let b = client.derive_privkey("xion1abc", 7).unwrap();
    let c = client.derive_privkey("xion1xyz", 99).unwrap();
    assert_eq!(a, key);
    assert_eq!(a, b);
    assert_eq!(a, c);
}

#[test]
fn simulator_quote_round_trips_user_data() {
    let client = SimulatorDstackClient::with_privkey([1u8; 32]);
    let report = [0xABu8; 64];
    let quote = client.get_quote(&report).unwrap();
    let recovered = parse_mock_quote_user_data(&quote).expect("simulator-magic quote");
    assert_eq!(recovered, report);
}

#[test]
fn simulator_image_identity_empty() {
    let client = SimulatorDstackClient::with_privkey([1u8; 32]);
    let id = client.get_image_identity().unwrap();
    assert!(id.compose_hash.is_empty());
    assert!(id.rtmr.is_empty());
}

#[test]
fn mock_quote_layout_is_magic_data_digest() {
    let report = [0x11u8; 64];
    let q = mock_quote(&report);
    assert_eq!(q.len(), 112);
    assert_eq!(&q[..16], b"DSTACK_MOCK_QV01");
    assert_eq!(&q[16..80], &report[..]);
    assert_eq!(&q[80..], &Sha256::digest(&report)[..]);
}

#[test]
fn non_simulator_quote_has_no_user_data() {
    assert_eq!(parse_mock_quote_user_data(&[0u8; 112]), None);
    assert_eq!(parse_mock_quote_user_data(b"DSTACK_MOCK_QV01"), None);
}

#[test]
fn derived_key_must_be_32_bytes() {
    assert_eq!(key_from_bytes(&[9u8; 32]), Some([9u8; 32]));
    assert_eq!(key_from_bytes(&[9u8; 31]), None);
    assert_eq!(key_from_bytes(&[9u8; 33]), None);
}
