//! Hex decoding of keys and registers, the KMS key path, and filling the
//! attested identity from a boot quote's measurements.
use verified_rcv::enclave::attestation::{identity_with_measurements, EnclaveIdentity};
use verified_rcv::enclave::dstack::kms_key_path;
use verified_rcv::enclave::tdx_quote::Measurements;
use verified_rcv::hexcodec::{decode_hex_bytes, decode_key_hex, decode_register_hex, HexFieldError};

#[test]
fn key_hex_decodes_either_case() {
    let lower = "0a".repeat(32);
    let upper = "0A".repeat(32);
    assert_eq!(decode_key_hex(&lower), Ok([0x0a; 32]));
    assert_eq!(decode_key_hex(&upper), Ok([0x0a; 32]));
}

#[test]
fn key_hex_errors() {
    assert_eq!(decode_key_hex("abc"), Err(HexFieldError::InvalidHex));
    assert_eq!(decode_key_hex("zz"), Err(HexFieldError::InvalidHex));
    assert_eq!(decode_key_hex(&"00".repeat(31)), Err(HexFieldError::WrongLength(31)));
    assert_eq!(decode_key_hex("é0"), Err(HexFieldError::InvalidHex));
}

#[test]
fn register_hex_needs_48_bytes() {
    assert_eq!(decode_register_hex(&"ff".repeat(48)), Ok([0xff; 48]));
    assert_eq!(decode_register_hex(&"ff".repeat(32)), Err(HexFieldError::WrongLength(32)));
}

#[test]
fn hex_bytes_any_length() {
    assert_eq!(decode_hex_bytes(""), Some(vec![]));
    assert_eq!(decode_hex_bytes("00fF10"), Some(vec![0x00, 0xff, 0x10]));
    assert_eq!(decode_hex_bytes("0"), None);
}

#[test]
fn kms_path_format() {
    assert_eq!(kms_key_path("xion1abc", 7), "verified-rcv-v1:xion1abc:7");
    assert_eq!(kms_key_path("", 0), "verified-rcv-v1::0");
    assert_eq!(kms_key_path("a", u64::MAX), format!("verified-rcv-v1:a:{}", u64::MAX));
}

#[test]
fn identity_takes_measured_registers_left_unset() {
    let mut configured = EnclaveIdentity {
        mrtd: [0u8; 48],
        rtmr0: [0u8; 48],
        rtmr1: [0u8; 48],
        rtmr2: [0u8; 48],
        rtmr3: [0u8; 48],
        tcb_status: 2,
        timestamp: 99,
    };
    configured.rtmr1[5] = 1;
    let m = Measurements { mrtd: [0xAA; 48], rtmr0: [0xBB; 48], rtmr1: [0xCC; 48], rtmr2: [0xDD; 48], rtmr3: [0xEE; 48] };
    let id = identity_with_measurements(&configured, &m);
    assert_eq!(id.mrtd, [0xAA; 48]);
    assert_eq!(id.rtmr0, [0xBB; 48]);
    assert_eq!(id.rtmr1, configured.rtmr1);
    assert_eq!(id.rtmr2, [0xDD; 48]);
    assert_eq!(id.rtmr3, [0xEE; 48]);
    assert_eq!(id.tcb_status, 2);
    assert_eq!(id.timestamp, 99);
}
