//! The TDX v4 quote parser on hand-built quotes.
use verified_rcv::enclave::tdx_quote::{parse_measurements, ParseError, SQ_MIN_LEN, SQ_MR_TD, SQ_RTMR0, SQ_RTMR3};

fn stub_quote(mrtd: u8, rtmr0: u8) -> Vec<u8> {
    let mut q = vec![0u8; SQ_MIN_LEN];
    q[0] = 4;
    q[1] = 0;
    q[4] = 0x81;
    for b in &mut q[SQ_MR_TD..SQ_MR_TD + 48] {
        *b = mrtd;
    }
    for b in &mut q[SQ_RTMR0..SQ_RTMR0 + 48] {
        *b = rtmr0;
    }
    q
}

#[test]
fn parses_valid_stub() {
    let q = stub_quote(0xAB, 0xCD);
    let m = parse_measurements(&q).expect("valid stub parses");
    assert_eq!(m.mrtd, [0xAB; 48]);
    assert_eq!(m.rtmr0, [0xCD; 48]);
    assert_eq!(m.rtmr1, [0; 48]);
}

#[test]
fn rejects_short_quote() {
    let q = vec![0u8; 100];
    match parse_measurements(&q) {
        Err(ParseError::TooShort(100)) => {}
        other => panic!("expected TooShort(100), got {other:?}"),
    }
}

#[test]
fn rejects_wrong_version() {
    let mut q = stub_quote(0, 0);
    q[0] = 5;
    match parse_measurements(&q) {
        Err(ParseError::UnsupportedVersion(5)) => {}
        other => panic!("expected UnsupportedVersion(5), got {other:?}"),
    }
}

#[test]
fn rejects_non_tdx() {
    let mut q = stub_quote(0, 0);
    q[4] = 0;
    match parse_measurements(&q) {
        Err(ParseError::NotTdx(0)) => {}
        other => panic!("expected NotTdx(0), got {other:?}"),
    }
}

#[test]
fn rejects_simulator_mock_quote() {
    let mut q = Vec::from(b"DSTACK_MOCK_QV01" as &[u8]);
    q.extend_from_slice(&[0u8; 64]);
    q.extend_from_slice(&[0u8; 32]);
    assert_eq!(q.len(), 112);
    assert!(matches!(parse_measurements(&q), Err(ParseError::TooShort(112))));
}

#[test]
fn version_is_read_little_endian_over_two_bytes() {
    let mut q = stub_quote(0, 0);
    q[1] = 1;
    assert_eq!(parse_measurements(&q), Err(ParseError::UnsupportedVersion(260)));
}

#[test]
fn last_register_is_read_at_its_offset() {
    let mut q = stub_quote(0, 0);
    for b in &mut q[SQ_RTMR3..SQ_RTMR3 + 48] {
        *b = 0x5A;
    }
    let m = parse_measurements(&q).unwrap();
    assert_eq!(m.rtmr3, [0x5A; 48]);
    assert_eq!(m.rtmr2, [0; 48]);
}
