//! The HTTP framing of the exchange with the proving service.
use base64::Engine as _;
use verified_rcv::enclave::attestation::{
    extract_report_data, extract_timestamp, produce_artifacts_inner, AttestationError, EnclaveIdentity,
};
use verified_rcv::enclave::prove_http::{
    find_bytes, prove_request, prove_response_body, prover_artifacts, quote_hex, ProveResponseError,
};

#[test]
fn request_carries_head_and_body() {
    let body = br#"{"timestamp":7}"#;
    let req = prove_request(body);
    let expect = format!(
        "POST /prove HTTP/1.1\r\nHost: localhost\r\nContent-Type: application/json\r\nContent-Length: {}\r\nConnection: close\r\n\r\n{}",
        body.len(),
        std::str::from_utf8(body).unwrap()
    );
    assert_eq!(req, expect.into_bytes());
}

#[test]
fn request_content_length_in_decimal() {
    let body = vec![b'x'; 1234];
    let req = prove_request(&body);
    let text = String::from_utf8(req[..req.len() - body.len()].to_vec()).unwrap();
    assert!(text.contains("Content-Length: 1234\r\n"));
    let empty = prove_request(&[]);
    assert!(String::from_utf8(empty).unwrap().ends_with("Content-Length: 0\r\nConnection: close\r\n\r\n"));
}

#[test]
fn ok_reply_yields_body() {
    let resp = b"HTTP/1.1 200 OK\r\nContent-Type: application/json\r\n\r\n{\"proof\":\"\"}";
    assert_eq!(prove_response_body(resp).unwrap(), b"{\"proof\":\"\"}".to_vec());
}

#[test]
fn body_starts_after_first_blank_line() {
    let resp = b"HTTP/1.1 200 OK\r\n\r\nab\r\n\r\ncd";
    assert_eq!(prove_response_body(resp).unwrap(), b"ab\r\n\r\ncd".to_vec());
}

#[test]
fn non_200_reply_is_refused() {
    let resp = b"HTTP/1.1 500 Internal Server Error\r\nX: 200\r\n\r\nboom";
    assert_eq!(prove_response_body(resp), Err(ProveResponseError::NotOk { status_len: 34 }));
}

#[test]
fn reply_without_blank_line_is_malformed() {
    assert_eq!(prove_response_body(b"HTTP/1.1 200 OK\r\n"), Err(ProveResponseError::NoHeadEnd));
    assert_eq!(prove_response_body(b""), Err(ProveResponseError::NoHeadEnd));
}

#[test]
fn find_bytes_gives_first_occurrence() {
    assert_eq!(find_bytes(b"abcabc", b"bc"), Some(1));
    assert_eq!(find_bytes(b"abc", b"abcd"), None);
    assert_eq!(find_bytes(b"abc", b"x"), None);
    assert_eq!(find_bytes(b"abc", b""), Some(0));
}

fn identity(ts: u64) -> EnclaveIdentity {
    EnclaveIdentity {
        mrtd: [1; 48],
        rtmr0: [2; 48],
        rtmr1: [3; 48],
        rtmr2: [4; 48],
        rtmr3: [5; 48],
        tcb_status: 0,
        timestamp: ts,
    }
}

fn reply(proof: &[u8], pi: &[u8]) -> Vec<u8> {
    let b64 = base64::engine::general_purpose::STANDARD;
    format!("{{\"proof\":\"{}\",\"public_inputs\":\"{}\"}}", b64.encode(proof), b64.encode(pi)).into_bytes()
}

#[test]
fn default_artifacts_carry_report_data_and_timestamp() {
    let rd = [7u8; 64];
    let (proof, pi) = produce_artifacts_inner(&identity(1_700_000_000), &rd);
    assert_eq!(proof, vec![0xABu8; 192]);
    assert_eq!(extract_report_data(&pi), Some(rd));
    assert_eq!(extract_timestamp(&pi), Some(1_700_000_000));
}

#[test]
fn prover_reply_artifacts_accepted() {
    let rd = [9u8; 64];
    let (_, pi) = produce_artifacts_inner(&identity(42), &rd);
    let proof = vec![1u8, 2, 3, 4];
    let body = reply(&proof, &pi);
    let (p, q) = prover_artifacts(&body, &rd, 42).unwrap();
    assert_eq!(p, proof);
    assert_eq!(q, pi);
}

#[test]
fn prover_reply_with_other_binding_refused() {
    let rd = [9u8; 64];
    let (_, pi) = produce_artifacts_inner(&identity(42), &rd);
    let body = reply(&[1, 2], &pi);
    assert!(matches!(prover_artifacts(&body, &rd, 43), Err(AttestationError::ZkProver(_))));
    assert!(matches!(prover_artifacts(&body, &[8u8; 64], 42), Err(AttestationError::ZkProver(_))));
}

#[test]
fn prover_reply_malformed_refused() {
    let rd = [9u8; 64];
    let missing = br#"{"proof":"AAAA"}"#;
    assert!(matches!(prover_artifacts(missing, &rd, 0), Err(AttestationError::ZkProver(m)) if m.contains("public_inputs")));
    let bad_b64 = br#"{"proof":"!!","public_inputs":"AAAA"}"#;
    assert!(matches!(prover_artifacts(bad_b64, &rd, 0), Err(AttestationError::ZkProver(m)) if m.contains("decode proof")));
    assert!(matches!(prover_artifacts(b"not json", &rd, 0), Err(AttestationError::ZkProver(_))));
    let not_string = br#"{"proof":1,"public_inputs":"AAAA"}"#;
    assert!(matches!(prover_artifacts(not_string, &rd, 0), Err(AttestationError::ZkProver(m)) if m.contains("missing `proof`")));
}

#[test]
fn quote_hex_is_lowercase_hex() {
    assert_eq!(quote_hex(&[0x00, 0xAB, 0x7f]), "00ab7f");
    assert_eq!(quote_hex(&[]), "");
}
