//! The HTTP/1.1 exchange with the proving service over its unix socket:
//! the request that carries the JSON body, and the body read back from the
//! reply.
use vstd::prelude::*;
use vstd::slice::{slice_subrange, slice_to_vec};
use vstd::utf8::encode_utf8;
use crate::codec::append_bytes;
use crate::enclave::attestation::{check_prover_output, packed_report_data, packed_timestamp, AttestationError};
use crate::hexcodec::{hex_encode, hex_lower};

verus! {

// ---------------------------------------------------------------------------
// The request
// ---------------------------------------------------------------------------

/// The ASCII decimal digits of `n`.
pub open spec fn decimal_ascii(n: nat) -> Seq<u8>
    decreases n,
{
    if n < 10 {
        seq![(48 + n) as u8]
    } else {
        decimal_ascii(n / 10).push((48 + n % 10) as u8)
    }
}

/// The request head for a JSON body of `body_len` bytes: `POST /prove`,
/// the host, the content type and length, and `Connection: close`.
pub open spec fn prove_request_head(body_len: nat) -> Seq<u8> {
    encode_utf8("POST /prove HTTP/1.1\r\nHost: localhost\r\nContent-Type: application/json\r\nContent-Length: "@)
        + decimal_ascii(body_len) + encode_utf8("\r\nConnection: close\r\n\r\n"@)
}

fn write_decimal(out: &mut Vec<u8>, n: u64)
    ensures
        final(out)@ == old(out)@ + decimal_ascii(n as nat),
    decreases n,
{
    if n >= 10 {
        write_decimal(out, n / 10);
    }
    out.push((48 + n % 10) as u8);
    proof {
        assert(out@ =~= old(out)@ + decimal_ascii(n as nat));
    }
}

/// The whole request: the head, then the body.
pub fn prove_request(body: &[u8]) -> (r: Vec<u8>)
    ensures
        r@ == prove_request_head(body@.len()) + body@,
{
    let mut out: Vec<u8> = Vec::new();
    append_bytes(
        &mut out,
        "POST /prove HTTP/1.1\r\nHost: localhost\r\nContent-Type: application/json\r\nContent-Length: ".as_bytes(),
    );
    write_decimal(&mut out, body.len() as u64);
    append_bytes(&mut out, "\r\nConnection: close\r\n\r\n".as_bytes());
    append_bytes(&mut out, body);
    proof {
        assert(out@ =~= prove_request_head(body@.len()) + body@);
    }
    out
}

/// The quote as the request's `quote_hex` field: its bytes in lowercase
/// hex.
pub fn quote_hex(quote: &[u8]) -> (s: String)
    ensures
        s@ == hex_lower(quote@),
{
    hex_encode(quote)
}

// ---------------------------------------------------------------------------
// Finding a byte pattern
// ---------------------------------------------------------------------------

/// `p` occurs in `h` at index `i`.
pub open spec fn occurs_at(h: Seq<u8>, p: Seq<u8>, i: int) -> bool {
    0 <= i && i + p.len() <= h.len() && h.subrange(i, i + p.len()) == p
}

/// `i` is the first index at which `p` occurs in `h`.
pub open spec fn first_at(h: Seq<u8>, p: Seq<u8>, i: int) -> bool {
    occurs_at(h, p, i) && forall|j: int| 0 <= j < i ==> !occurs_at(h, p, j)
}

/// The first index at which `p` occurs in `h`, if it occurs.
pub open spec fn first_occurrence(h: Seq<u8>, p: Seq<u8>) -> Option<int> {
    if exists|i: int| first_at(h, p, i) {
        Some(choose|i: int| first_at(h, p, i))
    } else {
        None
    }
}

/// `p` occurs somewhere in `h`.
pub open spec fn occurs_in(h: Seq<u8>, p: Seq<u8>) -> bool {
    exists|i: int| occurs_at(h, p, i)
}

proof fn lemma_first_occurrence_some(h: Seq<u8>, p: Seq<u8>, k: int)
    requires
        first_at(h, p, k),
    ensures
        first_occurrence(h, p) == Some(k),
{
    let c = choose|i: int| first_at(h, p, i);
    assert(first_at(h, p, c));
    if c < k {
        assert(!occurs_at(h, p, c));
    }
    if k < c {
        assert(!occurs_at(h, p, k));
    }
}

proof fn lemma_first_occurrence_none(h: Seq<u8>, p: Seq<u8>)
    requires
        forall|j: int| !occurs_at(h, p, j),
    ensures
        first_occurrence(h, p) is None,
        !occurs_in(h, p),
{
    assert(!exists|i: int| first_at(h, p, i));
}

fn matches_at(h: &[u8], p: &[u8], i: usize) -> (r: bool)
    requires
        i + p@.len() <= h@.len(),
    ensures
        r == occurs_at(h@, p@, i as int),
{
    let n = h.len();
    let mut k: usize = 0;
    while k < p.len()
        invariant
            k <= p@.len(),
            i + p@.len() <= h@.len(),
            n == h@.len(),
            forall|m: int| 0 <= m < k ==> h@[i + m] == p@[m],
        decreases p@.len() - k,
    {
        if h[i + k] != p[k] {
            assert(h@.subrange(i as int, i + p@.len())[k as int] != p@[k as int]);
            return false;
        }
        k += 1;
    }
    assert(h@.subrange(i as int, i + p@.len()) =~= p@);
    true
}

/// The first index at which `p` occurs in `h`.
pub fn find_bytes(h: &[u8], p: &[u8]) -> (r: Option<usize>)
    ensures
        match r {
            Some(k) => first_at(h@, p@, k as int),
            None => forall|j: int| !occurs_at(h@, p@, j),
        },
{
    if p.len() > h.len() {
        return None;
    }
    let last = h.len() - p.len();
    let mut i: usize = 0;
    loop
        invariant
            last == h@.len() - p@.len(),
            i <= last,
            forall|j: int| 0 <= j < i ==> !occurs_at(h@, p@, j),
        decreases last - i,
    {
        if matches_at(h, p, i) {
            return Some(i);
        }
        if i == last {
            return None;
        }
        i += 1;
    }
}

// ---------------------------------------------------------------------------
// The reply
// ---------------------------------------------------------------------------

/// The blank line that ends the head of a reply.
pub open spec fn head_end() -> Seq<u8> {
    seq![13u8, 10u8, 13u8, 10u8]
}

/// The end of a line.
pub open spec fn line_end() -> Seq<u8> {
    seq![13u8, 10u8]
}

/// The status code `200`.
pub open spec fn status_200() -> Seq<u8> {
    seq![50u8, 48u8, 48u8]
}

/// Why a reply of the proving service carries no usable body.
#[derive(Debug, Clone, Copy, PartialEq, Eq, Structural)]
pub enum ProveResponseError {
    /// No blank line ends the head.
    NoHeadEnd,
    /// The status line, the first `status_len` bytes, does not hold `200`.
    NotOk { status_len: usize },
}

/// The length of the status line: up to the first line end.
pub open spec fn status_line_len(resp: Seq<u8>) -> int {
    match first_occurrence(resp, line_end()) {
        Some(c) => c,
        None => 0,
    }
}

/// What a reply yields: the bytes after the first blank line, where the
/// status line holds `200`.
pub open spec fn prove_response_outcome(resp: Seq<u8>) -> Result<Seq<u8>, ProveResponseError> {
    match first_occurrence(resp, head_end()) {
        None => Err(ProveResponseError::NoHeadEnd),
        Some(k) => if occurs_in(resp.take(status_line_len(resp)), status_200()) {
            Ok(resp.skip(k + 4))
        } else {
            Err(ProveResponseError::NotOk { status_len: status_line_len(resp) as usize })
        },
    }
}

/// The body of a reply of the proving service, if the reply is whole and
/// its status is `200`.
pub fn prove_response_body(resp: &[u8]) -> (r: Result<Vec<u8>, ProveResponseError>)
    ensures
        match r {
            Ok(b) => prove_response_outcome(resp@) == Ok::<Seq<u8>, ProveResponseError>(b@),
            Err(e) => prove_response_outcome(resp@) == Err::<Seq<u8>, ProveResponseError>(e),
        },
{
    let sep: [u8; 4] = [13, 10, 13, 10];
    let crlf: [u8; 2] = [13, 10];
    let ok: [u8; 3] = [50, 48, 48];
    assert(sep@ =~= head_end());
    assert(crlf@ =~= line_end());
    assert(ok@ =~= status_200());
    let k = match find_bytes(resp, sep.as_slice()) {
        None => {
            proof {
                lemma_first_occurrence_none(resp@, head_end());
            }
            return Err(ProveResponseError::NoHeadEnd);
        },
        Some(k) => k,
    };
    proof {
        lemma_first_occurrence_some(resp@, head_end(), k as int);
    }
    let s = match find_bytes(resp, crlf.as_slice()) {
        Some(c) => {
            proof {
                lemma_first_occurrence_some(resp@, line_end(), c as int);
            }
            c
        },
        None => {
            proof {
                lemma_first_occurrence_none(resp@, line_end());
            }
            0
        },
    };
    let status = slice_subrange(resp, 0, s);
    assert(status@ =~= resp@.take(s as int));
    match find_bytes(status, ok.as_slice()) {
        None => {
            proof {
                lemma_first_occurrence_none(status@, status_200());
            }
            Err(ProveResponseError::NotOk { status_len: s })
        },
        Some(i) => {
            assert(occurs_at(status@, status_200(), i as int));
            let n = resp.len();
            assert(k + 4 <= n);
            let body = slice_to_vec(slice_subrange(resp, k + 4, resp.len()));
            assert(body@ =~= resp@.skip(k + 4));
            Ok(body)
        },
    }
}

// ---------------------------------------------------------------------------
// The artifacts in the reply's body
// ---------------------------------------------------------------------------

/// The string that the JSON object in `body` holds under `key`; nothing
/// when `body` is not JSON, is not an object, or holds no string there.
pub uninterp spec fn json_str_field(body: Seq<u8>, key: Seq<char>) -> Option<Seq<char>>;

/// The bytes that `s` encodes in standard padded base64; nothing when `s`
/// is not such an encoding.
pub uninterp spec fn base64_std_decode(s: Seq<char>) -> Option<Seq<u8>>;

/// `serde_json::from_slice::<serde_json::Value>`, then the string under
/// `key`.
///
/// Trusted: the result depends on the bytes and the key alone (named
/// `json_str_field`); a parse failure, a value that is not an object, a
/// missing key and a value that is not a string all give nothing.
#[verifier::external_body]
fn json_str_field_of(body: &[u8], key: &str) -> (r: Option<String>)
    ensures
        match r {
            Some(v) => json_str_field(body@, key@) == Some(v@),
            None => json_str_field(body@, key@) is None,
        },
{
    match serde_json::from_slice::<serde_json::Value>(body) {
        Ok(serde_json::Value::Object(m)) => match m.get(key) {
            Some(serde_json::Value::String(v)) => Some(v.clone()),
            _ => None,
        },
        _ => None,
    }
}

/// `base64::engine::general_purpose::STANDARD.decode`.
///
/// Trusted: the result depends on the string alone (named
/// `base64_std_decode`); an invalid encoding gives nothing.
#[verifier::external_body]
fn base64_decode_std(s: &str) -> (r: Option<Vec<u8>>)
    ensures
        match r {
            Some(v) => base64_std_decode(s@) == Some(v@),
            None => base64_std_decode(s@) is None,
        },
{
    base64::Engine::decode(&base64::engine::general_purpose::STANDARD, s).ok()
}

/// The proof and the public inputs that a reply body carries: the base64
/// strings under `proof` and `public_inputs`, decoded.
pub open spec fn reply_artifacts(body: Seq<u8>) -> Option<(Seq<u8>, Seq<u8>)> {
    match json_str_field(body, "proof"@) {
        None => None,
        Some(p) => match base64_std_decode(p) {
            None => None,
            Some(proof) => match json_str_field(body, "public_inputs"@) {
                None => None,
                Some(q) => match base64_std_decode(q) {
                    None => None,
                    Some(pi) => Some((proof, pi)),
                },
            },
        },
    }
}

/// The artifacts of a reply body, accepted when its public inputs carry
/// the bound ReportData and the requested Timestamp.
pub open spec fn reply_accepted(body: Seq<u8>, report_data: Seq<u8>, timestamp: u64) -> bool {
    reply_artifacts(body) matches Some(a) && packed_report_data(a.1) == Some(report_data)
        && packed_timestamp(a.1) == Some(timestamp as nat)
}

/// The proof and public inputs in the prove server's reply body, checked
/// to carry the ReportData and Timestamp that were asked for.
pub fn prover_artifacts(reply_body: &[u8], report_data: &[u8; 64], timestamp: u64) -> (r: Result<
    (Vec<u8>, Vec<u8>),
    AttestationError,
>)
    ensures
        r is Ok <==> reply_accepted(reply_body@, report_data@, timestamp),
        r matches Ok(a) ==> reply_artifacts(reply_body@) == Some((a.0@, a.1@)),
        r matches Err(e) ==> e is ZkProver,
{
    let proof = match json_str_field_of(reply_body, "proof") {
        Some(v) => match base64_decode_std(v.as_str()) {
            Some(b) => b,
            None => {
                return Err(AttestationError::ZkProver("decode proof: invalid base64".to_owned()));
            },
        },
        None => {
            return Err(AttestationError::ZkProver("prove response missing `proof`".to_owned()));
        },
    };
    let public_inputs = match json_str_field_of(reply_body, "public_inputs") {
        Some(v) => match base64_decode_std(v.as_str()) {
            Some(b) => b,
            None => {
                return Err(AttestationError::ZkProver("decode public_inputs: invalid base64".to_owned()));
            },
        },
        None => {
            return Err(AttestationError::ZkProver("prove response missing `public_inputs`".to_owned()));
        },
    };
    match check_prover_output(public_inputs.as_slice(), report_data, timestamp) {
        Ok(()) => Ok((proof, public_inputs)),
        Err(e) => Err(e),
    }
}

} // verus!
