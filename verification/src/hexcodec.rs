//! Hex text as the operators and the dstack agent write it: lowercase
//! encoding, and decoding of either case into fixed-length keys and
//! measurement registers.
use vstd::prelude::*;

verus! {

/// The lowercase hex digit of `d < 16`.
pub open spec fn hex_digit(d: nat) -> char {
    if d < 10 {
        (48 + d) as char
    } else {
        (87 + d) as char
    }
}

/// Lowercase hex: two digits per byte, high nibble first.
pub open spec fn hex_lower(b: Seq<u8>) -> Seq<char>
    decreases b.len(),
{
    if b.len() == 0 {
        Seq::empty()
    } else {
        hex_lower(b.drop_last()) + seq![hex_digit(b.last() as nat / 16), hex_digit(b.last() as nat % 16)]
    }
}

/// The value of a hex digit of either case.
pub open spec fn hex_value(c: char) -> Option<nat> {
    let v = c as nat;
    if 48 <= v <= 57 {
        Some((v - 48) as nat)
    } else if 97 <= v <= 102 {
        Some((v - 87) as nat)
    } else if 65 <= v <= 70 {
        Some((v - 55) as nat)
    } else {
        None
    }
}

/// The bytes a hex string spells, two digits each, high nibble first; none
/// when its length is odd or a character is not a hex digit.
pub open spec fn hex_decoded(s: Seq<char>) -> Option<Seq<u8>>
    decreases s.len(),
{
    if s.len() == 0 {
        Some(Seq::empty())
    } else if s.len() == 1 {
        None
    } else {
        match (hex_value(s[0]), hex_value(s[1]), hex_decoded(s.subrange(2, s.len() as int))) {
            (Some(h), Some(l), Some(rest)) => Some(seq![(h * 16 + l) as u8] + rest),
            _ => None,
        }
    }
}

/// `hex::encode`.
///
/// Trusted: it writes each byte as two lowercase hex digits, high nibble
/// first.
#[verifier::external_body]
pub(crate) fn hex_encode(bytes: &[u8]) -> (s: String)
    ensures
        s@ == hex_lower(bytes@),
{
    hex::encode(bytes)
}

/// `hex::decode`.
///
/// Trusted: it accepts an even number of hex digits of either case and
/// gives one byte per pair, high nibble first; any other input is an error.
#[verifier::external_body]
fn hex_decode(s: &str) -> (r: Option<Vec<u8>>)
    ensures
        match hex_decoded(s@) {
            Some(b) => r matches Some(v) && v@ == b,
            None => r is None,
        },
{
    hex::decode(s).ok()
}

/// Why hex text is not the fixed-length value it should spell.
#[derive(Debug, Clone, PartialEq, Eq)]
pub enum HexFieldError {
    /// Not an even number of hex digits.
    InvalidHex,
    /// Hex, but of this many bytes.
    WrongLength(usize),
}

/// The 32 bytes `s` spells (a secp256k1 secret key).
pub fn decode_key_hex(s: &str) -> (r: Result<[u8; 32], HexFieldError>)
    ensures
        match hex_decoded(s@) {
            None => r == Err::<[u8; 32], HexFieldError>(HexFieldError::InvalidHex),
            Some(b) => if b.len() == 32 {
                r matches Ok(k) && k@ == b
            } else {
                r == Err::<[u8; 32], HexFieldError>(HexFieldError::WrongLength(b.len() as usize))
            },
        },
{
    let bytes = match hex_decode(s) {
        Some(b) => b,
        None => {
            return Err(HexFieldError::InvalidHex);
        },
    };
    if bytes.len() != 32 {
        return Err(HexFieldError::WrongLength(bytes.len()));
    }
    let mut out = [0u8; 32];
    let mut i: usize = 0;
    while i < 32
        invariant
            bytes@.len() == 32,
            i <= 32,
            out@.len() == 32,
            forall|j: int| 0 <= j < i ==> out@[j] == bytes@[j],
        decreases 32 - i,
    {
        out[i] = bytes[i];
        i += 1;
    }
    assert(out@ =~= bytes@);
    Ok(out)
}

/// The 48 bytes `s` spells (a TDX measurement register).
pub fn decode_register_hex(s: &str) -> (r: Result<[u8; 48], HexFieldError>)
    ensures
        match hex_decoded(s@) {
            None => r == Err::<[u8; 48], HexFieldError>(HexFieldError::InvalidHex),
            Some(b) => if b.len() == 48 {
                r matches Ok(m) && m@ == b
            } else {
                r == Err::<[u8; 48], HexFieldError>(HexFieldError::WrongLength(b.len() as usize))
            },
        },
{
    let bytes = match hex_decode(s) {
        Some(b) => b,
        None => {
            return Err(HexFieldError::InvalidHex);
        },
    };
    if bytes.len() != 48 {
        return Err(HexFieldError::WrongLength(bytes.len()));
    }
    let mut out = [0u8; 48];
    let mut i: usize = 0;
    while i < 48
        invariant
            bytes@.len() == 48,
            i <= 48,
            out@.len() == 48,
            forall|j: int| 0 <= j < i ==> out@[j] == bytes@[j],
        decreases 48 - i,
    {
        out[i] = bytes[i];
        i += 1;
    }
    assert(out@ =~= bytes@);
    Ok(out)
}

/// The bytes `s` spells, however many (a ciphertext or a quote).
pub fn decode_hex_bytes(s: &str) -> (r: Option<Vec<u8>>)
    ensures
        match hex_decoded(s@) {
            Some(b) => r matches Some(v) && v@ == b,
            None => r is None,
        },
{
    hex_decode(s)
}

} // verus!
