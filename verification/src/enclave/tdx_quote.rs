//! Reading the measurement registers out of a raw TDX v4 quote.
use vstd::prelude::*;

verus! {

/// Why a quote's measurements cannot be read.
#[derive(Debug, Clone, PartialEq, Eq)]
pub enum ParseError {
    /// Shorter than the 632 bytes that header and TD report take.
    TooShort(usize),
    /// Header version other than 4.
    UnsupportedVersion(u16),
    /// TEE type other than TDX (0x81).
    NotTdx(u32),
}

/// The five TDX measurement registers.
#[derive(Debug, Clone, PartialEq, Eq)]
pub struct Measurements {
    pub mrtd: [u8; 48],
    pub rtmr0: [u8; 48],
    pub rtmr1: [u8; 48],
    pub rtmr2: [u8; 48],
    pub rtmr3: [u8; 48],
}

/// Offset of MRTD in the quote.
pub const SQ_MR_TD: usize = 184;
/// Offset of RTMR0.
pub const SQ_RTMR0: usize = 376;
/// Offset of RTMR1.
pub const SQ_RTMR1: usize = 424;
/// Offset of RTMR2.
pub const SQ_RTMR2: usize = 472;
/// Offset of RTMR3.
pub const SQ_RTMR3: usize = 520;
/// Smallest quote that holds them all.
pub const SQ_MIN_LEN: usize = 632;

/// The header version: bytes 0..2, little-endian.
pub open spec fn quote_version(q: Seq<u8>) -> u16 {
    (q[0] as nat + 256 * q[1] as nat) as u16
}

/// The TEE type: bytes 4..8, little-endian.
pub open spec fn quote_tee_type(q: Seq<u8>) -> u32 {
    (q[4] as nat + 256 * q[5] as nat + 65536 * q[6] as nat + 16777216 * q[7] as nat) as u32
}

/// What parsing a quote gives: its error, or the 48-byte registers at
/// their offsets.
pub open spec fn parse_error(q: Seq<u8>) -> Option<ParseError> {
    if q.len() < 632 {
        Some(ParseError::TooShort(q.len() as usize))
    } else if quote_version(q) != 4 {
        Some(ParseError::UnsupportedVersion(quote_version(q)))
    } else if quote_tee_type(q) != 0x81 {
        Some(ParseError::NotTdx(quote_tee_type(q)))
    } else {
        None
    }
}

fn copy48(quote: &[u8], start: usize) -> (r: [u8; 48])
    requires
        start + 48 <= quote.len(),
    ensures
        r@ == quote@.subrange(start as int, start + 48),
{
    let mut r = [0u8; 48];
    let mut i: usize = 0;
    while i < 48
        invariant
            start + 48 <= quote.len(),
            i <= 48,
            r@.len() == 48,
            forall|j: int| 0 <= j < i ==> r@[j] == quote@[start + j],
        decreases 48 - i,
    {
        r[i] = quote[start + i];
        i += 1;
    }
    assert(r@ =~= quote@.subrange(start as int, start + 48));
    r
}

/// MRTD and RTMR0..3 of a TDX v4 quote.
pub fn parse_measurements(quote: &[u8]) -> (r: Result<Measurements, ParseError>)
    ensures
        match parse_error(quote@) {
            Some(e) => r == Err::<Measurements, ParseError>(e),
            None => r matches Ok(m) && m.mrtd@ == quote@.subrange(184, 232) && m.rtmr0@ == quote@.subrange(
                376,
                424,
            ) && m.rtmr1@ == quote@.subrange(424, 472) && m.rtmr2@ == quote@.subrange(472, 520)
                && m.rtmr3@ == quote@.subrange(520, 568),
        },
{
    if quote.len() < SQ_MIN_LEN {
        return Err(ParseError::TooShort(quote.len()));
    }
    let version: u16 = quote[0] as u16 + 256 * (quote[1] as u16);
    if version != 4 {
        return Err(ParseError::UnsupportedVersion(version));
    }
    let tee_type: u32 = quote[4] as u32 + 256 * (quote[5] as u32) + 65536 * (quote[6] as u32) + 16777216
        * (quote[7] as u32);
    if tee_type != 0x81 {
        return Err(ParseError::NotTdx(tee_type));
    }
    let mrtd = copy48(quote, SQ_MR_TD);
    let rtmr0 = copy48(quote, SQ_RTMR0);
    let rtmr1 = copy48(quote, SQ_RTMR1);
    let rtmr2 = copy48(quote, SQ_RTMR2);
    let rtmr3 = copy48(quote, SQ_RTMR3);
    Ok(Measurements { mrtd, rtmr0, rtmr1, rtmr2, rtmr3 })
}

} // verus!
