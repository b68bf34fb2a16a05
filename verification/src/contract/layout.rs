//! The gnark `public_inputs` layout of the zkdcap circuit: 306 BN254 field
//! elements of 32 big-endian bytes each. Measurement registers and
//! ReportData are one byte per element (the element's last byte, the 31
//! before it zero); TcbStatus and Timestamp are one `u64` per element (its
//! last 8 bytes, the 24 before them zero).
use vstd::prelude::*;
use crate::codec::{be_bytes, be_value, lemma_be_round_trip, lemma_pow256_8, read_be_u64, write_u32_be};
use crate::contract::error::{ContractError, ErrorView};
use crate::fields::{be8, fr_byte, put_byte_field, put_limb, put_low_byte, zeros};

verus! {

/// Bytes per field element.
pub const FR_BYTES: usize = 32;
/// First element of MRTD.
pub const ELEM_MRTD_START: usize = 0;
/// First element of RTMR0.
pub const ELEM_RTMR0_START: usize = 48;
/// First element of RTMR1.
pub const ELEM_RTMR1_START: usize = 96;
/// First element of RTMR2.
pub const ELEM_RTMR2_START: usize = 144;
/// First element of RTMR3.
pub const ELEM_RTMR3_START: usize = 192;
/// First element of ReportData.
pub const ELEM_REPORTDATA_START: usize = 240;
/// The TcbStatus element.
pub const ELEM_TCBSTATUS: usize = 304;
/// The Timestamp element.
pub const ELEM_TIMESTAMP: usize = 305;
/// Number of field elements.
pub const GNARK_PUBLIC_INPUTS_ELEMS: usize = 306;
/// Byte length of `public_inputs` (306 × 32).
pub const GNARK_PUBLIC_INPUTS_LEN: usize = 9792;

// ---------------------------------------------------------------------------
// Models
// ---------------------------------------------------------------------------

/// Element `e` holds a byte: its first 31 bytes are zero.
pub open spec fn fr_is_u8(pi: Seq<u8>, e: int) -> bool {
    forall|k: int| 0 <= k < 31 ==> #[trigger] fr_byte(pi, e, k) == 0
}

/// Element `e` holds a `u64`: its first 24 bytes are zero.
pub open spec fn fr_is_u64(pi: Seq<u8>, e: int) -> bool {
    forall|k: int| 0 <= k < 24 ==> #[trigger] fr_byte(pi, e, k) == 0
}

/// The `u64` that element `e`'s last 8 bytes denote.
pub open spec fn fr_u64(pi: Seq<u8>, e: int) -> nat {
    be_value(pi.subrange(e * 32 + 24, e * 32 + 32))
}

/// Among the `n - i` elements `start + i ..`, the first that does not hold
/// a byte.
pub open spec fn first_not_u8_from(pi: Seq<u8>, start: int, n: int, i: int) -> Option<int>
    decreases n - i,
{
    if i < 0 || i >= n {
        None
    } else if !fr_is_u8(pi, start + i) {
        Some(start + i)
    } else {
        first_not_u8_from(pi, start, n, i + 1)
    }
}

/// The first of the `n` elements from `start` that does not hold a byte.
pub open spec fn first_not_u8(pi: Seq<u8>, start: int, n: int) -> Option<int> {
    first_not_u8_from(pi, start, n, 0)
}

/// The bytes held by the `n` elements from `start`.
pub open spec fn fr_bytes(pi: Seq<u8>, start: int, n: int) -> Seq<u8> {
    Seq::new(n as nat, |i: int| fr_byte(pi, start + i, 31))
}

/// The result of reading `n` byte elements from `start`.
pub open spec fn read_field(pi: Seq<u8>, start: int, n: int) -> Result<Seq<u8>, ErrorView> {
    match first_not_u8(pi, start, n) {
        Some(j) => Err(ErrorView::GnarkPublicInputNotU8 { elem_idx: j as usize }),
        None => Ok(fr_bytes(pi, start, n)),
    }
}

// ---------------------------------------------------------------------------
// Extraction
// ---------------------------------------------------------------------------

/// The byte held by element `elem_idx`; refused unless its first 31 bytes
/// are zero.
pub fn extract_u8_from_fr(public_inputs: &[u8], elem_idx: usize) -> (r: Result<u8, ContractError>)
    requires
        elem_idx * 32 + 32 <= public_inputs.len(),
    ensures
        match r {
            Ok(b) => fr_is_u8(public_inputs@, elem_idx as int) && b == fr_byte(
                public_inputs@,
                elem_idx as int,
                31,
            ),
            Err(e) => !fr_is_u8(public_inputs@, elem_idx as int) && e@
                == (ErrorView::GnarkPublicInputNotU8 { elem_idx }),
        },
{
    let start = elem_idx * FR_BYTES;
    let mut k: usize = 0;
    while k < 31
        invariant
            start == elem_idx * 32,
            start + 32 <= public_inputs.len(),
            k <= 31,
            forall|j: int| 0 <= j < k ==> #[trigger] fr_byte(public_inputs@, elem_idx as int, j) == 0,
        decreases 31 - k,
    {
        if public_inputs[start + k] != 0 {
            assert(fr_byte(public_inputs@, elem_idx as int, k as int) != 0);
            return Err(ContractError::GnarkPublicInputNotU8 { elem_idx });
        }
        k += 1;
    }
    Ok(public_inputs[start + 31])
}

/// The `u64` held by element `elem_idx`; refused unless its first 24
/// bytes are zero.
pub fn extract_u64_from_fr(public_inputs: &[u8], elem_idx: usize) -> (r: Result<u64, ContractError>)
    requires
        elem_idx * 32 + 32 <= public_inputs.len(),
    ensures
        match r {
            Ok(v) => fr_is_u64(public_inputs@, elem_idx as int) && v as nat == fr_u64(
                public_inputs@,
                elem_idx as int,
            ),
            Err(e) => !fr_is_u64(public_inputs@, elem_idx as int) && e@
                == (ErrorView::GnarkPublicInputOutOfRange { elem_idx }),
        },
{
    let start = elem_idx * FR_BYTES;
    let mut k: usize = 0;
    while k < 24
        invariant
            start == elem_idx * 32,
            start + 32 <= public_inputs.len(),
            k <= 24,
            forall|j: int| 0 <= j < k ==> #[trigger] fr_byte(public_inputs@, elem_idx as int, j) == 0,
        decreases 24 - k,
    {
        if public_inputs[start + k] != 0 {
            assert(fr_byte(public_inputs@, elem_idx as int, k as int) != 0);
            return Err(ContractError::GnarkPublicInputOutOfRange { elem_idx });
        }
        k += 1;
    }
    Ok(read_be_u64(public_inputs, start + 24))
}

/// Reads `N` byte elements from `start` into `out`.
fn read_bytes_field(public_inputs: &[u8], start: usize, out: &mut [u8]) -> (r: Result<(), ContractError>)
    requires
        (start + old(out)@.len()) * 32 <= public_inputs.len(),
    ensures
        final(out)@.len() == old(out)@.len(),
        match read_field(public_inputs@, start as int, old(out)@.len() as int) {
            Ok(bytes) => r is Ok && final(out)@ == bytes,
            Err(ev) => r matches Err(e) && e@ == ev,
        },
{
    let n = out.len();
    let mut i: usize = 0;
    let ghost pi = public_inputs@;
    while i < n
        invariant
            n == out@.len(),
            n == old(out)@.len(),
            pi == public_inputs@,
            (start + n) * 32 <= public_inputs.len(),
            i <= n,
            forall|j: int| 0 <= j < i ==> #[trigger] fr_is_u8(pi, start + j),
            forall|j: int| 0 <= j < i ==> #[trigger] out@[j] == fr_byte(pi, start + j, 31),
            first_not_u8(pi, start as int, n as int) == first_not_u8_from(pi, start as int, n as int, i as int),
        decreases n - i,
    {
        let b = extract_u8_from_fr(public_inputs, start + i);
        match b {
            Ok(v) => {
                out[i] = v;
            },
            Err(e) => {
                return Err(e);
            },
        }
        i += 1;
    }
    assert(out@ =~= fr_bytes(pi, start as int, n as int));
    Ok(())
}

/// The 48-byte measurement register whose first element is `start_elem`.
pub fn extract_measurement_48(public_inputs: &[u8], start_elem: usize) -> (r: Result<[u8; 48], ContractError>)
    requires
        (start_elem + 48) * 32 <= public_inputs.len(),
    ensures
        match read_field(public_inputs@, start_elem as int, 48) {
            Ok(bytes) => r matches Ok(m) && m@ == bytes,
            Err(ev) => r matches Err(e) && e@ == ev,
        },
{
    let mut out = [0u8; 48];
    match read_bytes_field(public_inputs, start_elem, &mut out) {
        Ok(()) => Ok(out),
        Err(e) => Err(e),
    }
}

/// The 64-byte ReportData.
pub fn extract_report_data(public_inputs: &[u8]) -> (r: Result<[u8; 64], ContractError>)
    requires
        (ELEM_REPORTDATA_START + 64) * 32 <= public_inputs.len(),
    ensures
        match read_field(public_inputs@, ELEM_REPORTDATA_START as int, 64) {
            Ok(bytes) => r matches Ok(m) && m@ == bytes,
            Err(ev) => r matches Err(e) && e@ == ev,
        },
{
    let mut out = [0u8; 64];
    match read_bytes_field(public_inputs, ELEM_REPORTDATA_START, &mut out) {
        Ok(()) => Ok(out),
        Err(e) => Err(e),
    }
}

/// Refuses `public_inputs` unless it is exactly 9792 bytes long.
pub fn validate_public_inputs_shape(public_inputs: &[u8]) -> (r: Result<(), ContractError>)
    ensures
        r is Ok <==> public_inputs@.len() == GNARK_PUBLIC_INPUTS_LEN,
        r matches Err(e) ==> e@ == (ErrorView::GnarkPublicInputsLength {
            got: public_inputs@.len() as usize,
            expected: GNARK_PUBLIC_INPUTS_LEN,
        }),
{
    if public_inputs.len() != GNARK_PUBLIC_INPUTS_LEN {
        return Err(
            ContractError::GnarkPublicInputsLength {
                got: public_inputs.len(),
                expected: GNARK_PUBLIC_INPUTS_LEN,
            },
        );
    }
    Ok(())
}

/// The witness that the chain's gnark verifier decodes: a 12-byte header
/// (`nbPublic = 306`, `nbSecret = 0`, vector length 306, each `u32`
/// big-endian), then `public_inputs`.
pub fn gnark_witness_bytes(public_inputs: &[u8]) -> (w: Vec<u8>)
    ensures
        w@ == be_bytes(306, 4) + be_bytes(0, 4) + be_bytes(306, 4) + public_inputs@,
{
    let mut w: Vec<u8> = Vec::new();
    write_u32_be(&mut w, 306);
    write_u32_be(&mut w, 0);
    write_u32_be(&mut w, 306);
    crate::codec::append_bytes(&mut w, public_inputs);
    assert(w@ =~= be_bytes(306, 4) + be_bytes(0, 4) + be_bytes(306, 4) + public_inputs@);
    w
}

// ---------------------------------------------------------------------------
// Synthetic public inputs
// ---------------------------------------------------------------------------

/// Byte `k` of element `e` in the public inputs that carry the given
/// registers, ReportData, TcbStatus and Timestamp.
pub open spec fn synthetic_byte(
    e: int,
    k: int,
    mrtd: Seq<u8>,
    rtmr0: Seq<u8>,
    rtmr1: Seq<u8>,
    rtmr2: Seq<u8>,
    rtmr3: Seq<u8>,
    report_data: Seq<u8>,
    tcb_status: u8,
    timestamp: u64,
) -> u8 {
    if e == 305 {
        if k >= 24 {
            be_bytes(timestamp as nat, 8)[k - 24]
        } else {
            0
        }
    } else if k != 31 {
        0
    } else if e < 48 {
        mrtd[e]
    } else if e < 96 {
        rtmr0[e - 48]
    } else if e < 144 {
        rtmr1[e - 96]
    } else if e < 192 {
        rtmr2[e - 144]
    } else if e < 240 {
        rtmr3[e - 192]
    } else if e < 304 {
        report_data[e - 240]
    } else {
        tcb_status
    }
}

/// `pi` is the 9792-byte public inputs carrying the given values.
pub open spec fn is_synthetic(
    pi: Seq<u8>,
    mrtd: Seq<u8>,
    rtmr0: Seq<u8>,
    rtmr1: Seq<u8>,
    rtmr2: Seq<u8>,
    rtmr3: Seq<u8>,
    report_data: Seq<u8>,
    tcb_status: u8,
    timestamp: u64,
) -> bool {
    &&& pi.len() == 9792
    &&& forall|e: int, k: int|
        0 <= e < 306 && 0 <= k < 32 ==> #[trigger] fr_byte(pi, e, k) == synthetic_byte(
            e,
            k,
            mrtd,
            rtmr0,
            rtmr1,
            rtmr2,
            rtmr3,
            report_data,
            tcb_status,
            timestamp,
        )
}

/// Public inputs in this layout for the given registers, ReportData,
/// TcbStatus and Timestamp, with every other byte zero.
pub fn build_synthetic_public_inputs(
    mrtd: &[u8; 48],
    rtmr0: &[u8; 48],
    rtmr1: &[u8; 48],
    rtmr2: &[u8; 48],
    rtmr3: &[u8; 48],
    report_data: &[u8; 64],
    tcb_status: u8,
    timestamp: u64,
) -> (out: Vec<u8>)
    ensures
        is_synthetic(
            out@,
            mrtd@,
            rtmr0@,
            rtmr1@,
            rtmr2@,
            rtmr3@,
            report_data@,
            tcb_status,
            timestamp,
        ),
{
    let mut out = zeros(GNARK_PUBLIC_INPUTS_LEN);
    let ghost z = out@;
    put_byte_field(&mut out, ELEM_MRTD_START, mrtd.as_slice());
    put_byte_field(&mut out, ELEM_RTMR0_START, rtmr0.as_slice());
    put_byte_field(&mut out, ELEM_RTMR1_START, rtmr1.as_slice());
    put_byte_field(&mut out, ELEM_RTMR2_START, rtmr2.as_slice());
    put_byte_field(&mut out, ELEM_RTMR3_START, rtmr3.as_slice());
    put_byte_field(&mut out, ELEM_REPORTDATA_START, report_data.as_slice());
    put_low_byte(&mut out, ELEM_TCBSTATUS, tcb_status);
    let ts = be8(timestamp);
    put_limb(&mut out, ELEM_TIMESTAMP, ts.as_slice());
    proof {
        assert forall|e: int, k: int| 0 <= e < 306 && 0 <= k < 32 implies #[trigger] fr_byte(out@, e, k)
            == synthetic_byte(
            e,
            k,
            mrtd@,
            rtmr0@,
            rtmr1@,
            rtmr2@,
            rtmr3@,
            report_data@,
            tcb_status,
            timestamp,
        ) by {
            assert(fr_byte(z, e, k) == 0u8);
        }
    }
    out
}

proof fn lemma_first_not_u8_none(pi: Seq<u8>, start: int, n: int, i: int)
    requires
        0 <= i <= n,
        forall|j: int| i <= j < n ==> #[trigger] fr_is_u8(pi, start + j),
    ensures
        first_not_u8_from(pi, start, n, i) is None,
    decreases n - i,
{
    if i < n {
        assert(fr_is_u8(pi, start + i));
        lemma_first_not_u8_none(pi, start, n, i + 1);
    }
}

/// Reading `field.len()` byte elements from `start` gives `field` when each
/// element holds the corresponding byte.
proof fn lemma_read_field_ok(pi: Seq<u8>, start: int, field: Seq<u8>)
    requires
        forall|i: int| 0 <= i < field.len() ==> #[trigger] fr_is_u8(pi, start + i),
        forall|i: int| 0 <= i < field.len() ==> #[trigger] fr_byte(pi, start + i, 31) == field[i],
    ensures
        read_field(pi, start, field.len() as int) == Ok::<Seq<u8>, ErrorView>(field),
{
    lemma_first_not_u8_none(pi, start, field.len() as int, 0);
    assert(fr_bytes(pi, start, field.len() as int) =~= field);
}

proof fn lemma_synthetic_field(
    pi: Seq<u8>,
    start: int,
    field: Seq<u8>,
    mrtd: Seq<u8>,
    rtmr0: Seq<u8>,
    rtmr1: Seq<u8>,
    rtmr2: Seq<u8>,
    rtmr3: Seq<u8>,
    report_data: Seq<u8>,
    tcb_status: u8,
    timestamp: u64,
)
    requires
        is_synthetic(pi, mrtd, rtmr0, rtmr1, rtmr2, rtmr3, report_data, tcb_status, timestamp),
        0 <= start,
        start + field.len() <= 304,
        forall|i: int|
            0 <= i < field.len() ==> synthetic_byte(
                start + i,
                31,
                mrtd,
                rtmr0,
                rtmr1,
                rtmr2,
                rtmr3,
                report_data,
                tcb_status,
                timestamp,
            ) == #[trigger] field[i],
    ensures
        read_field(pi, start, field.len() as int) == Ok::<Seq<u8>, ErrorView>(field),
{
    assert forall|i: int| 0 <= i < field.len() implies #[trigger] fr_is_u8(pi, start + i) by {
        assert forall|k: int| 0 <= k < 31 implies #[trigger] fr_byte(pi, start + i, k) == 0 by {}
    }
    assert forall|i: int| 0 <= i < field.len() implies #[trigger] fr_byte(pi, start + i, 31) == field[i] by {}
    lemma_read_field_ok(pi, start, field);
}

/// Reading back what the synthetic public inputs carry gives the values
/// they were built from: each register and the ReportData as bytes, the
/// TcbStatus and the Timestamp as `u64` elements.
pub proof fn law_synthetic_round_trip(
    pi: Seq<u8>,
    mrtd: Seq<u8>,
    rtmr0: Seq<u8>,
    rtmr1: Seq<u8>,
    rtmr2: Seq<u8>,
    rtmr3: Seq<u8>,
    report_data: Seq<u8>,
    tcb_status: u8,
    timestamp: u64,
)
    requires
        mrtd.len() == 48,
        rtmr0.len() == 48,
        rtmr1.len() == 48,
        rtmr2.len() == 48,
        rtmr3.len() == 48,
        report_data.len() == 64,
        is_synthetic(pi, mrtd, rtmr0, rtmr1, rtmr2, rtmr3, report_data, tcb_status, timestamp),
    ensures
        read_field(pi, ELEM_MRTD_START as int, 48) == Ok::<Seq<u8>, ErrorView>(mrtd),
        read_field(pi, ELEM_RTMR0_START as int, 48) == Ok::<Seq<u8>, ErrorView>(rtmr0),
        read_field(pi, ELEM_RTMR1_START as int, 48) == Ok::<Seq<u8>, ErrorView>(rtmr1),
        read_field(pi, ELEM_RTMR2_START as int, 48) == Ok::<Seq<u8>, ErrorView>(rtmr2),
        read_field(pi, ELEM_RTMR3_START as int, 48) == Ok::<Seq<u8>, ErrorView>(rtmr3),
        read_field(pi, ELEM_REPORTDATA_START as int, 64) == Ok::<Seq<u8>, ErrorView>(report_data),
        fr_is_u64(pi, ELEM_TCBSTATUS as int),
        fr_u64(pi, ELEM_TCBSTATUS as int) == tcb_status as nat,
        fr_is_u64(pi, ELEM_TIMESTAMP as int),
        fr_u64(pi, ELEM_TIMESTAMP as int) == timestamp as nat,
{
    lemma_synthetic_field(pi, 0, mrtd, mrtd, rtmr0, rtmr1, rtmr2, rtmr3, report_data, tcb_status, timestamp);
    lemma_synthetic_field(pi, 48, rtmr0, mrtd, rtmr0, rtmr1, rtmr2, rtmr3, report_data, tcb_status, timestamp);
    lemma_synthetic_field(pi, 96, rtmr1, mrtd, rtmr0, rtmr1, rtmr2, rtmr3, report_data, tcb_status, timestamp);
    lemma_synthetic_field(pi, 144, rtmr2, mrtd, rtmr0, rtmr1, rtmr2, rtmr3, report_data, tcb_status, timestamp);
    lemma_synthetic_field(pi, 192, rtmr3, mrtd, rtmr0, rtmr1, rtmr2, rtmr3, report_data, tcb_status, timestamp);
    lemma_synthetic_field(pi, 240, report_data, mrtd, rtmr0, rtmr1, rtmr2, rtmr3, report_data, tcb_status, timestamp);
    assert forall|k: int| 0 <= k < 24 implies #[trigger] fr_byte(pi, 304, k) == 0 by {}
    assert forall|k: int| 0 <= k < 24 implies #[trigger] fr_byte(pi, 305, k) == 0 by {}
    let tcb_bytes = pi.subrange(304int * 32 + 24, 304int * 32 + 32);
    assert forall|k: int| 0 <= k < 8 implies tcb_bytes[k] == (if k == 7 { tcb_status } else { 0u8 }) by {
        assert(tcb_bytes[k] == fr_byte(pi, 304, 24 + k));
    }
    assert(tcb_bytes =~= seq![0u8, 0u8, 0u8, 0u8, 0u8, 0u8, 0u8, tcb_status]);
    reveal_with_fuel(be_value, 9);
    let ts_bytes = pi.subrange(305int * 32 + 24, 305int * 32 + 32);
    assert forall|k: int| 0 <= k < 8 implies ts_bytes[k] == be_bytes(timestamp as nat, 8)[k] by {
        assert(ts_bytes[k] == fr_byte(pi, 305, 24 + k));
    }
    lemma_pow256_8();
    lemma_be_round_trip(timestamp as nat, 8);
    assert(ts_bytes =~= be_bytes(timestamp as nat, 8));
}

} // verus!
