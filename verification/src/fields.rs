//! Byte buffers made of 32-byte big-endian field elements: zero-filling
//! and writing a value into the low bytes of one element.
use vstd::prelude::*;
use crate::codec::be_bytes;

verus! {

/// Byte `k` of element `e`.
pub open spec fn fr_byte(pi: Seq<u8>, e: int, k: int) -> u8 {
    pi[e * 32 + k]
}

/// Positions inside distinct elements differ.
pub proof fn lemma_elem_unique(e: int, k: int, f: int, j: int)
    requires
        0 <= k < 32,
        0 <= j < 32,
        e * 32 + k == f * 32 + j,
    ensures
        e == f,
        k == j,
{
    assert(e == f) by (nonlinear_arith)
        requires
            0 <= k < 32,
            0 <= j < 32,
            e * 32 + k == f * 32 + j,
    ;
}

/// `n` zero bytes.
pub fn zeros(n: usize) -> (out: Vec<u8>)
    ensures
        out@.len() == n,
        forall|i: int| 0 <= i < n ==> out@[i] == 0u8,
{
    let mut out: Vec<u8> = Vec::with_capacity(n);
    let mut i: usize = 0;
    while i < n
        invariant
            i <= n,
            out@.len() == i,
            forall|j: int| 0 <= j < i ==> out@[j] == 0u8,
        decreases n - i,
    {
        out.push(0u8);
        i += 1;
    }
    out
}

/// Writes `bytes` into the low `bytes.len()` bytes of element `f`.
pub fn put_limb(out: &mut Vec<u8>, f: usize, bytes: &[u8])
    requires
        bytes@.len() <= 32,
        f * 32 + 32 <= old(out).len(),
    ensures
        final(out)@.len() == old(out)@.len(),
        forall|e: int, k: int|
            0 <= e && 0 <= k < 32 && e * 32 + k < old(out)@.len() ==> #[trigger] fr_byte(final(out)@, e, k)
                == if e == f && 32 - bytes@.len() <= k {
                bytes@[k - (32 - bytes@.len())]
            } else {
                fr_byte(old(out)@, e, k)
            },
{
    let n = bytes.len();
    let base = f * 32 + 32 - n;
    let mut i: usize = 0;
    while i < n
        invariant
            n == bytes@.len(),
            n <= 32,
            base == f * 32 + 32 - n,
            f * 32 + 32 <= out.len(),
            out@.len() == old(out)@.len(),
            i <= n,
            forall|e: int, k: int|
                0 <= e && 0 <= k < 32 && e * 32 + k < old(out)@.len() ==> #[trigger] fr_byte(out@, e, k)
                    == if e == f && 32 - n <= k < 32 - n + i {
                    bytes@[k - (32 - n)]
                } else {
                    fr_byte(old(out)@, e, k)
                },
        decreases n - i,
    {
        let ghost before = out@;
        out[base + i] = bytes[i];
        proof {
            assert forall|e: int, k: int|
                0 <= e && 0 <= k < 32 && e * 32 + k < old(out)@.len() implies #[trigger] fr_byte(out@, e, k)
                    == if e == f && 32 - n <= k < 32 - n + i + 1 {
                    bytes@[k - (32 - n)]
                } else {
                    fr_byte(old(out)@, e, k)
                } by {
                if e * 32 + k == base + i {
                    lemma_elem_unique(e, k, f as int, 32 - n + i);
                } else {
                    assert(fr_byte(out@, e, k) == fr_byte(before, e, k));
                    if e == f && k == 32 - n + i {
                        assert(false);
                    }
                }
            }
        }
        i += 1;
    }
}

/// Writes `b` into the last byte of element `f`.
pub fn put_low_byte(out: &mut Vec<u8>, f: usize, b: u8)
    requires
        f * 32 + 32 <= old(out).len(),
    ensures
        final(out)@.len() == old(out)@.len(),
        forall|e: int, k: int|
            0 <= e && 0 <= k < 32 && e * 32 + k < old(out)@.len() ==> #[trigger] fr_byte(final(out)@, e, k)
                == if e == f && k == 31 {
                b
            } else {
                fr_byte(old(out)@, e, k)
            },
{
    let ghost before = out@;
    out[f * 32 + 31] = b;
    proof {
        assert forall|e: int, k: int|
            0 <= e && 0 <= k < 32 && e * 32 + k < before.len() implies #[trigger] fr_byte(out@, e, k)
                == if e == f && k == 31 {
                b
            } else {
                fr_byte(before, e, k)
            } by {
            if e * 32 + k == f * 32 + 31 {
                lemma_elem_unique(e, k, f as int, 31);
            }
        }
    }
}

/// Writes `bytes[i]` into the last byte of element `start + i`, for each `i`.
pub fn put_byte_field(out: &mut Vec<u8>, start: usize, bytes: &[u8])
    requires
        (start + bytes@.len()) * 32 <= old(out).len(),
    ensures
        final(out)@.len() == old(out)@.len(),
        forall|e: int, k: int|
            0 <= e && 0 <= k < 32 && e * 32 + k < old(out)@.len() ==> #[trigger] fr_byte(final(out)@, e, k)
                == if start <= e < start + bytes@.len() && k == 31 {
                bytes@[e - start]
            } else {
                fr_byte(old(out)@, e, k)
            },
{
    let n = bytes.len();
    let mut i: usize = 0;
    while i < n
        invariant
            n == bytes@.len(),
            (start + n) * 32 <= out.len(),
            out@.len() == old(out)@.len(),
            i <= n,
            forall|e: int, k: int|
                0 <= e && 0 <= k < 32 && e * 32 + k < old(out)@.len() ==> #[trigger] fr_byte(out@, e, k)
                    == if start <= e < start + i && k == 31 {
                    bytes@[e - start]
                } else {
                    fr_byte(old(out)@, e, k)
                },
        decreases n - i,
    {
        put_low_byte(out, start + i, bytes[i]);
        i += 1;
    }
}

/// `v` as eight big-endian bytes.
pub fn be8(v: u64) -> (r: [u8; 8])
    ensures
        r@ == be_bytes(v as nat, 8),
{
    let x1 = v / 256;
    let x2 = x1 / 256;
    let x3 = x2 / 256;
    let x4 = x3 / 256;
    let x5 = x4 / 256;
    let x6 = x5 / 256;
    let x7 = x6 / 256;
    let r: [u8; 8] = [
        (x7 % 256) as u8,
        (x6 % 256) as u8,
        (x5 % 256) as u8,
        (x4 % 256) as u8,
        (x3 % 256) as u8,
        (x2 % 256) as u8,
        (x1 % 256) as u8,
        (v % 256) as u8,
    ];
    proof {
        reveal_with_fuel(be_bytes, 9);
        assert(r@ =~= be_bytes(v as nat, 8));
    }
    r
}

} // verus!
