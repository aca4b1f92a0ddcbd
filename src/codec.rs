//! Little-endian encoding of integers into bytes.

use vstd::prelude::*;

use crate::paging::{le_byte, le_u64};

verus! {

/// The 8 little-endian bytes of `v`.
pub open spec fn u64_bytes(v: u64) -> Seq<u8> {
    Seq::new(8, |k: int| le_byte(v, k))
}

/// The 4 little-endian bytes of `v`.
pub open spec fn u32_bytes(v: u32) -> Seq<u8> {
    Seq::new(4, |k: int| le_byte(v as u64, k))
}

/// The little-endian value of the 4 bytes of `b` from `at`.
pub open spec fn le_u32(b: Seq<u8>, at: int) -> u32 {
    (b[at] as u32) | ((b[at + 1] as u32) << 8u32) | ((b[at + 2] as u32) << 16u32) | ((b[at
        + 3] as u32) << 24u32)
}

/// Appends the little-endian bytes of `v`.
pub fn push_u64(out: &mut Vec<u8>, v: u64)
    ensures
        final(out)@ == old(out)@ + u64_bytes(v),
{
    let mut k: u64 = 0;
    while k < 8
        invariant
            k <= 8,
            out@.len() == old(out)@.len() + k,
            out@.subrange(0, old(out)@.len() as int) == old(out)@,
            forall|i: int| 0 <= i < k ==> #[trigger] out@[old(out)@.len() + i] == le_byte(v, i),
        decreases 8 - k,
    {
        let ghost prev = out@;
        out.push((#[verifier::truncate] (((v >> (8 * k)) & 0xff) as u8)));
        proof {
            assert(out@.subrange(0, old(out)@.len() as int) =~= prev.subrange(
                0,
                old(out)@.len() as int,
            ));
            assert forall|i: int| 0 <= i < k + 1 implies #[trigger] out@[old(out)@.len() + i]
                == le_byte(v, i) by {
                if i < k {
                    assert(out@[old(out)@.len() + i] == prev[old(out)@.len() + i]);
                }
            }
        }
        k = k + 1;
    }
    assert forall|i: int| 0 <= i < out@.len() implies #[trigger] out@[i] == (old(out)@ + u64_bytes(v))[i] by {
        if i < old(out)@.len() {
            assert(out@[i] == out@.subrange(0, old(out)@.len() as int)[i]);
        } else {
            assert(out@[old(out)@.len() + (i - old(out)@.len())] == out@[i]);
        }
    }
    assert(out@ =~= old(out)@ + u64_bytes(v));
}

/// Appends the little-endian bytes of `v`.
pub fn push_u32(out: &mut Vec<u8>, v: u32)
    ensures
        final(out)@ == old(out)@ + u32_bytes(v),
{
    let mut k: u32 = 0;
    while k < 4
        invariant
            k <= 4,
            out@.len() == old(out)@.len() + k,
            out@.subrange(0, old(out)@.len() as int) == old(out)@,
            forall|i: int| 0 <= i < k ==> #[trigger] out@[old(out)@.len() + i] == le_byte(
                v as u64,
                i,
            ),
        decreases 4 - k,
    {
        let ghost prev = out@;
        let b: u8 = #[verifier::truncate] (((v >> (8 * k)) & 0xff) as u8);
        proof {
            let vv = v;
            let kk = k;
            assert(((vv >> (8 * kk)) & 0xff) as u8 == ((vv as u64 >> (8 * kk) as u64) & 0xff) as u8)
                by (bit_vector)
                requires
                    kk < 4,
            ;
        }
        out.push(b);
        proof {
            assert(out@.subrange(0, old(out)@.len() as int) =~= prev.subrange(
                0,
                old(out)@.len() as int,
            ));
            assert forall|i: int| 0 <= i < k + 1 implies #[trigger] out@[old(out)@.len() + i]
                == le_byte(v as u64, i) by {
                if i < k {
                    assert(out@[old(out)@.len() + i] == prev[old(out)@.len() + i]);
                }
            }
        }
        k = k + 1;
    }
    assert forall|i: int| 0 <= i < out@.len() implies #[trigger] out@[i] == (old(out)@ + u32_bytes(v))[i] by {
        if i < old(out)@.len() {
            assert(out@[i] == out@.subrange(0, old(out)@.len() as int)[i]);
        } else {
            assert(out@[old(out)@.len() + (i - old(out)@.len())] == out@[i]);
        }
    }
    assert(out@ =~= old(out)@ + u32_bytes(v));
}

/// Reads the little-endian `u64` at `at`.
pub fn read_u64(b: &[u8], at: usize) -> (r: u64)
    requires
        at + 8 <= b@.len(),
    ensures
        r == le_u64(b@, at as int),
{
    (b[at] as u64) | ((b[at + 1] as u64) << 8u64) | ((b[at + 2] as u64) << 16u64) | ((b[at
        + 3] as u64) << 24u64) | ((b[at + 4] as u64) << 32u64) | ((b[at + 5] as u64) << 40u64) | ((
    b[at + 6] as u64) << 48u64) | ((b[at + 7] as u64) << 56u64)
}

/// Reads the little-endian `u32` at `at`.
pub fn read_u32(b: &[u8], at: usize) -> (r: u32)
    requires
        at + 4 <= b@.len(),
    ensures
        r == le_u32(b@, at as int),
{
    (b[at] as u32) | ((b[at + 1] as u32) << 8u32) | ((b[at + 2] as u32) << 16u32) | ((b[at
        + 3] as u32) << 24u32)
}

/// Reading back the bytes of a `u64` gives the value.
pub proof fn lemma_u64_round_trip(v: u64, b: Seq<u8>, at: int)
    requires
        0 <= at,
        at + 8 <= b.len(),
        b.subrange(at, at + 8) == u64_bytes(v),
    ensures
        le_u64(b, at) == v,
{
    let s = b.subrange(at, at + 8);
    assert(b[at] == s[0] && b[at + 1] == s[1] && b[at + 2] == s[2] && b[at + 3] == s[3]);
    assert(b[at + 4] == s[4] && b[at + 5] == s[5] && b[at + 6] == s[6] && b[at + 7] == s[7]);
    let b0 = b[at];
    let b1 = b[at + 1];
    let b2 = b[at + 2];
    let b3 = b[at + 3];
    let b4 = b[at + 4];
    let b5 = b[at + 5];
    let b6 = b[at + 6];
    let b7 = b[at + 7];
    assert((b0 as u64) | ((b1 as u64) << 8u64) | ((b2 as u64) << 16u64) | ((b3 as u64) << 24u64)
        | ((b4 as u64) << 32u64) | ((b5 as u64) << 40u64) | ((b6 as u64) << 48u64) | ((b7 as u64)
        << 56u64) == v) by (bit_vector)
        requires
            b0 == ((v >> 0u64) & 0xff) as u8,
            b1 == ((v >> 8u64) & 0xff) as u8,
            b2 == ((v >> 16u64) & 0xff) as u8,
            b3 == ((v >> 24u64) & 0xff) as u8,
            b4 == ((v >> 32u64) & 0xff) as u8,
            b5 == ((v >> 40u64) & 0xff) as u8,
            b6 == ((v >> 48u64) & 0xff) as u8,
            b7 == ((v >> 56u64) & 0xff) as u8,
    ;
}

/// Reading back the bytes of a `u32` gives the value.
pub proof fn lemma_u32_round_trip(v: u32, b: Seq<u8>, at: int)
    requires
        0 <= at,
        at + 4 <= b.len(),
        b.subrange(at, at + 4) == u32_bytes(v),
    ensures
        le_u32(b, at) == v,
{
    let s = b.subrange(at, at + 4);
    assert(b[at] == s[0] && b[at + 1] == s[1] && b[at + 2] == s[2] && b[at + 3] == s[3]);
    let b0 = b[at];
    let b1 = b[at + 1];
    let b2 = b[at + 2];
    let b3 = b[at + 3];
    let w = v as u64;
    assert((b0 as u32) | ((b1 as u32) << 8u32) | ((b2 as u32) << 16u32) | ((b3 as u32) << 24u32)
        == v) by (bit_vector)
        requires
            w == v as u64,
            b0 == ((w >> 0u64) & 0xff) as u8,
            b1 == ((w >> 8u64) & 0xff) as u8,
            b2 == ((w >> 16u64) & 0xff) as u8,
            b3 == ((w >> 24u64) & 0xff) as u8,
    ;
}

} // verus!
