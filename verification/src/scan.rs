//! The scan engine: an inclusive prefix sum in doubling passes.
//!
//! The scan runs one pass per doubling offset 1, 2, 4, ... while the offset is
//! below the element count. In a pass with offset `d`, the invocation for
//! index `i` adds the element `d` positions back into its own, so after the
//! pass each element holds the wrapped sum of a window twice as wide as
//! before; once the window covers the whole prefix, every element holds its
//! inclusive prefix sum. `scan_pass` is the per-element semantics of one such
//! dispatch, `scan_pass_offsets` the parameter sequence a dispatching front
//! end records into one submission batch, and `scan_inclusive` the whole
//! engine, verified end to end.

use crate::arith::{lemma_wsum_concat, lemma_wsum_exact, sum_int, wadd, wrapping_add_u32, wsum};
use crate::device_vec::DeviceVec;
use vstd::arithmetic::power2::{lemma2_to64, lemma_pow2_pos, lemma_pow2_unfold, pow2};
use vstd::prelude::*;

verus! {

/// The lower end of the summation window of width `w` that ends at index `i`.
pub open spec fn win_lo(i: int, w: nat) -> int {
    if i + 1 - w >= 0 {
        i + 1 - w
    } else {
        0
    }
}

/// One scan pass with the given offset: the per-element work of one dispatch.
///
/// Every index `i >= offset` gains the element `offset` positions back, as a
/// single simultaneous step reading the values the pass started from.
pub fn scan_pass(data: &mut Vec<u32>, offset: usize)
    requires
        offset >= 1,
    ensures
        final(data)@.len() == old(data)@.len(),
        forall|i: int|
            0 <= i < old(data)@.len() ==> final(data)@[i] == (if i >= offset {
                wadd(old(data)@[i], old(data)@[i - offset])
            } else {
                old(data)@[i]
            }),
{
    let ghost orig = data@;
    let n = data.len();
    let mut i: usize = n;
    while i > offset
        invariant
            offset >= 1,
            i <= n,
            i >= offset || i == n,
            data@.len() == n,
            orig.len() == n,
            forall|m: int| i <= m < n ==> data@[m] == wadd(orig[m], orig[m - offset]),
            forall|m: int| 0 <= m < i ==> data@[m] == orig[m],
        decreases i,
    {
        i = i - 1;
        let x = wrapping_add_u32(data[i], data[i - offset]);
        data.set(i, x);
    }
}

/// The pass parameters of a whole scan over `n` elements: offsets doubling
/// from 1 while below `n`, so none for `n <= 1`.
pub fn scan_pass_offsets(n: usize) -> (res: Vec<u32>)
    requires
        n <= 0xFFFF_FFFF,
    ensures
        forall|t: int|
            0 <= t < res@.len() ==> res@[t] == pow2(t as nat) && pow2(t as nat) < n,
        n <= 1 ==> res@.len() == 0,
        n >= 2 ==> pow2(res@.len() as nat) >= n,
{
    let mut res: Vec<u32> = Vec::new();
    let mut offset: usize = 1;
    proof {
        lemma2_to64();
    }
    while offset < n
        invariant
            1 <= offset,
            n <= 0xFFFF_FFFF,
            forall|t: int|
                0 <= t < res@.len() ==> res@[t] == pow2(t as nat) && pow2(t as nat) < n,
            offset == pow2(res@.len() as nat) || (offset == n && pow2(res@.len() as nat) >= n),
            n <= 1 ==> res@.len() == 0,
        decreases n - offset,
    {
        res.push(offset as u32);
        proof {
            lemma_pow2_unfold((res@.len()) as nat);
        }
        offset = if offset <= n / 2 {
            offset * 2
        } else {
            n
        };
    }
    res
}

/// The scan engine: runs every pass of the plan for the array's length.
///
/// Afterwards each element holds the wrapped (32-bit) sum of the whole prefix
/// up to and including itself — the exact sum wherever that sum fits in 32
/// bits — and an array of at most one element comes back unchanged.
pub fn scan_inclusive(v: &mut DeviceVec)
    requires
        old(v)@.len() <= 0xFFFF_FFFF,
    ensures
        final(v)@.len() == old(v)@.len(),
        forall|i: int| 0 <= i < old(v)@.len() ==> final(v)@[i] == wsum(old(v)@, 0, i + 1),
        forall|i: int|
            0 <= i < old(v)@.len() && sum_int(old(v)@, 0, i + 1) < 0x1_0000_0000 ==> final(v)@[i]
                == sum_int(old(v)@, 0, i + 1),
        old(v)@.len() <= 1 ==> final(v)@ == old(v)@,
{
    let ghost orig = v.data@;
    let n = v.data.len();
    let offsets = scan_pass_offsets(n);
    let mut t: usize = 0;
    proof {
        lemma2_to64();
        assert forall|i: int| 0 <= i < n implies v.data@[i] == wsum(
            orig,
            win_lo(i, pow2(0)),
            i + 1,
        ) by {
            crate::arith::lemma_wsum_single(orig, i);
            assert(win_lo(i, pow2(0)) == i);
        }
    }
    while t < offsets.len()
        invariant
            t <= offsets@.len(),
            v.data@.len() == n,
            orig.len() == n,
            n <= 0xFFFF_FFFF,
            forall|tt: int|
                0 <= tt < offsets@.len() ==> offsets@[tt] == pow2(tt as nat) && pow2(tt as nat)
                    < n,
            forall|i: int| 0 <= i < n ==> v.data@[i] == wsum(orig, win_lo(i, pow2(t as nat)), i + 1),
        decreases offsets@.len() - t,
    {
        let ghost w = pow2(t as nat);
        let ghost pre = v.data@;
        let off = offsets[t];
        proof {
            lemma_pow2_pos(t as nat);
        }
        scan_pass(&mut v.data, off as usize);
        proof {
            lemma_pow2_unfold((t + 1) as nat);
            assert forall|i: int| 0 <= i < n implies v.data@[i] == wsum(
                orig,
                win_lo(i, pow2((t + 1) as nat)),
                i + 1,
            ) by {
                let w2 = pow2((t + 1) as nat);
                if i >= w {
                    let lo2 = win_lo(i, w2);
                    let mid = i + 1 - w;
                    assert(pre[i] == wsum(orig, mid, i + 1));
                    assert(pre[i - w] == wsum(orig, lo2, mid));
                    lemma_wsum_concat(orig, lo2, mid, i + 1);
                    assert(v.data@[i] == wadd(pre[i], pre[i - w]));
                } else {
                    assert(v.data@[i] == pre[i]);
                    assert(win_lo(i, w) == 0 && win_lo(i, w2) == 0);
                }
            }
        }
        t = t + 1;
    }
    proof {
        if n >= 2 {
            assert(pow2(offsets@.len() as nat) >= n);
            assert forall|i: int| 0 <= i < n implies v.data@[i] == wsum(orig, 0, i + 1) by {
                assert(win_lo(i, pow2(offsets@.len() as nat)) == 0);
            }
        } else {
            assert forall|i: int| 0 <= i < n implies v.data@[i] == wsum(orig, 0, i + 1) by {
                assert(i == 0);
                assert(win_lo(i, pow2(0)) == i);
                crate::arith::lemma_wsum_single(orig, i);
            }
            assert(v.data@ =~= orig);
        }
        assert forall|i: int|
            0 <= i < n && sum_int(orig, 0, i + 1) < 0x1_0000_0000 implies v.data@[i] == sum_int(
            orig,
            0,
            i + 1,
        ) by {
            lemma_wsum_exact(orig, 0, i + 1);
        }
    }
}

} // verus!
