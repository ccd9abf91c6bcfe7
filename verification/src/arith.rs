//! Wrapping 32-bit addition and wrapped range sums.
//!
//! The kernel language adds storage values as 32-bit machine integers, so the
//! scan engine's results are partial sums reduced modulo `2^32`. This module
//! gives that arithmetic a specification-level form and relates it to the
//! exact integer sum.

use vstd::arithmetic::div_mod::{lemma_add_mod_noop, lemma_small_mod};
use vstd::prelude::*;

verus! {

/// One step of 32-bit wrapping addition.
pub open spec fn wadd(a: u32, b: u32) -> u32 {
    if a + b > u32::MAX {
        (a + b - 0x1_0000_0000) as u32
    } else {
        (a + b) as u32
    }
}

/// The wrapping sum of `s[lo..hi)`, accumulated left to right.
pub open spec fn wsum(s: Seq<u32>, lo: int, hi: int) -> u32
    decreases hi - lo,
{
    if hi <= lo {
        0u32
    } else {
        wadd(wsum(s, lo, hi - 1), s[hi - 1])
    }
}

/// The exact integer sum of `s[lo..hi)`.
pub open spec fn sum_int(s: Seq<u32>, lo: int, hi: int) -> int
    decreases hi - lo,
{
    if hi <= lo {
        0
    } else {
        sum_int(s, lo, hi - 1) + s[hi - 1]
    }
}

/// Executable wrapping addition, pinned to `wadd`.
pub fn wrapping_add_u32(a: u32, b: u32) -> (r: u32)
    ensures
        r == wadd(a, b),
{
    a.wrapping_add(b)
}

/// A window of width one sums to its single element.
pub proof fn lemma_wsum_single(s: Seq<u32>, i: int)
    ensures
        wsum(s, i, i + 1) == s[i],
{
    assert(wsum(s, i, i) == 0);
}

/// Wrapping addition is associative.
pub proof fn lemma_wadd_assoc(a: u32, b: u32, c: u32)
    ensures
        wadd(wadd(a, b), c) == wadd(a, wadd(b, c)),
{
}

/// Splitting a wrapped range sum at any midpoint.
pub proof fn lemma_wsum_concat(s: Seq<u32>, lo: int, mid: int, hi: int)
    requires
        lo <= mid <= hi,
    ensures
        wsum(s, lo, hi) == wadd(wsum(s, lo, mid), wsum(s, mid, hi)),
    decreases hi - mid,
{
    if hi == mid {
        assert(wadd(wsum(s, lo, mid), 0u32) == wsum(s, lo, mid));
    } else {
        lemma_wsum_concat(s, lo, mid, hi - 1);
        lemma_wadd_assoc(wsum(s, lo, mid), wsum(s, mid, hi - 1), s[hi - 1]);
    }
}

/// A wrapped range sum is the exact sum reduced modulo `2^32`.
pub proof fn lemma_wsum_is_mod(s: Seq<u32>, lo: int, hi: int)
    ensures
        wsum(s, lo, hi) == sum_int(s, lo, hi) % 0x1_0000_0000,
        sum_int(s, lo, hi) >= 0,
    decreases hi - lo,
{
    if hi <= lo {
    } else {
        lemma_wsum_is_mod(s, lo, hi - 1);
        let m: int = 0x1_0000_0000;
        let x = sum_int(s, lo, hi - 1);
        let y = s[hi - 1] as int;
        lemma_add_mod_noop(x, y, m);
        lemma_small_mod(y as nat, m as nat);
        assert(wadd(wsum(s, lo, hi - 1), s[hi - 1]) == ((x % m) + (y % m)) % m);
    }
}

/// Where the exact sum fits in 32 bits, the wrapped sum is the exact sum.
pub proof fn lemma_wsum_exact(s: Seq<u32>, lo: int, hi: int)
    requires
        sum_int(s, lo, hi) < 0x1_0000_0000,
    ensures
        wsum(s, lo, hi) == sum_int(s, lo, hi),
{
    lemma_wsum_is_mod(s, lo, hi);
    lemma_small_mod(sum_int(s, lo, hi) as nat, 0x1_0000_0000nat);
}

} // verus!
