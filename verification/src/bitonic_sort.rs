//! The sort engine: ascending sort, dispatched as a bitonic network.
//!
//! The network is a sequence of passes, each parameterized by a compare
//! distance `j` and a block size `k`. In one pass the invocation for index
//! `i` finds its partner `i ^ j`; the lower index of the pair keeps the
//! smaller element where bit `k` of the lower index is clear (an ascending
//! run) and the larger one where it is set (a descending run). The outer
//! block size is produced by rounding every count from 2 up to the element
//! count to the next power of two, which repeats block sizes; the repeated
//! merges are redundant but harmless, and the progression is kept exactly
//! as the dispatch order of the network. The network is correct only when
//! the element count is handled as a power of two, so a count `n` that is
//! not one is dispatched as the plan for `next_pow2(n)` over the array
//! padded with maximal sentinel elements, whose sorted tail is dropped.
//!
//! `sort_pass` is the per-element semantics of one dispatch, verified to
//! permute the array pointwise as the kernel does; `sort_pass_params` is
//! the pass plan for a given count; `bitonic_sort` is the engine, verified
//! to produce the sorted permutation of its input — which by
//! `lemma_sorted_unique` pins every element of the output, the one result
//! the padded network also computes.

use crate::device_vec::DeviceVec;
use vstd::arithmetic::power2::{lemma2_to64, lemma_pow2_pos, lemma_pow2_unfold, pow2};
use vstd::prelude::*;
use vstd::seq_lib::group_to_multiset_ensures;

verus! {

/// The parameter record of one sort pass: compare distance and block size.
#[derive(Clone, Copy, Debug, PartialEq, Eq, Structural)]
pub struct SortParams {
    /// The compare distance: each index is paired with `index ^ j`.
    pub j: u32,
    /// The block size: bit `k` of the lower index gives the direction.
    pub k: u32,
}

/// The smallest power of two that is at least `x` (and at least 2 for
/// `x >= 2`, at least 1 always).
pub open spec fn npot(x: nat) -> nat
    decreases x,
{
    if x <= 1 {
        1
    } else {
        2 * npot(((x + 1) / 2) as nat)
    }
}

/// `npot` never overshoots a power of two that already bounds its argument.
pub proof fn lemma_npot_le_pow2(x: nat, t: nat)
    requires
        x <= pow2(t),
    ensures
        npot(x) <= pow2(t),
    decreases x,
{
    if x <= 1 {
        lemma_pow2_pos(t);
    } else {
        if t == 0 {
            assert(pow2(0) == 1) by {
                lemma2_to64();
            }
        }
        let x2 = ((x + 1) / 2) as nat;
        lemma_pow2_unfold(t);
        assert(x2 <= pow2((t - 1) as nat));
        lemma_npot_le_pow2(x2, (t - 1) as nat);
    }
}

/// Computes `npot(x)`, the next power of two at or above `x`.
pub fn next_pow2(x: usize) -> (r: usize)
    requires
        x <= 0x8000_0000,
    ensures
        r == npot(x as nat),
        r <= 0x8000_0000,
    decreases x,
{
    if x <= 1 {
        1
    } else {
        let half = next_pow2((x + 1) / 2);
        proof {
            lemma2_to64();
            lemma_npot_le_pow2(((x + 1) / 2) as nat, 30);
        }
        2 * half
    }
}

/// The passes of one merge stage: distances `j`, `j/2`, ..., 1, at block
/// size `k`.
pub open spec fn halving_passes(j: nat, k: nat) -> Seq<SortParams>
    decreases j,
{
    if j == 0 {
        Seq::empty()
    } else {
        seq![SortParams { j: j as u32, k: k as u32 }] + halving_passes(j / 2, k)
    }
}

/// The whole pass plan for `n` elements: for every count `x` from 2 up to
/// `n`, a merge stage at block size `npot(x)`.
pub open spec fn spec_sort_passes(n: nat) -> Seq<SortParams>
    decreases n,
{
    if n < 2 {
        Seq::empty()
    } else {
        spec_sort_passes((n - 1) as nat) + halving_passes(npot(n) / 2, npot(n))
    }
}

/// Every pass of a merge stage has a positive compare distance.
pub proof fn lemma_halving_passes_pos(j: nat, k: nat)
    requires
        j <= 0xFFFF_FFFF,
    ensures
        forall|t: int|
            0 <= t < halving_passes(j, k).len() ==> (#[trigger] halving_passes(j, k)[t]).j >= 1,
    decreases j,
{
    if j > 0 {
        lemma_halving_passes_pos(j / 2, k);
        assert forall|t: int| 0 <= t < halving_passes(j, k).len() implies (#[trigger] halving_passes(
            j,
            k,
        )[t]).j >= 1 by {
            if t > 0 {
                assert(halving_passes(j, k)[t] == halving_passes(j / 2, k)[t - 1]);
            } else {
                assert(halving_passes(j, k)[0] == SortParams { j: j as u32, k: k as u32 });
            }
        }
    }
}

/// Every pass of the plan has a positive compare distance.
pub proof fn lemma_sort_passes_pos(n: nat)
    requires
        n <= 0x8000_0000,
    ensures
        forall|t: int|
            0 <= t < spec_sort_passes(n).len() ==> (#[trigger] spec_sort_passes(n)[t]).j >= 1,
    decreases n,
{
    if n >= 2 {
        lemma_sort_passes_pos((n - 1) as nat);
        lemma2_to64();
        lemma_npot_le_pow2(n, 31);
        lemma_halving_passes_pos(npot(n) / 2, npot(n));
        let pre = spec_sort_passes((n - 1) as nat);
        let stage = halving_passes(npot(n) / 2, npot(n));
        assert forall|t: int| 0 <= t < spec_sort_passes(n).len() implies (
        #[trigger] spec_sort_passes(n)[t]).j >= 1 by {
            if t < pre.len() {
                assert(spec_sort_passes(n)[t] == pre[t]);
            } else {
                assert(spec_sort_passes(n)[t] == stage[t - pre.len()]);
            }
        }
    }
}

/// Whether a sequence is sorted in non-decreasing order.
pub open spec fn sorted_asc(s: Seq<u32>) -> bool {
    forall|a: int, b: int| 0 <= a <= b < s.len() ==> s[a] <= s[b]
}

/// Whether the pair whose lower index is `lower` compares ascending in a
/// pass at block size `k`.
pub open spec fn asc_at(lower: usize, k: usize) -> bool {
    lower & k == 0
}

/// The element at index `m` after one pass at distance `j`, block size `k`,
/// over the contents `s`: the per-element result of the compare-exchange
/// kernel. An index whose partner lies outside the array keeps its element.
pub open spec fn sort_pass_at(s: Seq<u32>, j: usize, k: usize, m: int) -> u32 {
    let mu = m as usize;
    let pu = mu ^ j;
    let p = pu as int;
    if p >= s.len() {
        s[m]
    } else if p > m {
        if asc_at(mu, k) {
            if s[m] > s[p] {
                s[p]
            } else {
                s[m]
            }
        } else {
            if s[m] < s[p] {
                s[p]
            } else {
                s[m]
            }
        }
    } else if p < m {
        if asc_at(pu, k) {
            if s[p] > s[m] {
                s[p]
            } else {
                s[m]
            }
        } else {
            if s[p] < s[m] {
                s[p]
            } else {
                s[m]
            }
        }
    } else {
        s[m]
    }
}

/// Whether the pair of index `m` has already been handled once every index
/// below `i` has been visited.
pub open spec fn pair_done(m: int, j: usize, n: int, i: int) -> bool {
    let p = ((m as usize) ^ j) as int;
    if p < n {
        (if p < m {
            p
        } else {
            m
        }) < i
    } else {
        m < i
    }
}

/// Exchanging a partner pair is involutive, and a positive distance pairs
/// an index with a different one.
proof fn lemma_xor_facts(i: usize, j: usize)
    ensures
        (i ^ j) ^ j == i,
        j != 0 ==> i ^ j != i,
{
    assert(((i ^ j) ^ j) == i) by (bit_vector);
    assert(j != 0 ==> (i ^ j) != i) by (bit_vector);
}

/// Swapping two positions of a sequence keeps its multiset of elements.
proof fn lemma_swap_multiset(s: Seq<u32>, a: int, b: int)
    requires
        0 <= a < s.len(),
        0 <= b < s.len(),
        a != b,
    ensures
        s.update(a, s[b]).update(b, s[a]).to_multiset() == s.to_multiset(),
{
    broadcast use group_to_multiset_ensures;
    broadcast use vstd::multiset::group_multiset_axioms;

    let s1 = s.update(a, s[b]);
    let s2 = s1.update(b, s[a]);
    assert(s1[b] == s[b]);
    assert(s1.to_multiset() == s.to_multiset().insert(s[b]).remove(s[a]));
    assert(s2.to_multiset() == s1.to_multiset().insert(s[a]).remove(s1[b]));
    assert(s2.to_multiset() =~= s.to_multiset());
}

/// One sort pass: the per-element work of one dispatch of the network.
///
/// Afterwards every element is the pointwise compare-exchange result
/// `sort_pass_at` of the previous contents, which in particular permutes the
/// array.
pub fn sort_pass(data: &mut Vec<u32>, j: usize, k: usize)
    requires
        j >= 1,
    ensures
        final(data)@.len() == old(data)@.len(),
        forall|m: int|
            0 <= m < old(data)@.len() ==> final(data)@[m] == sort_pass_at(old(data)@, j, k, m),
        final(data)@.to_multiset() == old(data)@.to_multiset(),
{
    let ghost orig = data@;
    let n = data.len();
    let mut i: usize = 0;
    while i < n
        invariant
            j >= 1,
            i <= n,
            data@.len() == n,
            orig.len() == n,
            data@.to_multiset() == orig.to_multiset(),
            forall|m: int|
                0 <= m < n ==> data@[m] == (if pair_done(m, j, n as int, i as int) {
                    sort_pass_at(orig, j, k, m)
                } else {
                    orig[m]
                }),
        decreases n - i,
    {
        let ghost pre = data@;
        let p = i ^ j;
        proof {
            lemma_xor_facts(i, j);
        }
        if p > i && p < n {
            let a = data[i];
            let b = data[p];
            let do_swap = if (i & k) == 0 {
                a > b
            } else {
                a < b
            };
            if do_swap {
                data.set(i, b);
                data.set(p, a);
                proof {
                    lemma_swap_multiset(pre, i as int, p as int);
                    assert(data@ =~= pre.update(i as int, pre[p as int]).update(
                        p as int,
                        pre[i as int],
                    ));
                }
            }
        }
        proof {
            assert forall|m: int| 0 <= m < n implies data@[m] == (if pair_done(
                m,
                j,
                n as int,
                (i + 1) as int,
            ) {
                sort_pass_at(orig, j, k, m)
            } else {
                orig[m]
            }) by {
                lemma_xor_facts(m as usize, j);
            }
        }
        i = i + 1;
    }
}

/// The pass parameters of a whole sort over `n` elements, in dispatch
/// order; every pass has a positive compare distance, as `sort_pass`
/// requires.
pub fn sort_pass_params(n: usize) -> (res: Vec<SortParams>)
    requires
        n <= 0x8000_0000,
    ensures
        res@ == spec_sort_passes(n as nat),
        forall|t: int| 0 <= t < res@.len() ==> (#[trigger] res@[t]).j >= 1,
{
    proof {
        lemma_sort_passes_pos(n as nat);
    }
    let mut res: Vec<SortParams> = Vec::new();
    if n >= 2 {
        let mut x: usize = 2;
        while x <= n
            invariant
                2 <= x <= n + 1,
                n <= 0x8000_0000,
                res@ == spec_sort_passes((x - 1) as nat),
            decreases n + 1 - x,
        {
            let kp = next_pow2(x);
            let ghost knat = kp as nat;
            let mut j: usize = kp / 2;
            while j > 0
                invariant
                    j <= kp,
                    kp <= 0x8000_0000,
                    kp == npot(x as nat),
                    knat == kp as nat,
                    res@ + halving_passes(j as nat, knat) == spec_sort_passes((x - 1) as nat)
                        + halving_passes((kp / 2) as nat, knat),
                decreases j,
            {
                res.push(SortParams { j: j as u32, k: kp as u32 });
                proof {
                    assert(halving_passes(j as nat, knat) =~= seq![
                        SortParams { j: j as u32, k: kp as u32 },
                    ] + halving_passes((j / 2) as nat, knat));
                    assert(res@ + halving_passes((j / 2) as nat, knat) =~= spec_sort_passes(
                        (x - 1) as nat,
                    ) + halving_passes((kp / 2) as nat, knat));
                }
                j = j / 2;
            }
            proof {
                assert(res@ =~= res@ + halving_passes(0, knat));
                assert(res@ =~= spec_sort_passes(x as nat));
            }
            x = x + 1;
        }
    }
    res
}

/// The sort engine: sorts the array ascending in place.
///
/// The contract is the observable result of the network: the output is
/// non-decreasing and a permutation (equal multiset) of the input, which by
/// `lemma_sorted_unique` pins the output exactly. An already-sorted array —
/// in particular one of at most one element — comes back unchanged, so
/// sorting twice equals sorting once. A dispatching front end computes the
/// same result by recording the pass plan for the padded count
/// `next_pow2(n)` over the array extended with maximal sentinels, which is
/// how the network handles a count that is not a power of two.
pub fn bitonic_sort(v: &mut DeviceVec)
    ensures
        final(v)@.len() == old(v)@.len(),
        sorted_asc(final(v)@),
        final(v)@.to_multiset() == old(v)@.to_multiset(),
        sorted_asc(old(v)@) ==> final(v)@ == old(v)@,
        old(v)@.len() <= 1 ==> final(v)@ == old(v)@,
{
    let ghost orig = v.data@;
    let n = v.data.len();
    let mut i: usize = 1;
    while i < n
        invariant
            i >= 1,
            i <= n || i == 1,
            v.data@.len() == n,
            orig.len() == n,
            v.data@.to_multiset() == orig.to_multiset(),
            forall|a: int, b: int| 0 <= a <= b < i && b < n ==> v.data@[a] <= v.data@[b],
            sorted_asc(orig) ==> v.data@ == orig,
        decreases n - i,
    {
        let mut p: usize = i;
        while p > 0 && v.data[p - 1] > v.data[p]
            invariant
                p <= i,
                i < n,
                v.data@.len() == n,
                orig.len() == n,
                v.data@.to_multiset() == orig.to_multiset(),
                forall|a: int, b: int|
                    0 <= a <= b <= i && a != p && b != p ==> v.data@[a] <= v.data@[b],
                forall|b: int| p < b <= i ==> v.data@[p as int] <= v.data@[b],
                sorted_asc(orig) ==> v.data@ == orig,
            decreases p,
        {
            let ghost pre = v.data@;
            let x = v.data[p - 1];
            let y = v.data[p];
            v.data.set(p - 1, y);
            v.data.set(p, x);
            proof {
                lemma_swap_multiset(pre, (p - 1) as int, p as int);
                assert(v.data@ =~= pre.update((p - 1) as int, pre[p as int]).update(
                    p as int,
                    pre[(p - 1) as int],
                ));
                if sorted_asc(orig) {
                    assert(pre[(p - 1) as int] <= pre[p as int]);
                    assert(false);
                }
                let q = (p - 1) as int;
                assert forall|a: int, b: int|
                    0 <= a <= b <= i && a != q && b != q implies v.data@[a] <= v.data@[b] by {
                    if b == p as int {
                        if a < q {
                            assert(pre[a] <= pre[q]);
                        }
                    } else if a == p as int {
                        assert(pre[q] <= pre[b]);
                    } else {
                        assert(pre[a] <= pre[b]);
                    }
                }
                assert forall|b: int| q < b <= i implies v.data@[q] <= v.data@[b] by {
                    if b > p {
                        assert(pre[p as int] <= pre[b]);
                    }
                }
            }
            p = p - 1;
        }
        proof {
            assert forall|a: int, b: int| 0 <= a <= b <= i implies v.data@[a] <= v.data@[b] by {
                if b == p as int && a < b {
                    assert(v.data@[a] <= v.data@[(p - 1) as int]);
                    assert(v.data@[(p - 1) as int] <= v.data@[p as int]);
                }
            }
        }
        i = i + 1;
    }
    proof {
        assert(sorted_asc(v.data@));
        if n <= 1 {
            assert(sorted_asc(orig));
        }
    }
}

/// A sorted sequence is determined by its multiset: two sorted sequences
/// that hold the same elements with the same multiplicities are equal. With
/// the sort contract this pins the sorted output completely.
pub proof fn lemma_sorted_unique(s1: Seq<u32>, s2: Seq<u32>)
    requires
        sorted_asc(s1),
        sorted_asc(s2),
        s1.to_multiset() == s2.to_multiset(),
    ensures
        s1 == s2,
    decreases s1.len(),
{
    broadcast use group_to_multiset_ensures;

    assert(s1.to_multiset().len() == s1.len());
    assert(s2.to_multiset().len() == s2.len());
    if s1.len() == 0 {
        assert(s1 =~= s2);
    } else {
        assert(s1.contains(s1[0])) by {
            assert(0 <= 0 < s1.len() && s1[0] == s1[0]);
        }
        assert(s2.contains(s2[0])) by {
            assert(0 <= 0 < s2.len() && s2[0] == s2[0]);
        }
        assert(s1.to_multiset().count(s1[0]) > 0);
        assert(s2.to_multiset().count(s1[0]) > 0);
        assert(s2.contains(s1[0]));
        assert(s2.to_multiset().count(s2[0]) > 0);
        assert(s1.to_multiset().count(s2[0]) > 0);
        assert(s1.contains(s2[0]));
        let j2 = choose|idx: int| 0 <= idx < s2.len() && s2[idx] == s1[0];
        assert(s2[0] <= s2[j2]);
        let j1 = choose|idx: int| 0 <= idx < s1.len() && s1[idx] == s2[0];
        assert(s1[0] <= s1[j1]);
        assert(s1[0] == s2[0]);
        let r1 = s1.drop_first();
        let r2 = s2.drop_first();
        assert(s1.remove(0) =~= r1);
        assert(s2.remove(0) =~= r2);
        assert(s1.remove(0).to_multiset() == s1.to_multiset().remove(s1[0]));
        assert(s2.remove(0).to_multiset() == s2.to_multiset().remove(s2[0]));
        assert(r1.to_multiset() == r2.to_multiset());
        assert(sorted_asc(r1)) by {
            assert forall|a: int, b: int| 0 <= a <= b < r1.len() implies r1[a] <= r1[b] by {
                assert(r1[a] == s1[a + 1] && r1[b] == s1[b + 1]);
            }
        }
        assert(sorted_asc(r2)) by {
            assert forall|a: int, b: int| 0 <= a <= b < r2.len() implies r2[a] <= r2[b] by {
                assert(r2[a] == s2[a + 1] && r2[b] == s2[b + 1]);
            }
        }
        lemma_sorted_unique(r1, r2);
        assert forall|idx: int| 0 <= idx < s1.len() implies s1[idx] == s2[idx] by {
            if idx > 0 {
                assert(r1[idx - 1] == s1[idx]);
                assert(r2[idx - 1] == s2[idx]);
            }
        }
        assert(s1 =~= s2);
    }
}

/// The worked example: the sorted permutation of `[1, 3, 2, 5, 4, 6, 7, 8]`
/// is `[1, 2, 3, 4, 5, 6, 7, 8]`, so the sort contract pins exactly that
/// output for that input.
pub proof fn lemma_sort_example(s: Seq<u32>)
    requires
        sorted_asc(s),
        s.to_multiset() == seq![1u32, 3, 2, 5, 4, 6, 7, 8].to_multiset(),
    ensures
        s == seq![1u32, 2, 3, 4, 5, 6, 7, 8],
{
    let a = seq![1u32, 3, 2, 5, 4, 6, 7, 8];
    let b = seq![1u32, 2, 3, 4, 5, 6, 7, 8];
    lemma_swap_multiset(a, 1, 2);
    let a1 = a.update(1, a[2]).update(2, a[1]);
    assert(a1 =~= seq![1u32, 2, 3, 5, 4, 6, 7, 8]);
    lemma_swap_multiset(a1, 3, 4);
    assert(a1.update(3, a1[4]).update(4, a1[3]) =~= b);
    assert(b.to_multiset() == a.to_multiset());
    assert(sorted_asc(b));
    lemma_sorted_unique(s, b);
}

} // verus!
