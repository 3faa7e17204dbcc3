//! Whole-axis and index reduction launch planning: sum, max, min,
//! log-sum-exp, arg-min, arg-max.
//!
//! A dedicated kernel variant exists for every power-of-two work-group size
//! from 1 to 1024, but the selection procedure is seeded at 256 and only ever
//! shrinks, so it never chooses a variant above 256; that ceiling is part of
//! the observed behaviour and is preserved here deliberately.  One work-group
//! is launched per reduction instance; within a group each lane strides
//! through the axis at the group width before the in-group tree reduction.

use vstd::prelude::*;
use vstd::arithmetic::div_mod::lemma_fundamental_div_mod;
use vstd::arithmetic::div_mod::lemma_fundamental_div_mod_converse;
use vstd::arithmetic::div_mod::lemma_mod_multiples_vanish;
use vstd::arithmetic::div_mod::lemma_mod_sub_multiples_vanish;
use vstd::arithmetic::power2::pow2;
use vstd::arithmetic::power2::lemma_pow2_unfold;
use vstd::arithmetic::power2::lemma2_to64;
use crate::shape::Shape;

verus! {

/// What the selection loop computes: starting from `p`, halve while the next
/// size down still covers the axis length `n`.
pub open spec fn shrink_group_size(p: int, n: int) -> int
    decreases p,
{
    if p >= 2 && p / 2 >= n {
        shrink_group_size(p / 2, n)
    } else {
        p
    }
}

/// The selected size is the smallest power of two that seats the whole axis,
/// except that an axis longer than the seed keeps the seed itself.
pub proof fn lemma_shrink_group_size(p: int, n: int, e: nat)
    requires
        n >= 1,
        p == pow2(e),
    ensures
        1 <= shrink_group_size(p, n) <= p,
        exists|f: nat| shrink_group_size(p, n) == pow2(f) && f <= e,
        shrink_group_size(p, n) < 2 * n,
        n <= p ==> shrink_group_size(p, n) >= n,
    decreases p,
{
    vstd::arithmetic::power2::lemma_pow2_pos(e);
    if p >= 2 && p / 2 >= n {
        assert(e >= 1) by {
            if e == 0 {
                assert(pow2(0) == 1) by { lemma2_to64(); }
            }
        }
        lemma_pow2_unfold(e);
        assert(p / 2 == pow2((e - 1) as nat));
        lemma_shrink_group_size(p / 2, n, (e - 1) as nat);
    } else {
        assert(shrink_group_size(p, n) == p);
        assert(exists|f: nat| p == pow2(f) && f <= e) by {
            assert(p == pow2(e));
        }
    }
}

/// One reduction launch: `groups` work-groups of `group_size` lanes, running
/// the kernel variant compiled for that group size.
pub struct ReduceLaunch {
    /// Work-group width, and the number of lanes cooperating on one axis.
    pub group_size: u32,
    /// Which compiled kernel variant to run: `group_size == 2^variant`.
    pub variant: u32,
    /// Work-group count: one group per independent reduction instance.
    pub groups: u32,
    /// Linear stride between consecutive axis coordinates, passed to the
    /// kernel to locate each instance's elements.
    pub lower: u32,
    /// Axis length: how many elements each group folds.
    pub axis: u32,
}

impl ReduceLaunch {
    pub open spec fn wf(&self) -> bool {
        &&& self.axis >= 1
        &&& self.group_size == shrink_group_size(256, self.axis as int)
        &&& 1 <= self.group_size <= 256
        &&& self.group_size == pow2(self.variant as nat)
        &&& self.variant <= 8
        &&& self.group_size < 2 * self.axis
        &&& self.axis <= 256 ==> self.group_size >= self.axis
    }
}

/// Pick the work-group size for a reduction over an axis of length `n`:
/// start at 256 and halve while the next size down still covers `n`.  The
/// returned variant index selects the kernel compiled for that exact size.
pub fn select_group_size(n: u32) -> (r: (u32, u32))
    requires
        n >= 1,
    ensures
        r.0 == shrink_group_size(256, n as int),
        r.0 == pow2(r.1 as nat),
        r.1 <= 8,
        1 <= r.0 <= 256,
        r.0 < 2 * n,
        n <= 256 ==> r.0 >= n,
{
    proof {
        lemma2_to64();
        lemma_shrink_group_size(256, n as int, 8);
    }
    let mut group_size: u32 = 256;
    let mut variant: u32 = 8;
    while group_size / 2 >= n
        invariant
            n >= 1,
            1 <= group_size <= 256,
            variant <= 8,
            group_size == pow2(variant as nat),
            shrink_group_size(group_size as int, n as int)
                == shrink_group_size(256, n as int),
        decreases group_size,
    {
        proof {
            if variant == 0 {
                assert(pow2(0) == 1) by { lemma2_to64(); }
            }
            lemma_pow2_unfold(variant as nat);
        }
        group_size = group_size / 2;
        variant = variant - 1;
    }
    proof {
        assert(shrink_group_size(group_size as int, n as int) == group_size);
    }
    (group_size, variant)
}

/// Plan a value reduction (sum, max, min, log-sum-exp) of axis `dim` of `x`
/// into `y`, the shape with that axis collapsed: one work-group per output
/// element.  The host framework guarantees the shape relation; the dispatcher
/// reads the axis length from `x` and everything else from `y`.
pub fn reduce_launch(x: &Shape, y: &Shape, dim: u32) -> (r: ReduceLaunch)
    requires
        x.wf(),
        y.wf(),
    ensures
        r.wf(),
        r.axis == x.spec_at(dim as int),
        r.groups == y.spec_size(),
        r.lower == y.spec_lower_volume(dim as int),
{
    let n = x.at(dim);
    let (group_size, variant) = select_group_size(n);
    ReduceLaunch {
        group_size,
        variant,
        groups: y.size(),
        lower: y.lower_volume(dim),
        axis: n,
    }
}

/// Plan an index reduction (arg-min, arg-max) of axis `dim` of `x`: as a
/// value reduction, but the instance count is derived from `x` itself since
/// the indices land in a host-side buffer rather than an output tensor.
pub fn arg_reduce_launch(x: &Shape, dim: u32) -> (r: ReduceLaunch)
    requires
        x.wf(),
    ensures
        r.wf(),
        r.axis == x.spec_at(dim as int),
        r.groups == x.spec_size() / x.spec_at(dim as int) as nat,
        r.lower == x.spec_lower_volume(dim as int),
{
    let n = x.at(dim);
    let (group_size, variant) = select_group_size(n);
    ReduceLaunch {
        group_size,
        variant,
        groups: x.size() / n,
        lower: x.lower_volume(dim),
        axis: n,
    }
}


/// Sum of the first `m` elements.
pub open spec fn sum_prefix(s: Seq<int>, m: int) -> int
    decreases m,
{
    if m <= 0 {
        0
    } else {
        sum_prefix(s, m - 1) + s[m - 1]
    }
}

/// What one lane accumulates: the elements at `l`, `l + k`, `l + 2k`, ...
pub open spec fn lane_sum(s: Seq<int>, l: int, k: int) -> int
    decreases s.len() + k - l
        when l >= 0 && k >= 1
{
    if l >= s.len() {
        0
    } else {
        s[l] + lane_sum(s, l + k, k)
    }
}

/// What the in-group tree reduction folds: the lane accumulators of lanes
/// `0, ..., m - 1`.
pub open spec fn lanes_total(s: Seq<int>, k: int, m: int) -> int
    decreases m,
{
    if m <= 0 {
        0
    } else {
        lanes_total(s, k, m - 1) + lane_sum(s, m - 1, k)
    }
}

proof fn lemma_sum_prefix_congruent(s: Seq<int>, t: Seq<int>, m: int)
    requires
        0 <= m <= s.len(),
        m <= t.len(),
        forall|i: int| 0 <= i < m ==> s[i] == t[i],
    ensures
        sum_prefix(s, m) == sum_prefix(t, m),
    decreases m,
{
    if m > 0 {
        lemma_sum_prefix_congruent(s, t, m - 1);
    }
}

/// Dropping the last element takes it out of exactly the lane that owned it.
proof fn lemma_lane_sum_drop_last(s: Seq<int>, l: int, k: int)
    requires
        s.len() >= 1,
        0 <= l,
        k >= 1,
    ensures
        lane_sum(s, l, k) == lane_sum(s.take(s.len() - 1), l, k)
            + if l <= s.len() - 1 && (s.len() - 1 - l) % k == 0 {
                s[s.len() - 1]
            } else {
                0
            },
    decreases s.len() + k - l,
{
    let n = s.len() as int;
    let t = s.take(n - 1);
    if l >= n {
    } else if l == n - 1 {
        assert(lane_sum(s, l, k) == s[l] + lane_sum(s, l + k, k));
        assert(lane_sum(s, l + k, k) == 0);
        assert(lane_sum(t, l, k) == 0);
        assert((n - 1 - l) % k == 0) by {
            assert(n - 1 - l == 0);
            vstd::arithmetic::div_mod::lemma_small_mod(0, k as nat);
        }
    } else {
        lemma_lane_sum_drop_last(s, l + k, k);
        assert(lane_sum(s, l, k) == s[l] + lane_sum(s, l + k, k));
        assert(lane_sum(t, l, k) == t[l] + lane_sum(t, l + k, k));
        assert(s[l] == t[l]);
        if l + k <= n - 1 {
            assert((n - 1 - (l + k)) % k == (n - 1 - l) % k) by {
                lemma_mod_sub_multiples_vanish(n - 1 - l, k);
            }
        } else {
            assert(0 < n - 1 - l < k);
            vstd::arithmetic::div_mod::lemma_small_mod((n - 1 - l) as nat, k as nat);
            assert((n - 1 - l) % k != 0);
        }
    }
}

/// Among the lanes `0, ..., m - 1`, exactly the one congruent to the last
/// index owns the dropped element.
proof fn lemma_lanes_total_drop_last(s: Seq<int>, k: int, m: int)
    requires
        s.len() >= 1,
        k >= 1,
        0 <= m <= k,
    ensures
        lanes_total(s, k, m) == lanes_total(s.take(s.len() - 1), k, m)
            + if (s.len() - 1) % k < m { s[s.len() - 1] } else { 0 },
    decreases m,
{
    let n = s.len() as int;
    lemma_fundamental_div_mod(n - 1, k);
    if m > 0 {
        lemma_lanes_total_drop_last(s, k, m - 1);
        lemma_lane_sum_drop_last(s, m - 1, k);
        let l = m - 1;
        if l <= n - 1 && (n - 1 - l) % k == 0 {
            assert(l == (n - 1) % k) by {
                lemma_fundamental_div_mod(n - 1 - l, k);
                assert(n - 1 - l == k * ((n - 1 - l) / k));
                lemma_fundamental_div_mod_converse(n - 1, k, (n - 1 - l) / k, l);
            }
        } else {
            assert(l != (n - 1) % k) by {
                if l == (n - 1) % k {
                    assert(0 <= (n - 1) % k <= n - 1) by {
                        assert(n - 1 == k * ((n - 1) / k) + (n - 1) % k);
                        assert(k * ((n - 1) / k) >= 0) by (nonlinear_arith)
                            requires
                                k >= 1,
                                (n - 1) / k >= 0,
                        ;
                        vstd::arithmetic::div_mod::lemma_div_pos_is_pos(n - 1, k);
                    }
                    assert((n - 1 - l) % k == 0) by {
                        assert(n - 1 - l == k * ((n - 1) / k));
                        lemma_mod_multiples_vanish((n - 1) / k, 0, k);
                        vstd::arithmetic::div_mod::lemma_small_mod(0, k as nat);
                    }
                }
            }
        }
    }
}

/// Reduction correctness for the dispatch model: however the group width `k`
/// partitions the data into grid-stride lanes, folding the lane accumulators
/// gives exactly the sum of the whole sequence.
pub proof fn lemma_grid_stride_sum(s: Seq<int>, k: int)
    requires
        k >= 1,
    ensures
        lanes_total(s, k, k) == sum_prefix(s, s.len() as int),
    decreases s.len(),
{
    let n = s.len() as int;
    if n == 0 {
        lemma_lanes_total_empty(s, k, k);
    } else {
        let t = s.take(n - 1);
        lemma_grid_stride_sum(t, k);
        lemma_lanes_total_drop_last(s, k, k);
        assert((n - 1) % k < k && (n - 1) % k >= 0);
        assert(sum_prefix(s, n) == sum_prefix(s, n - 1) + s[n - 1]);
        lemma_sum_prefix_congruent(s, t, n - 1);
    }
}

proof fn lemma_lanes_total_empty(s: Seq<int>, k: int, m: int)
    requires
        s.len() == 0,
        k >= 1,
        m >= 0,
    ensures
        lanes_total(s, k, m) == 0,
    decreases m,
{
    if m > 0 {
        lemma_lanes_total_empty(s, k, m - 1);
        assert(lane_sum(s, m - 1, k) == 0);
    }
}

/// The grid-stride pattern partitions the axis: element `i` of the axis is
/// visited by exactly one lane — lane `i % k` on its round `i / k` — so every
/// element enters the fold once, however far the axis length `n` exceeds the
/// group width `k`.
pub proof fn lemma_grid_stride_partition(n: int, k: int)
    requires
        k >= 1,
    ensures
        forall|i: int| 0 <= i < n
            ==> (#[trigger] (i % k)) + (i / k) * k == i && 0 <= i % k < k && 0 <= i / k,
        forall|l1: int, t1: int, l2: int, t2: int|
            0 <= l1 < k && 0 <= l2 < k && 0 <= t1 && 0 <= t2
                && #[trigger] (l1 + t1 * k) == #[trigger] (l2 + t2 * k)
                ==> l1 == l2 && t1 == t2,
{
    assert forall|i: int| 0 <= i < n
        implies (#[trigger] (i % k)) + (i / k) * k == i && 0 <= i % k < k && 0 <= i / k by {
        lemma_fundamental_div_mod(i, k);
        assert(k * (i / k) == (i / k) * k) by (nonlinear_arith);
        assert(i / k >= 0) by (nonlinear_arith)
            requires
                i >= 0,
                k >= 1,
                i == k * (i / k) + i % k,
                0 <= i % k < k;
    }
    assert forall|l1: int, t1: int, l2: int, t2: int|
        0 <= l1 < k && 0 <= l2 < k && 0 <= t1 && 0 <= t2
            && #[trigger] (l1 + t1 * k) == #[trigger] (l2 + t2 * k)
            implies l1 == l2 && t1 == t2 by {
        let i = l1 + t1 * k;
        assert(i == k * t1 + l1 && i == k * t2 + l2) by (nonlinear_arith)
            requires l1 + t1 * k == l2 + t2 * k, i == l1 + t1 * k;
        lemma_fundamental_div_mod_converse(i, k, t1, l1);
        lemma_fundamental_div_mod_converse(i, k, t2, l2);
    }
}


/// The comparison an index reduction folds with: smaller value wins, and on
/// equal values the smaller index — the first occurrence in memory order.
pub open spec fn lex_min(a: Option<(int, int)>, b: Option<(int, int)>) -> Option<(int, int)> {
    match (a, b) {
        (Option::None, _) => b,
        (_, Option::None) => a,
        (Option::Some(p), Option::Some(q)) => {
            if q.0 < p.0 || (q.0 == p.0 && q.1 < p.1) {
                b
            } else {
                a
            }
        },
    }
}

/// The value-index pair one lane tracks over its grid-stride elements.
pub open spec fn lane_min(s: Seq<int>, l: int, k: int) -> Option<(int, int)>
    decreases s.len() + k - l
        when l >= 0 && k >= 1
{
    if l >= s.len() {
        Option::None
    } else {
        lex_min(Option::Some((s[l], l)), lane_min(s, l + k, k))
    }
}

/// What the in-group tree folds: the tracked pairs of lanes `0, ..., m - 1`.
pub open spec fn lanes_min(s: Seq<int>, k: int, m: int) -> Option<(int, int)>
    decreases m,
{
    if m <= 0 {
        Option::None
    } else {
        lex_min(lanes_min(s, k, m - 1), lane_min(s, m - 1, k))
    }
}

/// The first-occurrence minimum of the first `m` elements.
pub open spec fn prefix_min(s: Seq<int>, m: int) -> Option<(int, int)>
    decreases m,
{
    if m <= 0 {
        Option::None
    } else {
        lex_min(prefix_min(s, m - 1), Option::Some((s[m - 1], m - 1)))
    }
}

proof fn lemma_lex_min_assoc(a: Option<(int, int)>, b: Option<(int, int)>, c: Option<(int, int)>)
    ensures
        lex_min(a, lex_min(b, c)) == lex_min(lex_min(a, b), c),
{
}

proof fn lemma_lex_min_exchange(a: Option<(int, int)>, b: Option<(int, int)>, c: Option<(int, int)>)
    ensures
        lex_min(lex_min(a, b), c) == lex_min(lex_min(a, c), b),
{
}

proof fn lemma_prefix_min_congruent(s: Seq<int>, t: Seq<int>, m: int)
    requires
        0 <= m <= s.len(),
        m <= t.len(),
        forall|i: int| 0 <= i < m ==> s[i] == t[i],
    ensures
        prefix_min(s, m) == prefix_min(t, m),
    decreases m,
{
    if m > 0 {
        lemma_prefix_min_congruent(s, t, m - 1);
    }
}

proof fn lemma_lane_min_drop_last(s: Seq<int>, l: int, k: int)
    requires
        s.len() >= 1,
        0 <= l,
        k >= 1,
    ensures
        lane_min(s, l, k) == if l <= s.len() - 1 && (s.len() - 1 - l) % k == 0 {
            lex_min(lane_min(s.take(s.len() - 1), l, k), Option::Some((s[s.len() - 1], s.len() - 1)))
        } else {
            lane_min(s.take(s.len() - 1), l, k)
        },
    decreases s.len() + k - l,
{
    let n = s.len() as int;
    let t = s.take(n - 1);
    if l >= n {
    } else if l == n - 1 {
        assert(lane_min(s, l + k, k) == Option::<(int, int)>::None);
        assert(lane_min(t, l, k) == Option::<(int, int)>::None);
        assert((n - 1 - l) % k == 0) by {
            vstd::arithmetic::div_mod::lemma_small_mod(0, k as nat);
        }
    } else {
        lemma_lane_min_drop_last(s, l + k, k);
        assert(s[l] == t[l]);
        if l + k <= n - 1 {
            assert((n - 1 - (l + k)) % k == (n - 1 - l) % k) by {
                lemma_mod_sub_multiples_vanish(n - 1 - l, k);
            }
            if (n - 1 - l) % k == 0 {
                lemma_lex_min_assoc(
                    Option::Some((s[l], l)),
                    lane_min(t, l + k, k),
                    Option::Some((s[n - 1], n - 1)),
                );
            }
        } else {
            assert(0 < n - 1 - l < k);
            vstd::arithmetic::div_mod::lemma_small_mod((n - 1 - l) as nat, k as nat);
            assert((n - 1 - l) % k != 0);
            assert(lane_min(s, l + k, k) == Option::<(int, int)>::None);
            assert(lane_min(t, l + k, k) == Option::<(int, int)>::None);
        }
    }
}

proof fn lemma_lanes_min_drop_last(s: Seq<int>, k: int, m: int)
    requires
        s.len() >= 1,
        k >= 1,
        0 <= m <= k,
    ensures
        lanes_min(s, k, m) == if (s.len() - 1) % k < m {
            lex_min(lanes_min(s.take(s.len() - 1), k, m), Option::Some((s[s.len() - 1], s.len() - 1)))
        } else {
            lanes_min(s.take(s.len() - 1), k, m)
        },
    decreases m,
{
    let n = s.len() as int;
    let t = s.take(n - 1);
    let last = Option::Some((s[n - 1], n - 1));
    lemma_fundamental_div_mod(n - 1, k);
    if m > 0 {
        lemma_lanes_min_drop_last(s, k, m - 1);
        lemma_lane_min_drop_last(s, m - 1, k);
        let l = m - 1;
        if l <= n - 1 && (n - 1 - l) % k == 0 {
            assert(l == (n - 1) % k) by {
                lemma_fundamental_div_mod(n - 1 - l, k);
                assert(n - 1 - l == k * ((n - 1 - l) / k));
                lemma_fundamental_div_mod_converse(n - 1, k, (n - 1 - l) / k, l);
            }
            lemma_lex_min_assoc(lanes_min(t, k, l), lane_min(t, l, k), last);
        } else {
            assert(l != (n - 1) % k) by {
                if l == (n - 1) % k {
                    assert(0 <= (n - 1) % k <= n - 1) by {
                        assert(n - 1 == k * ((n - 1) / k) + (n - 1) % k);
                        assert(k * ((n - 1) / k) >= 0) by (nonlinear_arith)
                            requires
                                k >= 1,
                                (n - 1) / k >= 0,
                        ;
                        vstd::arithmetic::div_mod::lemma_div_pos_is_pos(n - 1, k);
                    }
                    assert((n - 1 - l) % k == 0) by {
                        assert(n - 1 - l == k * ((n - 1) / k));
                        lemma_mod_multiples_vanish((n - 1) / k, 0, k);
                        vstd::arithmetic::div_mod::lemma_small_mod(0, k as nat);
                    }
                }
            }
            if (n - 1) % k < m - 1 {
                lemma_lex_min_exchange(lanes_min(t, k, l), last, lane_min(t, l, k));
            }
        }
    }
}

proof fn lemma_lanes_min_empty(s: Seq<int>, k: int, m: int)
    requires
        s.len() == 0,
        k >= 1,
        m >= 0,
    ensures
        lanes_min(s, k, m) == Option::<(int, int)>::None,
    decreases m,
{
    if m > 0 {
        lemma_lanes_min_empty(s, k, m - 1);
        assert(lane_min(s, m - 1, k) == Option::<(int, int)>::None);
    }
}

proof fn lemma_lanes_min_is_prefix_min(s: Seq<int>, k: int)
    requires
        k >= 1,
    ensures
        lanes_min(s, k, k) == prefix_min(s, s.len() as int),
    decreases s.len(),
{
    let n = s.len() as int;
    if n == 0 {
        lemma_lanes_min_empty(s, k, k);
    } else {
        let t = s.take(n - 1);
        lemma_lanes_min_is_prefix_min(t, k);
        lemma_lanes_min_drop_last(s, k, k);
        assert(0 <= (n - 1) % k < k);
        lemma_prefix_min_congruent(s, t, n - 1);
    }
}

proof fn lemma_prefix_min_first_occurrence(s: Seq<int>, m: int)
    requires
        1 <= m <= s.len(),
    ensures
        prefix_min(s, m) matches Option::Some(p) && {
            let (v, i) = p;
            &&& 0 <= i < m
            &&& s[i] == v
            &&& forall|j: int| 0 <= j < m ==> s[j] >= v
            &&& forall|j: int| 0 <= j < i ==> s[j] > v
        },
    decreases m,
{
    if m == 1 {
        assert(prefix_min(s, 0) == Option::<(int, int)>::None);
        assert(prefix_min(s, 1) == Option::Some((s[0], 0int)));
    } else {
        lemma_prefix_min_first_occurrence(s, m - 1);
        let prev = prefix_min(s, m - 1);
        match prev {
            Option::Some(p) => {
                let q = (s[m - 1], m - 1);
                if q.0 < p.0 || (q.0 == p.0 && q.1 < p.1) {
                    assert(prefix_min(s, m) == Option::Some(q));
                    assert forall|j: int| 0 <= j < m implies s[j] >= q.0 by {
                        if j < m - 1 {
                            assert(s[j] >= p.0);
                        }
                    }
                    assert forall|j: int| 0 <= j < m - 1 implies s[j] > q.0 by {
                        assert(s[j] >= p.0);
                    }
                } else {
                    assert(prefix_min(s, m) == Option::Some(p));
                    assert(s[m - 1] >= p.0);
                }
            },
            Option::None => {
                assert(false);
            },
        }
    }
}

/// Index-reduction correctness for the dispatch model: however the group
/// width `k` partitions the data into grid-stride lanes, folding the lanes'
/// tracked pairs under the first-occurrence rule yields the minimum value and
/// the first position holding it — also when the minimum occurs many times.
pub proof fn lemma_grid_stride_argmin(s: Seq<int>, k: int)
    requires
        k >= 1,
        s.len() >= 1,
    ensures
        lanes_min(s, k, k) matches Option::Some(p) && {
            let (v, i) = p;
            &&& 0 <= i < s.len()
            &&& s[i] == v
            &&& forall|j: int| 0 <= j < s.len() ==> s[j] >= v
            &&& forall|j: int| 0 <= j < i ==> s[j] > v
        },
{
    lemma_lanes_min_is_prefix_min(s, k);
    lemma_prefix_min_first_occurrence(s, s.len() as int);
}

} // verus!
