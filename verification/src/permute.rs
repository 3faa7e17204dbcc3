//! Axis-permutation launch planning.
//!
//! For a permutation vector where destination axis `i` draws its extent and
//! coordinate from source axis `perm[i]`, the kernel is handed two stride
//! arrays, most-significant axis first:
//! reading a flat input index against the first and flattening the resulting
//! coordinate against the second reproduces the permuted tensor.  The empty
//! permutation is the scalar no-op case: no strides are written and every
//! element maps to itself.

use vstd::prelude::*;
use crate::launch::ceil_div;
use crate::launch::num_blocks_u32;
use crate::shape::Shape;
use crate::shape::lemma_lower_volume_bounds;
use crate::shape::lemma_lower_volume_step;
use vstd::arithmetic::div_mod::lemma_div_pos_is_pos;
use vstd::arithmetic::div_mod::lemma_fundamental_div_mod_converse;
use vstd::arithmetic::div_mod::lemma_mod_breakdown;

verus! {

/// A permutation vector: every entry names a distinct axis below the rank.
pub open spec fn is_axis_permutation(perm: Seq<u32>) -> bool {
    &&& forall|i: int| 0 <= i < perm.len() ==> perm[i] < perm.len()
    &&& forall|i: int, j: int| 0 <= i < perm.len() && 0 <= j < perm.len() && i != j
        ==> perm[i] != perm[j]
}

/// The two stride arrays handed to the permutation kernels, stored
/// most-significant axis first: entry `ndims - 1 - i` of the first is the
/// input stride below axis `i`, and entry `ndims - 1 - perm[i]` of the second
/// is the output stride below output axis `perm[i]`.
pub fn permutation_strides(x: &Shape, y: &Shape, perm: &Vec<u32>) -> (r: (Vec<u32>, Vec<u32>))
    requires
        x.wf(),
        y.wf(),
        is_axis_permutation(perm@),
        perm@.len() <= u32::MAX,
    ensures
        r.0@.len() == perm@.len(),
        r.1@.len() == perm@.len(),
        forall|i: int| 0 <= i < perm@.len()
            ==> r.0@[perm@.len() - 1 - i] == x.spec_lower_volume(i),
        forall|i: int| 0 <= i < perm@.len()
            ==> r.1@[perm@.len() - 1 - perm@[i]] == y.spec_lower_volume(i),
{
    let ndims = perm.len();
    let mut x_strides: Vec<u32> = Vec::new();
    let mut y_strides: Vec<u32> = Vec::new();
    let mut k: usize = 0;
    while k < ndims
        invariant
            x_strides@.len() == k,
            y_strides@.len() == k,
            k <= ndims,
        decreases ndims - k,
    {
        x_strides.push(0);
        y_strides.push(0);
        k = k + 1;
    }
    let mut x_tmp: u32 = 1;
    let mut y_tmp: u32 = 1;
    let mut i: usize = 0;
    while i < ndims
        invariant
            x.wf(),
            y.wf(),
            is_axis_permutation(perm@),
            ndims == perm@.len(),
            ndims <= u32::MAX,
            x_strides@.len() == ndims,
            y_strides@.len() == ndims,
            0 <= i <= ndims,
            x_tmp == x.spec_lower_volume(i as int),
            y_tmp == y.spec_lower_volume(i as int),
            forall|j: int| 0 <= j < i
                ==> x_strides@[ndims - 1 - j] == x.spec_lower_volume(j),
            forall|j: int| 0 <= j < i
                ==> y_strides@[ndims - 1 - perm@[j]] == y.spec_lower_volume(j),
        decreases ndims - i,
    {
        proof {
            lemma_lower_volume_bounds(x, i as int);
            lemma_lower_volume_bounds(x, i as int + 1);
            lemma_lower_volume_step(x, i as int);
            lemma_lower_volume_bounds(y, i as int);
            lemma_lower_volume_bounds(y, i as int + 1);
            lemma_lower_volume_step(y, i as int);
        }
        x_strides.set(ndims - 1 - i, x_tmp);
        let p = perm[i] as usize;
        y_strides.set(ndims - 1 - p, y_tmp);
        let xd = x.at(i as u32);
        let yd = y.at(i as u32);
        assert(x_tmp as nat * xd as nat == x.spec_lower_volume(i as int + 1)
            && x.spec_lower_volume(i as int + 1) <= u32::MAX);
        assert(y_tmp as nat * yd as nat == y.spec_lower_volume(i as int + 1)
            && y.spec_lower_volume(i as int + 1) <= u32::MAX);
        x_tmp = x_tmp * xd;
        y_tmp = y_tmp * yd;
        i = i + 1;
        proof {
            assert forall|j: int| 0 <= j < i
                implies y_strides@[ndims - 1 - perm@[j]] == y.spec_lower_volume(j) by {
                if j < i - 1 {
                    assert(perm@[j] != perm@[i - 1]);
                }
            }
        }
    }
    (x_strides, y_strides)
}

/// A two-dimensional permutation launch: the first grid axis covers one
/// batch's elements of the source, the second grid axis is the batch.
pub struct PermuteLaunch {
    /// Per-batch element count of the tensor whose shape drives the launch.
    pub volume: u32,
    /// Work-group count along the first grid axis.
    pub blocks: u32,
    /// Work-group width the kernel was compiled for.
    pub local: u32,
    /// Extent of the second grid axis: the batch count.
    pub batches: u32,
    /// Rank of the permutation, handed to the kernel.
    pub ndims: u32,
    /// Read strides, most-significant axis first.
    pub x_strides: Vec<u32>,
    /// Write strides, most-significant axis first.
    pub y_strides: Vec<u32>,
}

/// Plan an axis permutation moving data from shape `x` to shape `y` under
/// `perm` (forward: input to output; backward: gradient source read through
/// the same strides into the gradient of the input).  With the empty
/// permutation no strides are written and the kernel copies elements through.
pub fn permute_launch(x: &Shape, y: &Shape, perm: &Vec<u32>, local: u32) -> (r: PermuteLaunch)
    requires
        x.wf(),
        y.wf(),
        is_axis_permutation(perm@),
        perm@.len() <= u32::MAX,
        local >= 1,
    ensures
        r.volume == x.spec_volume(),
        r.blocks == ceil_div(x.spec_volume() as int, local as int),
        r.local == local,
        r.batches == x.batch,
        r.ndims == perm@.len(),
        r.x_strides@.len() == perm@.len(),
        r.y_strides@.len() == perm@.len(),
        forall|i: int| 0 <= i < perm@.len()
            ==> r.x_strides@[perm@.len() - 1 - i] == x.spec_lower_volume(i),
        forall|i: int| 0 <= i < perm@.len()
            ==> r.y_strides@[perm@.len() - 1 - perm@[i]] == y.spec_lower_volume(i),
{
    proof {
        lemma_lower_volume_bounds(x, 0);
    }
    let volume = x.volume();
    let blocks = num_blocks_u32(volume, local);
    let (x_strides, y_strides) = permutation_strides(x, y, perm);
    PermuteLaunch {
        volume,
        blocks,
        local,
        batches: x.batch,
        ndims: perm.len() as u32,
        x_strides,
        y_strides,
    }
}

/// Coordinate of the per-batch flat index `j` on axis `i`.
pub open spec fn axis_coord(s: Shape, j: int, i: int) -> int {
    (j / s.spec_lower_volume(i) as int) % s.spec_at(i) as int
}

/// Flatten the digits `e(0), ..., e(k-1)` against the strides of `s`: the sum
/// of each digit times the stride below its axis.
pub open spec fn flatten_digits(s: Shape, e: spec_fn(int) -> int, k: int) -> int
    decreases k,
{
    if k <= 0 {
        0
    } else {
        flatten_digits(s, e, k - 1) + e(k - 1) * s.spec_lower_volume(k - 1) as int
    }
}

/// The digits at and above axis `k`, read as one number in Horner form.
spec fn digits_above(s: Shape, e: spec_fn(int) -> int, k: int, n: int) -> int
    decreases n - k,
{
    if k >= n {
        0
    } else {
        e(k) + s.spec_at(k) as int * digits_above(s, e, k + 1, n)
    }
}

/// Every digit is a coordinate of its axis.
pub open spec fn digits_ok(s: Shape, e: spec_fn(int) -> int, n: int) -> bool {
    forall|t: int| 0 <= t < n ==> 0 <= #[trigger] e(t) < s.spec_at(t) as int
}

/// What the two stride arrays make the kernel compute: the flat index in the
/// destination `y` of the source element `j`, when source axis `q[t]` feeds
/// destination axis `t`.  The sum is indexed by destination axis; it is the
/// same sum the kernel forms axis by axis, since `permutation_strides` pins
/// each stride-array entry to exactly the lower volumes used here.
pub open spec fn permuted_flat_index(x: Shape, y: Shape, q: Seq<u32>, j: int) -> int {
    flatten_digits(y, |t: int| axis_coord(x, j, q[t] as int), q.len() as int)
}


/// The empty permutation is a no-op: a rank-0 tensor holds one element per
/// batch, and the kernel maps it to itself.
pub proof fn lemma_empty_permutation_is_noop(x: Shape, y: Shape, j: int)
    requires
        x.wf(),
        x.dims@.len() == 0,
        0 <= j < x.spec_volume(),
    ensures
        permuted_flat_index(x, y, Seq::empty(), j) == j,
{
    assert(x.spec_volume() == 1);
    assert(flatten_digits(y, |t: int| axis_coord(x, j, Seq::<u32>::empty()[t] as int), 0) == 0);
}

proof fn lemma_digits_above_nonneg(s: Shape, e: spec_fn(int) -> int, k: int, n: int)
    requires
        s.wf(),
        digits_ok(s, e, n),
        0 <= k,
    ensures
        digits_above(s, e, k, n) >= 0,
    decreases n - k,
{
    if k < n {
        lemma_digits_above_nonneg(s, e, k + 1, n);
        assert(e(k) >= 0);
        assert(s.spec_at(k) as int * digits_above(s, e, k + 1, n) >= 0) by (nonlinear_arith)
            requires
                s.spec_at(k) >= 0,
                digits_above(s, e, k + 1, n) >= 0;
    }
}

proof fn lemma_flatten_split(s: Shape, e: spec_fn(int) -> int, k: int, n: int)
    requires
        s.wf(),
        0 <= k <= n,
    ensures
        flatten_digits(s, e, n)
            == flatten_digits(s, e, k)
                + s.spec_lower_volume(k) as int * digits_above(s, e, k, n),
    decreases n - k,
{
    if k == n {
        assert(s.spec_lower_volume(k) as int * 0 == 0) by (nonlinear_arith);
    } else {
        lemma_flatten_split(s, e, k + 1, n);
        lemma_lower_volume_step(&s, k);
        let lv = s.spec_lower_volume(k) as int;
        let at = s.spec_at(k) as int;
        let va = digits_above(s, e, k + 1, n);
        assert(digits_above(s, e, k, n) == e(k) + at * va);
        assert(flatten_digits(s, e, k + 1) == flatten_digits(s, e, k) + e(k) * lv);
        assert(flatten_digits(s, e, k) + e(k) * lv + (lv * at) * va
            == flatten_digits(s, e, k) + lv * (e(k) + at * va)) by (nonlinear_arith);
    }
}

proof fn lemma_flatten_bound(s: Shape, e: spec_fn(int) -> int, k: int, n: int)
    requires
        s.wf(),
        digits_ok(s, e, n),
        0 <= k <= n,
    ensures
        0 <= flatten_digits(s, e, k),
        flatten_digits(s, e, k) < s.spec_lower_volume(k),
    decreases k,
{
    crate::shape::lemma_lower_volume_bounds(&s, k);
    if k > 0 {
        lemma_flatten_bound(s, e, k - 1, n);
        lemma_lower_volume_step(&s, k - 1);
        let lv = s.spec_lower_volume(k - 1) as int;
        let at = s.spec_at(k - 1) as int;
        assert(flatten_digits(s, e, k) == flatten_digits(s, e, k - 1) + e(k - 1) * lv);
        assert(flatten_digits(s, e, k - 1) + e(k - 1) * lv <= lv - 1 + (at - 1) * lv
            && 0 <= flatten_digits(s, e, k - 1) + e(k - 1) * lv
            && lv - 1 + (at - 1) * lv == lv * at - 1) by (nonlinear_arith)
            requires
                0 <= flatten_digits(s, e, k - 1) < lv,
                0 <= e(k - 1) <= at - 1,
                lv >= 1,
                at >= 1;
    }
}

/// Flattening digits and reading a coordinate back are inverse: axis `t` of
/// the flattened number is the digit that was put there.
proof fn lemma_digit_extract(s: Shape, e: spec_fn(int) -> int, n: int, t: int)
    requires
        s.wf(),
        digits_ok(s, e, n),
        0 <= t < n,
    ensures
        axis_coord(s, flatten_digits(s, e, n), t) == e(t),
{
    lemma_flatten_split(s, e, t, n);
    lemma_flatten_bound(s, e, t, n);
    lemma_digits_above_nonneg(s, e, t + 1, n);
    crate::shape::lemma_lower_volume_bounds(&s, t);
    let f = flatten_digits(s, e, n);
    let lv = s.spec_lower_volume(t) as int;
    let at = s.spec_at(t) as int;
    let va = digits_above(s, e, t, n);
    let vb = digits_above(s, e, t + 1, n);
    assert(va == e(t) + at * vb);
    assert(va >= 0);
    assert(f == va * lv + flatten_digits(s, e, t)) by (nonlinear_arith)
        requires f == flatten_digits(s, e, t) + lv * va;
    lemma_fundamental_div_mod_converse(f, lv, va, flatten_digits(s, e, t));
    assert(va == vb * at + e(t)) by (nonlinear_arith)
        requires va == e(t) + at * vb;
    assert(vb >= 0);
    lemma_fundamental_div_mod_converse(va, at, vb, e(t));
}

/// Reading every coordinate of `j` and flattening them back against the same
/// shape gives `j` itself.
proof fn lemma_decode_encode(s: Shape, j: int, k: int)
    requires
        s.wf(),
        0 <= j,
        0 <= k,
    ensures
        flatten_digits(s, |i: int| axis_coord(s, j, i), k)
            == j % s.spec_lower_volume(k) as int,
    decreases k,
{
    let e = |i: int| axis_coord(s, j, i);
    crate::shape::lemma_lower_volume_bounds(&s, k);
    if k == 0 {
        assert(s.spec_lower_volume(0) == 1 || s.dims@.len() == 0);
        assert(s.spec_lower_volume(0) == 1);
        assert(j % 1int == 0) by (nonlinear_arith);
    } else {
        lemma_decode_encode(s, j, k - 1);
        lemma_lower_volume_step(&s, k - 1);
        crate::shape::lemma_lower_volume_bounds(&s, k - 1);
        let lv = s.spec_lower_volume(k - 1) as int;
        let at = s.spec_at(k - 1) as int;
        lemma_mod_breakdown(j, lv, at);
        assert(flatten_digits(s, e, k) == flatten_digits(s, e, k - 1) + e(k - 1) * lv);
        assert(e(k - 1) == (j / lv) % at);
        assert(lv * ((j / lv) % at) == ((j / lv) % at) * lv) by (nonlinear_arith);
    }
}

proof fn lemma_flatten_congruence(s: Shape, e1: spec_fn(int) -> int, e2: spec_fn(int) -> int, k: int)
    requires
        forall|t: int| 0 <= t < k ==> #[trigger] e1(t) == e2(t),
    ensures
        flatten_digits(s, e1, k) == flatten_digits(s, e2, k),
    decreases k,
{
    if k > 0 {
        lemma_flatten_congruence(s, e1, e2, k - 1);
    }
}

/// Permutation round trip: moving a tensor's elements by a permutation and
/// then by its inverse puts every element back.  For any in-range source
/// index, the forward map lands in range, and the backward map of the
/// forward map is the identity.  The empty permutation case is the no-op:
/// with no axes, index 0 maps to 0.
pub proof fn lemma_permutation_round_trip(
    x: Shape,
    y: Shape,
    perm: Seq<u32>,
    inv: Seq<u32>,
    j: int,
)
    requires
        x.wf(),
        y.wf(),
        is_axis_permutation(perm),
        is_axis_permutation(inv),
        perm.len() == x.dims@.len(),
        perm.len() == y.dims@.len(),
        inv.len() == perm.len(),
        forall|i: int| 0 <= i < perm.len() ==> inv[perm[i] as int] == i,
        forall|t: int| 0 <= t < perm.len() ==> perm[inv[t] as int] == t,
        forall|i: int| 0 <= i < perm.len()
            ==> y.spec_at(perm[i] as int) == x.spec_at(i),
        0 <= j < x.spec_volume(),
    ensures
        0 <= permuted_flat_index(x, y, inv, j) < y.spec_volume(),
        permuted_flat_index(y, x, perm, permuted_flat_index(x, y, inv, j)) == j,
{
    let n = perm.len() as int;
    let e = |t: int| axis_coord(x, j, inv[t] as int);
    assert(digits_ok(y, e, n)) by {
        assert forall|t: int| 0 <= t < n implies 0 <= #[trigger] e(t) < y.spec_at(t) as int by {
            let i = inv[t] as int;
            crate::shape::lemma_lower_volume_bounds(&x, i);
            lemma_div_pos_is_pos(j, x.spec_lower_volume(i) as int);
            assert(y.spec_at(perm[i] as int) == x.spec_at(i));
            assert(perm[inv[t] as int] == t);
            let c = (j / x.spec_lower_volume(i) as int) % x.spec_at(i) as int;
            assert(0 <= c && c < x.spec_at(i) as int) by (nonlinear_arith)
                requires
                    c == (j / x.spec_lower_volume(i) as int) % x.spec_at(i) as int,
                    x.spec_at(i) >= 1,
                    j / x.spec_lower_volume(i) as int >= 0;
        }
    }
    let pj = permuted_flat_index(x, y, inv, j);
    assert(pj == flatten_digits(y, e, n));
    lemma_flatten_bound(y, e, n, n);
    assert(y.spec_lower_volume(n) == y.spec_volume());
    assert(0 <= pj < y.spec_volume());
    let e2 = |s2: int| axis_coord(y, pj, perm[s2] as int);
    let e3 = |i: int| axis_coord(x, j, i);
    assert forall|s2: int| 0 <= s2 < n implies #[trigger] e2(s2) == e3(s2) by {
        let t = perm[s2] as int;
        lemma_digit_extract(y, e, n, t);
        assert(axis_coord(y, pj, t) == e(t));
        assert(inv[perm[s2] as int] == s2);
    }
    lemma_flatten_congruence(x, e2, e3, n);
    lemma_decode_encode(x, j, n);
    assert(x.spec_lower_volume(n) == x.spec_volume());
    vstd::arithmetic::div_mod::lemma_small_mod(j as nat, x.spec_volume());
    assert(permuted_flat_index(y, x, perm, pj) == flatten_digits(x, e2, n));
}

} // verus!
