//! Batched matrix-multiply dispatch: forward `Y = A·B` and the two backward
//! accumulations `dA += dY·Bᵗ` and `dB += Aᵗ·dY`, mapped onto an external
//! column-major GEMM primitive.
//!
//! The decision tree: with no batch on the left operand the batch is folded
//! into the column dimension of a single wide call; with a batched left
//! operand one batched call carries per-batch buffer offsets; and for `dB`
//! with a batched `A` but shared `B` — where every batch item must land in
//! the same buffer — a sequential loop of accumulating single calls relies on
//! the queue's in-order execution.

use vstd::prelude::*;
use crate::shape::Shape;
use crate::shape::prod_prefix;
use vstd::arithmetic::div_mod::lemma_fundamental_div_mod;

verus! {

/// One call to the single-GEMM entry point, column-major.  `accumulate`
/// distinguishes overwrite (scale 0 on the output) from gradient accumulation
/// (scale 1); the multiplier on the product itself is always 1.
pub struct GemmCall {
    /// Transpose flag for the left factor.
    pub a_transpose: bool,
    /// Transpose flag for the right factor.
    pub b_transpose: bool,
    /// Rows of the (possibly transposed) left factor and of the output.
    pub m: u32,
    /// Columns of the (possibly transposed) right factor and of the output.
    pub n: u32,
    /// Inner dimension.
    pub k: u32,
    /// Element offset of the left factor in its buffer.
    pub a_offset: u32,
    /// Element offset of the right factor in its buffer.
    pub b_offset: u32,
    /// Element offset of the output in its buffer.
    pub c_offset: u32,
    /// Leading dimension of the left factor's layout.
    pub a_ld: u32,
    /// Leading dimension of the right factor's layout.
    pub b_ld: u32,
    /// Leading dimension of the output's layout.
    pub c_ld: u32,
    /// True for backward passes: the call adds into the output buffer.
    pub accumulate: bool,
}

/// One call to the batched-GEMM entry point: the shared dimensions of
/// `GemmCall` plus one buffer offset per batch item for each operand.
pub struct BatchedGemmCall {
    pub a_transpose: bool,
    pub b_transpose: bool,
    pub m: u32,
    pub n: u32,
    pub k: u32,
    /// Per-batch element offsets of the left factor.
    pub a_offsets: Vec<u32>,
    /// Per-batch element offsets of the right factor.
    pub b_offsets: Vec<u32>,
    /// Per-batch element offsets of the output.
    pub c_offsets: Vec<u32>,
    pub a_ld: u32,
    pub b_ld: u32,
    pub c_ld: u32,
    pub accumulate: bool,
}

/// How a matrix-multiply pass reaches the GEMM primitive.
pub enum GemmDispatch {
    /// One wide call, the batch folded into the column dimension.
    Single(GemmCall),
    /// One batched call with per-batch buffer offsets.
    Batched(BatchedGemmCall),
    /// A loop of accumulating single calls, serialized by the in-order queue.
    Sequence(Vec<GemmCall>),
}

/// A shape with at most two axes is a matrix of `at(0) × at(1)` elements per
/// batch.
proof fn lemma_matrix_volume(s: &Shape)
    requires
        s.dims@.len() <= 2,
    ensures
        s.spec_volume() == s.spec_at(0) as nat * s.spec_at(1) as nat,
{
    assert(prod_prefix(s.dims@, 0) == 1);
    if s.dims@.len() == 0 {
        assert(s.spec_volume() == 1);
    } else if s.dims@.len() == 1 {
        assert(prod_prefix(s.dims@, 1) == prod_prefix(s.dims@, 0) * s.dims@[0] as nat);
    } else {
        assert(prod_prefix(s.dims@, 1) == prod_prefix(s.dims@, 0) * s.dims@[0] as nat);
        assert(prod_prefix(s.dims@, 2) == prod_prefix(s.dims@, 1) * s.dims@[1] as nat);
    }
}

/// The shape preconditions every matrix-multiply pass dispatches under; the
/// host framework validates them and the dispatcher does not re-check.
pub open spec fn gemm_shapes_ok(a: &Shape, b: &Shape) -> bool {
    &&& a.wf()
    &&& b.wf()
    &&& a.dims@.len() <= 2
    &&& b.dims@.len() <= 2
    &&& b.spec_at(0) == a.spec_at(1)
    &&& (a.batch == b.batch || a.batch == 1 || b.batch == 1)
    &&& a.spec_at(0) as nat * b.spec_at(1) as nat
        * (if a.batch >= b.batch { a.batch } else { b.batch }) as nat <= u32::MAX
}

proof fn lemma_gemm_bounds(a: &Shape, b: &Shape)
    requires
        gemm_shapes_ok(a, b),
    ensures
        a.spec_at(0) as nat * a.spec_at(1) as nat <= u32::MAX,
        a.spec_at(1) as nat * b.spec_at(1) as nat <= u32::MAX,
        b.spec_at(1) as nat * b.batch as nat <= u32::MAX,
        a.spec_at(0) as nat * b.spec_at(1) as nat <= u32::MAX,
        forall|i: int| 0 <= i < a.batch
            ==> #[trigger] (i * (a.spec_at(0) as nat * a.spec_at(1) as nat) as int)
                <= u32::MAX,
        b.spec_has_batch() ==> forall|i: int| 0 <= i < a.batch
            ==> #[trigger] (i * (a.spec_at(1) as nat * b.spec_at(1) as nat) as int)
                <= u32::MAX,
        forall|i: int| 0 <= i < a.batch
            ==> #[trigger] (i * (a.spec_at(0) as nat * b.spec_at(1) as nat) as int)
                <= u32::MAX,
{
    let di = a.spec_at(0) as int;
    let dj = a.spec_at(1) as int;
    let dk = b.spec_at(1) as int;
    lemma_matrix_volume(a);
    lemma_matrix_volume(b);
    assert(a.spec_size() == di * dj * a.batch as int
        && b.spec_size() == dj * dk * b.batch as int) by (nonlinear_arith)
        requires
            a.spec_volume() == di * dj,
            b.spec_volume() == dj * dk,
            a.spec_size() == a.spec_volume() * a.batch as nat,
            b.spec_size() == b.spec_volume() * b.batch as nat;
    assert(di * dj <= di * dj * a.batch as int && dj * dk <= dj * dk * b.batch as int
        && dk * b.batch as int <= dj * dk * b.batch as int
        && di >= 1 && dj >= 1 && dk >= 1 && dj * dk * b.batch as int >= 0)
        by (nonlinear_arith)
        requires
            a.batch >= 1,
            b.batch >= 1,
            di >= 1,
            dj >= 1,
            dk >= 1;
    assert(di * dk <= u32::MAX) by (nonlinear_arith)
        requires
            di * dk * (if a.batch >= b.batch { a.batch } else { b.batch }) as int <= u32::MAX,
            (if a.batch >= b.batch { a.batch } else { b.batch }) >= 1,
            di >= 1,
            dk >= 1;
    assert forall|i: int| 0 <= i < a.batch
        implies #[trigger] (i * (a.spec_at(0) as nat * a.spec_at(1) as nat) as int)
            <= u32::MAX by {
        assert(i * (di * dj) <= di * dj * a.batch as int) by (nonlinear_arith)
            requires 0 <= i < a.batch, di * dj >= 0;
    }
    if b.spec_has_batch() {
        assert forall|i: int| 0 <= i < a.batch
            implies #[trigger] (i * (a.spec_at(1) as nat * b.spec_at(1) as nat) as int)
                <= u32::MAX by {
            assert(a.batch == b.batch || a.batch == 1);
            assert(i * (dj * dk) <= dj * dk * b.batch as int) by (nonlinear_arith)
                requires
                    0 <= i < b.batch,
                    dj >= 1,
                    dk >= 1;
        }
    }
    assert forall|i: int| 0 <= i < a.batch
        implies #[trigger] (i * (a.spec_at(0) as nat * b.spec_at(1) as nat) as int)
            <= u32::MAX by {
        assert(i * (di * dk)
            <= di * dk * (if a.batch >= b.batch { a.batch } else { b.batch }) as int)
            by (nonlinear_arith)
            requires
                0 <= i < a.batch,
                di * dk >= 0,
                a.batch <= (if a.batch >= b.batch { a.batch } else { b.batch });
    }
}

/// `count` evenly spaced buffer offsets: item `i` sits `i * skip` elements in.
fn batch_offsets(count: u32, skip: u32) -> (r: Vec<u32>)
    requires
        forall|i: int| 0 <= i < count ==> #[trigger] (i * skip as int) <= u32::MAX,
    ensures
        r@.len() == count,
        forall|i: int| 0 <= i < count ==> r@[i] == i * skip as int,
{
    let mut r: Vec<u32> = Vec::new();
    let mut i: u32 = 0;
    while i < count
        invariant
            0 <= i <= count,
            r@.len() == i,
            forall|j: int| 0 <= j < i ==> r@[j] == j * skip as int,
            forall|j: int| 0 <= j < count ==> #[trigger] (j * skip as int) <= u32::MAX,
        decreases count - i,
    {
        assert(i * skip as int >= 0) by (nonlinear_arith)
            requires i >= 0, skip >= 0;
        r.push(i * skip);
        i = i + 1;
    }
    r
}

/// Plan the forward pass `Y = A·B`.  An unbatched `A` (even against a batched
/// `B`) becomes one wide call with the batch folded into the columns; a
/// batched `A` becomes one batched call, `B`'s per-batch stride dropping to 0
/// when `B` is shared across the batch.
pub fn matmul_fw_plan(a: &Shape, b: &Shape) -> (r: GemmDispatch)
    requires
        gemm_shapes_ok(a, b),
    ensures
        a.spec_has_batch() ==> (r matches GemmDispatch::Batched(g)
            && !g.a_transpose && !g.b_transpose
            && g.m == a.spec_at(0) && g.n == b.spec_at(1) && g.k == a.spec_at(1)
            && g.a_ld == a.spec_at(0) && g.b_ld == a.spec_at(1) && g.c_ld == a.spec_at(0)
            && !g.accumulate
            && g.a_offsets@.len() == a.batch
            && g.b_offsets@.len() == a.batch
            && g.c_offsets@.len() == a.batch
            && (forall|i: int| 0 <= i < a.batch ==> g.a_offsets@[i]
                == i * (a.spec_at(0) as int * a.spec_at(1) as int))
            && (forall|i: int| 0 <= i < a.batch ==> g.b_offsets@[i]
                == if b.spec_has_batch() {
                    i * (a.spec_at(1) as int * b.spec_at(1) as int)
                } else {
                    0int
                })
            && (forall|i: int| 0 <= i < a.batch ==> g.c_offsets@[i]
                == i * (a.spec_at(0) as int * b.spec_at(1) as int))),
        !a.spec_has_batch() ==> (r matches GemmDispatch::Single(c)
            && !c.a_transpose && !c.b_transpose
            && c.m == a.spec_at(0)
            && c.n == b.spec_at(1) as int * b.batch as int
            && c.k == a.spec_at(1)
            && c.a_offset == 0 && c.b_offset == 0 && c.c_offset == 0
            && c.a_ld == a.spec_at(0) && c.b_ld == a.spec_at(1) && c.c_ld == a.spec_at(0)
            && !c.accumulate),
{
    proof {
        lemma_gemm_bounds(a, b);
    }
    let di = a.at(0);
    let dj = a.at(1);
    let dk = b.at(1);
    if a.has_batch() {
        let bs = a.batch();
        let b_skip: u32 = if b.has_batch() { dj * dk } else { 0 };
        GemmDispatch::Batched(BatchedGemmCall {
            a_transpose: false,
            b_transpose: false,
            m: di,
            n: dk,
            k: dj,
            a_offsets: batch_offsets(bs, di * dj),
            b_offsets: batch_offsets(bs, b_skip),
            c_offsets: batch_offsets(bs, di * dk),
            a_ld: di,
            b_ld: dj,
            c_ld: di,
            accumulate: false,
        })
    } else {
        GemmDispatch::Single(GemmCall {
            a_transpose: false,
            b_transpose: false,
            m: di,
            n: dk * b.batch(),
            k: dj,
            a_offset: 0,
            b_offset: 0,
            c_offset: 0,
            a_ld: di,
            b_ld: dj,
            c_ld: di,
            accumulate: false,
        })
    }
}

/// Plan the backward pass `dA += dY·Bᵗ`: the forward decision tree with the
/// gradient as left factor, `B` transposed, and accumulation switched on.
pub fn matmul_bw_a_plan(a: &Shape, b: &Shape) -> (r: GemmDispatch)
    requires
        gemm_shapes_ok(a, b),
    ensures
        a.spec_has_batch() ==> (r matches GemmDispatch::Batched(g)
            && !g.a_transpose && g.b_transpose
            && g.m == a.spec_at(0) && g.n == a.spec_at(1) && g.k == b.spec_at(1)
            && g.a_ld == a.spec_at(0) && g.b_ld == a.spec_at(1) && g.c_ld == a.spec_at(0)
            && g.accumulate
            && g.a_offsets@.len() == a.batch
            && g.b_offsets@.len() == a.batch
            && g.c_offsets@.len() == a.batch
            && (forall|i: int| 0 <= i < a.batch ==> g.a_offsets@[i]
                == i * (a.spec_at(0) as int * b.spec_at(1) as int))
            && (forall|i: int| 0 <= i < a.batch ==> g.b_offsets@[i]
                == if b.spec_has_batch() {
                    i * (a.spec_at(1) as int * b.spec_at(1) as int)
                } else {
                    0int
                })
            && (forall|i: int| 0 <= i < a.batch ==> g.c_offsets@[i]
                == i * (a.spec_at(0) as int * a.spec_at(1) as int))),
        !a.spec_has_batch() ==> (r matches GemmDispatch::Single(c)
            && !c.a_transpose && c.b_transpose
            && c.m == a.spec_at(0)
            && c.n == a.spec_at(1)
            && c.k == b.spec_at(1) as int * b.batch as int
            && c.a_offset == 0 && c.b_offset == 0 && c.c_offset == 0
            && c.a_ld == a.spec_at(0) && c.b_ld == a.spec_at(1) && c.c_ld == a.spec_at(0)
            && c.accumulate),
{
    proof {
        lemma_gemm_bounds(a, b);
    }
    let di = a.at(0);
    let dj = a.at(1);
    let dk = b.at(1);
    if a.has_batch() {
        let bs = a.batch();
        let b_skip: u32 = if b.has_batch() { dj * dk } else { 0 };
        GemmDispatch::Batched(BatchedGemmCall {
            a_transpose: false,
            b_transpose: true,
            m: di,
            n: dj,
            k: dk,
            a_offsets: batch_offsets(bs, di * dk),
            b_offsets: batch_offsets(bs, b_skip),
            c_offsets: batch_offsets(bs, di * dj),
            a_ld: di,
            b_ld: dj,
            c_ld: di,
            accumulate: true,
        })
    } else {
        GemmDispatch::Single(GemmCall {
            a_transpose: false,
            b_transpose: true,
            m: di,
            n: dj,
            k: dk * b.batch(),
            a_offset: 0,
            b_offset: 0,
            c_offset: 0,
            a_ld: di,
            b_ld: dj,
            c_ld: di,
            accumulate: true,
        })
    }
}

/// Plan the backward pass `dB += Aᵗ·dY`.  When `A` is batched but `B` shared,
/// every batch item must accumulate into the same `dB` buffer — offsets into
/// it all 0 — which the batched entry point cannot express, so the plan falls
/// back to a loop of accumulating single calls ordered by the queue.
pub fn matmul_bw_b_plan(a: &Shape, b: &Shape) -> (r: GemmDispatch)
    requires
        gemm_shapes_ok(a, b),
    ensures
        a.spec_has_batch() && b.spec_has_batch() ==> (r matches GemmDispatch::Batched(g)
            && g.a_transpose && !g.b_transpose
            && g.m == a.spec_at(1) && g.n == b.spec_at(1) && g.k == a.spec_at(0)
            && g.a_ld == a.spec_at(0) && g.b_ld == a.spec_at(0) && g.c_ld == a.spec_at(1)
            && g.accumulate
            && g.a_offsets@.len() == a.batch
            && g.b_offsets@.len() == a.batch
            && g.c_offsets@.len() == a.batch
            && (forall|i: int| 0 <= i < a.batch ==> g.a_offsets@[i]
                == i * (a.spec_at(0) as int * a.spec_at(1) as int))
            && (forall|i: int| 0 <= i < a.batch ==> g.b_offsets@[i]
                == i * (a.spec_at(0) as int * b.spec_at(1) as int))
            && (forall|i: int| 0 <= i < a.batch ==> g.c_offsets@[i]
                == i * (a.spec_at(1) as int * b.spec_at(1) as int))),
        a.spec_has_batch() && !b.spec_has_batch() ==> (r matches GemmDispatch::Sequence(cs)
            && cs@.len() == a.batch
            && (forall|i: int| 0 <= i < a.batch ==> {
                let c = #[trigger] cs@[i];
                &&& c.a_transpose
                &&& !c.b_transpose
                &&& c.m == a.spec_at(1)
                &&& c.n == b.spec_at(1)
                &&& c.k == a.spec_at(0)
                &&& c.a_offset == i * (a.spec_at(0) as int * a.spec_at(1) as int)
                &&& c.b_offset == i * (a.spec_at(0) as int * b.spec_at(1) as int)
                &&& c.c_offset == 0
                &&& c.a_ld == a.spec_at(0)
                &&& c.b_ld == a.spec_at(0)
                &&& c.c_ld == a.spec_at(1)
                &&& c.accumulate
            })),
        !a.spec_has_batch() ==> (r matches GemmDispatch::Single(c)
            && c.a_transpose && !c.b_transpose
            && c.m == a.spec_at(1)
            && c.n == b.spec_at(1) as int * b.batch as int
            && c.k == a.spec_at(0)
            && c.a_offset == 0 && c.b_offset == 0 && c.c_offset == 0
            && c.a_ld == a.spec_at(0) && c.b_ld == a.spec_at(0) && c.c_ld == a.spec_at(1)
            && c.accumulate),
{
    proof {
        lemma_gemm_bounds(a, b);
    }
    let di = a.at(0);
    let dj = a.at(1);
    let dk = b.at(1);
    if a.has_batch() {
        let bs = a.batch();
        if b.has_batch() {
            GemmDispatch::Batched(BatchedGemmCall {
                a_transpose: true,
                b_transpose: false,
                m: dj,
                n: dk,
                k: di,
                a_offsets: batch_offsets(bs, di * dj),
                b_offsets: batch_offsets(bs, di * dk),
                c_offsets: batch_offsets(bs, dj * dk),
                a_ld: di,
                b_ld: di,
                c_ld: dj,
                accumulate: true,
            })
        } else {
            let mut cs: Vec<GemmCall> = Vec::new();
            let mut i: u32 = 0;
            while i < bs
                invariant
                    0 <= i <= bs,
                    bs == a.batch,
                    cs@.len() == i,
                    di == a.spec_at(0),
                    dj == a.spec_at(1),
                    dk == b.spec_at(1),
                    di as int * dj as int <= u32::MAX,
                    di as int * dk as int <= u32::MAX,
                    forall|j: int| 0 <= j < bs
                        ==> #[trigger] (j * (di as int * dj as int)) <= u32::MAX,
                    forall|j: int| 0 <= j < bs
                        ==> #[trigger] (j * (di as int * dk as int)) <= u32::MAX,
                    forall|j: int| 0 <= j < i ==> {
                        let c = #[trigger] cs@[j];
                        &&& c.a_transpose
                        &&& !c.b_transpose
                        &&& c.m == dj
                        &&& c.n == dk
                        &&& c.k == di
                        &&& c.a_offset == j * (di as int * dj as int)
                        &&& c.b_offset == j * (di as int * dk as int)
                        &&& c.c_offset == 0
                        &&& c.a_ld == di
                        &&& c.b_ld == di
                        &&& c.c_ld == dj
                        &&& c.accumulate
                    },
                decreases bs - i,
            {
                assert(i * (di as int * dj as int) >= 0
                    && i * (di as int * dk as int) >= 0) by (nonlinear_arith)
                    requires i >= 0, di >= 0, dj >= 0, dk >= 0;
                cs.push(GemmCall {
                    a_transpose: true,
                    b_transpose: false,
                    m: dj,
                    n: dk,
                    k: di,
                    a_offset: i * (di * dj),
                    b_offset: i * (di * dk),
                    c_offset: 0,
                    a_ld: di,
                    b_ld: di,
                    c_ld: dj,
                    accumulate: true,
                });
                i = i + 1;
            }
            GemmDispatch::Sequence(cs)
        }
    } else {
        GemmDispatch::Single(GemmCall {
            a_transpose: true,
            b_transpose: false,
            m: dj,
            n: dk * b.batch(),
            k: di,
            a_offset: 0,
            b_offset: 0,
            c_offset: 0,
            a_ld: di,
            b_ld: di,
            c_ld: dj,
            accumulate: true,
        })
    }
}

/// Why folding the batch into the column dimension is sound: column `c` of
/// the wide call lives at buffer offset `c * stride`, and that is exactly
/// where the batched alternative would put column `c % cols` of batch item
/// `c / cols` — `(c / cols) * (cols * stride)` into the item, plus the column
/// offset.  The one wide call therefore touches precisely the elements the
/// per-batch calls would.
pub proof fn lemma_batch_fold_offsets(stride: int, cols: int, c: int)
    requires
        stride >= 0,
        cols >= 1,
        c >= 0,
    ensures
        c * stride == (c / cols) * (cols * stride) + (c % cols) * stride,
{
    lemma_fundamental_div_mod(c, cols);
    assert(c * stride == (c / cols) * (cols * stride) + (c % cols) * stride)
        by (nonlinear_arith)
        requires c == cols * (c / cols) + c % cols;
}

/// Gradient accumulation, not overwrite: every backward dispatch adds into
/// the existing gradient buffer, so issuing the same contribution twice
/// leaves the seed plus twice the contribution — never the contribution
/// alone.
pub open spec fn accumulate_into(c: Seq<int>, d: Seq<int>) -> Seq<int> {
    Seq::new(c.len(), |i: int| c[i] + d[i])
}

/// Running an accumulating backward pass twice into the same buffer sums the
/// contributions on top of whatever the buffer held.
pub proof fn lemma_accumulate_twice(c: Seq<int>, d: Seq<int>)
    requires
        c.len() == d.len(),
    ensures
        forall|i: int| 0 <= i < c.len()
            ==> accumulate_into(accumulate_into(c, d), d)[i] == c[i] + 2 * d[i],
{
}

} // verus!
