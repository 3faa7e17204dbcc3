//! Launch planning for the data-movement operations: axis broadcast, slicing,
//! picking, concatenation, flipping, transposition, triangular masking, the
//! identity fill, and their batch-axis counterparts.
//!
//! Each plan is the exact set of integer arguments and grid dimensions the
//! corresponding kernel launch receives; all of them are products and
//! quotients of shape extents, strides and batch counts.

use vstd::prelude::*;
use vstd::arithmetic::div_mod::lemma_fundamental_div_mod;
use crate::launch::ceil_div;
use crate::launch::num_blocks_u32;
use crate::shape::Shape;
use crate::shape::lemma_lower_volume_bounds;
use crate::shape::lemma_lower_volume_step;

verus! {

/// One-dimensional launch of the explicit axis-broadcast kernel: a size-1
/// axis of the input is repeated `size` times into the output.  Distinct from
/// the implicit elementwise batch broadcast: here the source stride for the
/// broadcast axis is varied by zero inside a `skip1`/`skip2` partition of the
/// output index.
pub struct BroadcastAxisLaunch {
    /// Output stride below the broadcast axis.
    pub skip1: u32,
    /// Output stride above the broadcast axis: `skip1 * size`.
    pub skip2: u32,
    /// Total output element count.
    pub total: u32,
    /// Work-group count covering `total`.
    pub blocks: u32,
    /// Work-group width the kernel was compiled for.
    pub local: u32,
}

/// Plan the explicit broadcast of axis `dim` up to extent `size`; the output
/// shape `y` already carries that extent on the axis.
pub fn broadcast_axis_launch(y: &Shape, dim: u32, size: u32, local: u32)
    -> (r: BroadcastAxisLaunch)
    requires
        y.wf(),
        local >= 1,
        y.spec_at(dim as int) == size,
    ensures
        r.skip1 == y.spec_lower_volume(dim as int),
        r.skip2 == y.spec_lower_volume(dim as int) * size as nat,
        r.total == y.spec_size(),
        r.blocks == ceil_div(y.spec_size() as int, local as int),
        r.local == local,
{
    proof {
        lemma_lower_volume_bounds(y, dim as int);
        lemma_lower_volume_step(y, dim as int);
    }
    let skip1 = y.lower_volume(dim);
    let skip2 = skip1 * size;
    let total = y.size();
    let blocks = num_blocks_u32(total, local);
    BroadcastAxisLaunch { skip1, skip2, total, blocks, local }
}

/// The shape relation under which one tensor is an axis-`dim` window of
/// another: equal strides below the axis, a no-larger extent on it, and the
/// same repetition count of the axis block above it.
pub open spec fn axis_window_ok(x: Shape, y: Shape, d: int) -> bool {
    &&& x.wf()
    &&& y.wf()
    &&& y.spec_lower_volume(d) == x.spec_lower_volume(d)
    &&& y.spec_at(d) <= x.spec_at(d)
    &&& x.spec_volume() == x.spec_lower_volume(d) * x.spec_at(d) as nat
        * (x.spec_volume() / (x.spec_lower_volume(d) * x.spec_at(d) as nat))
    &&& y.spec_volume() == y.spec_lower_volume(d) * y.spec_at(d) as nat
        * (x.spec_volume() / (x.spec_lower_volume(d) * x.spec_at(d) as nat))
}

/// One-dimensional launch of the forward slice kernel: copy, out of every
/// repetition of the sliced axis, the window starting `offset` coordinates
/// in.
pub struct SliceLaunch {
    /// Read offset of the window within the first axis block.
    pub shift: u32,
    /// Width of the copied window.
    pub span: u32,
    /// Width of a whole source axis block.
    pub skip: u32,
    /// Total output element count.
    pub size: u32,
    /// Work-group count covering `size`.
    pub blocks: u32,
    /// Work-group width the kernel was compiled for.
    pub local: u32,
}

/// Plan a forward slice of axis `dim`, taking `y`'s extent starting at
/// `offset` within `x`'s.
pub fn slice_fw_launch(x: &Shape, y: &Shape, dim: u32, offset: u32, local: u32)
    -> (r: SliceLaunch)
    requires
        x.wf(),
        y.wf(),
        local >= 1,
        y.spec_lower_volume(dim as int) == x.spec_lower_volume(dim as int),
        offset + y.spec_at(dim as int) <= x.spec_at(dim as int),
    ensures
        r.shift == y.spec_lower_volume(dim as int) * offset as nat,
        r.span == y.spec_lower_volume(dim as int) * y.spec_at(dim as int) as nat,
        r.skip == y.spec_lower_volume(dim as int) * x.spec_at(dim as int) as nat,
        r.size == y.spec_size(),
        r.blocks == ceil_div(y.spec_size() as int, local as int),
        r.local == local,
{
    proof {
        lemma_lower_volume_bounds(x, dim as int);
        lemma_lower_volume_bounds(y, dim as int);
        lemma_lower_volume_step(x, dim as int);
        lemma_lower_volume_step(y, dim as int);
        let base = y.spec_lower_volume(dim as int);
        assert(base * offset as nat <= base * x.spec_at(dim as int) as nat
            && base * y.spec_at(dim as int) as nat <= base * x.spec_at(dim as int) as nat)
            by (nonlinear_arith)
            requires
                offset as nat <= x.spec_at(dim as int) as nat,
                y.spec_at(dim as int) as nat <= x.spec_at(dim as int) as nat,
                base >= 0;
    }
    let base = y.lower_volume(dim);
    let size = y.size();
    SliceLaunch {
        shift: base * offset,
        span: base * y.at(dim),
        skip: base * x.at(dim),
        size,
        blocks: num_blocks_u32(size, local),
        local,
    }
}

/// One-dimensional launch of the backward slice kernel: accumulate the
/// gradient window back into the wider gradient of the input, covering
/// whichever of the two (gradient may be batched on either side) repeats more.
pub struct SliceBwLaunch {
    /// Write offset of the window within the first destination axis block.
    pub shift: u32,
    /// Width of a destination axis block.
    pub wx: u32,
    /// Width of a source axis block.
    pub wy: u32,
    /// Destination block repetitions over the whole tensor.
    pub nx: u32,
    /// Source block repetitions over the whole tensor.
    pub ny: u32,
    /// Work-group count covering `wy` times the larger repetition count.
    pub blocks: u32,
    /// Work-group width the kernel was compiled for.
    pub local: u32,
}

/// Plan the backward slice of axis `dim` at `offset`: `gy`'s window
/// accumulates into `gx`.
pub fn slice_bw_launch(gx: &Shape, gy: &Shape, dim: u32, offset: u32, local: u32)
    -> (r: SliceBwLaunch)
    requires
        axis_window_ok(*gx, *gy, dim as int),
        local >= 1,
        offset + gy.spec_at(dim as int) <= gx.spec_at(dim as int),
    ensures
        r.shift == gx.spec_lower_volume(dim as int) * offset as nat,
        r.wx == gx.spec_lower_volume(dim as int) * gx.spec_at(dim as int) as nat,
        r.wy == gx.spec_lower_volume(dim as int) * gy.spec_at(dim as int) as nat,
        r.nx == (gx.spec_volume()
            / (gx.spec_lower_volume(dim as int) * gx.spec_at(dim as int) as nat))
            * gx.batch as nat,
        r.ny == (gx.spec_volume()
            / (gx.spec_lower_volume(dim as int) * gx.spec_at(dim as int) as nat))
            * gy.batch as nat,
        r.blocks == ceil_div(
            r.wy as int * (if r.nx >= r.ny { r.nx } else { r.ny }) as int,
            local as int,
        ),
        r.local == local,
{
    proof {
        lemma_slice_bw_bounds(gx, gy, dim as int, offset as int);
    }
    let base = gx.lower_volume(dim);
    let wx = base * gx.at(dim);
    let wy = base * gy.at(dim);
    let repeat = gx.volume() / wx;
    let nx = repeat * gx.batch();
    let ny = repeat * gy.batch();
    let bigger = if nx >= ny { nx } else { ny };
    let covered = wy * bigger;
    let blocks: u32 = if covered == 0 {
        proof {
            assert(ceil_div(0, local as int) == 0) by (nonlinear_arith)
                requires local >= 1;
        }
        0
    } else {
        num_blocks_u32(covered, local)
    };
    SliceBwLaunch { shift: base * offset, wx, wy, nx, ny, blocks, local }
}

proof fn lemma_slice_bw_bounds(gx: &Shape, gy: &Shape, d: int, offset: int)
    requires
        axis_window_ok(*gx, *gy, d),
        d >= 0,
        offset >= 0,
        offset + gy.spec_at(d) <= gx.spec_at(d),
    ensures
        gx.spec_lower_volume(d) * offset <= u32::MAX,
        gx.spec_lower_volume(d) * gx.spec_at(d) as nat <= u32::MAX,
        gx.spec_lower_volume(d) * gy.spec_at(d) as nat <= u32::MAX,
        gx.spec_lower_volume(d) * gx.spec_at(d) as nat >= 1,
        (gx.spec_volume() / (gx.spec_lower_volume(d) * gx.spec_at(d) as nat))
            * gx.batch as nat <= u32::MAX,
        (gx.spec_volume() / (gx.spec_lower_volume(d) * gx.spec_at(d) as nat))
            * gy.batch as nat <= u32::MAX,
        (gx.spec_lower_volume(d) * gy.spec_at(d) as nat)
            * ((gx.spec_volume() / (gx.spec_lower_volume(d) * gx.spec_at(d) as nat))
                * gx.batch as nat) <= u32::MAX,
        (gx.spec_lower_volume(d) * gy.spec_at(d) as nat)
            * ((gx.spec_volume() / (gx.spec_lower_volume(d) * gx.spec_at(d) as nat))
                * gy.batch as nat) <= u32::MAX,
{
    lemma_lower_volume_bounds(gx, d);
    lemma_lower_volume_bounds(gy, d);
    lemma_lower_volume_step(gx, d);
    lemma_lower_volume_step(gy, d);
    let base = gx.spec_lower_volume(d) as int;
    let ax = gx.spec_at(d) as int;
    let ay = gy.spec_at(d) as int;
    let wx = base * ax;
    let wy = base * ay;
    let vx = gx.spec_volume() as int;
    let vy = gy.spec_volume() as int;
    let rep = vx / wx;
    assert(base * offset <= base * ax && wy <= wx) by (nonlinear_arith)
        requires
            wx == base * ax,
            wy == base * ay,
            base >= 1,
            0 <= offset,
            offset + ay <= ax,
            1 <= ay,
    ;
    assert(wy >= 1 && wx >= 1) by (nonlinear_arith)
        requires
            wx == base * ax,
            wy == base * ay,
            base >= 1,
            ay >= 1,
            ax >= 1;
    assert(vx == wx * rep && vy == wy * rep);
    assert(rep >= 1 && rep * gx.batch as int <= vx * gx.batch as int
        && wy * (rep * gx.batch as int) <= wx * rep * gx.batch as int
        && wy * (rep * gy.batch as int) == vy * gy.batch as int
        && wx * rep * gx.batch as int == vx * gx.batch as int)
        by (nonlinear_arith)
        requires
            vx == wx * rep,
            vy == wy * rep,
            wx >= 1,
            wy >= 1,
            wy <= wx,
            vx >= 1,
            gx.batch >= 1,
            gy.batch >= 1;
    assert(vx * gx.batch as int <= u32::MAX && vy * gy.batch as int <= u32::MAX);
    assert(rep * gy.batch as int <= vy * gy.batch as int) by (nonlinear_arith)
        requires
            vy == wy * rep,
            wy >= 1,
            rep >= 1,
            gy.batch >= 1;
}

/// Two-dimensional launch of a pick kernel: gather (forward) or scatter-add
/// (backward) whole axis coordinates named by a host-supplied index list,
/// one grid lane per output element per batch.
pub struct PickLaunch {
    /// Output stride below the picked axis.
    pub wy: u32,
    /// Input stride spanning the whole picked axis.
    pub wx: u32,
    /// Per-batch stride of the non-gradient operand: its volume when batched,
    /// 0 when shared across the batch.
    pub sx: u32,
    /// 1 when the index list carries one entry per batch, 0 when one shared
    /// entry.
    pub si: u32,
    /// Per-batch element count of the gradient-side tensor.
    pub sy: u32,
    /// Work-group count covering `sy`.
    pub blocks: u32,
    /// Extent of the second grid axis: the batch count.
    pub batches: u32,
    /// Work-group width the kernel was compiled for.
    pub local: u32,
}

/// Plan a pick of axis `dim`: `x` is the tensor picked from (the input
/// forward, the input gradient backward), `y` the picked side, `ids_len` the
/// length of the index list.
pub fn pick_launch(x: &Shape, y: &Shape, dim: u32, ids_len: usize, local: u32)
    -> (r: PickLaunch)
    requires
        x.wf(),
        y.wf(),
        local >= 1,
        y.spec_lower_volume(dim as int) == x.spec_lower_volume(dim as int),
    ensures
        r.wy == y.spec_lower_volume(dim as int),
        r.wx == y.spec_lower_volume(dim as int) * x.spec_at(dim as int) as nat,
        r.sx == if x.spec_has_batch() { x.spec_volume() } else { 0nat },
        r.si == if ids_len > 1 { 1u32 } else { 0u32 },
        r.sy == y.spec_volume(),
        r.blocks == ceil_div(y.spec_volume() as int, local as int),
        r.batches == y.batch,
        r.local == local,
{
    proof {
        lemma_lower_volume_bounds(x, dim as int);
        lemma_lower_volume_bounds(y, dim as int);
        lemma_lower_volume_step(x, dim as int);
    }
    let wy = y.lower_volume(dim);
    let sy = y.volume();
    PickLaunch {
        wy,
        wx: wy * x.at(dim),
        sx: if x.has_batch() { x.volume() } else { 0 },
        si: if ids_len > 1 { 1 } else { 0 },
        sy,
        blocks: num_blocks_u32(sy, local),
        batches: y.batch,
        local,
    }
}

/// Running sum of axis-`dim` extents over a prefix of the concatenated
/// inputs: where the next input's window starts.
pub open spec fn extent_sum(xs: Seq<Shape>, d: int, k: int) -> int
    decreases k,
{
    if k <= 0 {
        0
    } else {
        extent_sum(xs, d, k - 1) + xs[k - 1].spec_at(d)
    }
}

/// One per-input launch of the concatenation kernel.
pub struct ConcatPiece {
    /// Width of this input's axis window.
    pub span: u32,
    /// Width of a whole output axis block.
    pub skip: u32,
    /// Total element count read from this input.
    pub x_size: u32,
    /// Total element count written for this input.
    pub y_size: u32,
    /// Write offset of the window within an output axis block.
    pub offset: u32,
    /// Work-group count covering `y_size`.
    pub blocks: u32,
    /// Work-group width the kernel was compiled for.
    pub local: u32,
}

proof fn lemma_extent_sum_bounds(xs: Seq<Shape>, d: int, k: int)
    requires
        forall|i: int| 0 <= i < xs.len() ==> (#[trigger] xs[i]).wf(),
        0 <= k <= xs.len(),
    ensures
        forall|j: int| 0 <= j <= k ==> extent_sum(xs, d, j) >= 0,
        forall|j: int| 0 <= j < k ==> extent_sum(xs, d, j) + xs[j].spec_at(d)
            <= extent_sum(xs, d, k),
    decreases k,
{
    if k > 0 {
        lemma_extent_sum_bounds(xs, d, k - 1);
        assert(extent_sum(xs, d, k) == extent_sum(xs, d, k - 1) + xs[k - 1].spec_at(d));
    } else {
        assert(extent_sum(xs, d, 0) == 0);
    }
}

/// Plan the concatenation of `xs` along axis `dim` into `y`: one launch per
/// input, each writing its window at the running offset.  The host framework
/// guarantees the windows tile `y`'s axis exactly.
pub fn concat_launches(xs: &Vec<Shape>, y: &Shape, dim: u32, local: u32)
    -> (r: Vec<ConcatPiece>)
    requires
        y.wf(),
        local >= 1,
        forall|i: int| 0 <= i < xs@.len() ==> axis_window_ok(*y, #[trigger] xs@[i], dim as int),
        forall|i: int| 0 <= i < xs@.len() ==> (#[trigger] xs@[i]).batch <= y.batch,
        extent_sum(xs@, dim as int, xs@.len() as int) <= y.spec_at(dim as int),
    ensures
        r@.len() == xs@.len(),
        forall|i: int| 0 <= i < xs@.len() ==> {
            let p = #[trigger] r@[i];
            let base = y.spec_lower_volume(dim as int);
            let rep = y.spec_volume()
                / (y.spec_lower_volume(dim as int) * y.spec_at(dim as int) as nat);
            &&& p.span == base * xs@[i].spec_at(dim as int) as nat
            &&& p.skip == base * y.spec_at(dim as int) as nat
            &&& p.x_size == (base * xs@[i].spec_at(dim as int) as nat) * rep
                * xs@[i].batch as nat
            &&& p.y_size == (base * xs@[i].spec_at(dim as int) as nat) * rep
                * y.batch as nat
            &&& p.offset == base * extent_sum(xs@, dim as int, i)
            &&& p.blocks == ceil_div(p.y_size as int, local as int)
            &&& p.local == local
        },
{
    proof {
        lemma_lower_volume_bounds(y, dim as int);
        lemma_lower_volume_step(y, dim as int);
        lemma_extent_sum_bounds(xs@, dim as int, xs@.len() as int);
    }
    let base = y.lower_volume(dim);
    let skip = base * y.at(dim);
    proof {
        assert(skip >= 1) by (nonlinear_arith)
            requires
                skip == y.spec_lower_volume(dim as int) * y.spec_at(dim as int) as nat,
                y.spec_lower_volume(dim as int) >= 1,
                y.spec_at(dim as int) >= 1;
    }
    let repeat = y.volume() / skip;
    let mut r: Vec<ConcatPiece> = Vec::new();
    let mut offset: u32 = 0;
    let mut i: usize = 0;
    while i < xs.len()
        invariant
            y.wf(),
            local >= 1,
            forall|j: int| 0 <= j < xs@.len()
                ==> axis_window_ok(*y, #[trigger] xs@[j], dim as int),
            forall|j: int| 0 <= j < xs@.len() ==> (#[trigger] xs@[j]).batch <= y.batch,
            extent_sum(xs@, dim as int, xs@.len() as int) <= y.spec_at(dim as int),
            forall|j: int| 0 <= j < xs@.len()
                ==> extent_sum(xs@, dim as int, j) + xs@[j].spec_at(dim as int)
                    <= extent_sum(xs@, dim as int, xs@.len() as int),
            forall|j: int| 0 <= j <= xs@.len() ==> extent_sum(xs@, dim as int, j) >= 0,
            0 <= i <= xs@.len(),
            base == y.spec_lower_volume(dim as int),
            skip == base as nat * y.spec_at(dim as int) as nat,
            repeat == y.spec_volume() / skip as nat,
            skip >= 1,
            offset == base as nat * extent_sum(xs@, dim as int, i as int),
            r@.len() == i,
            forall|j: int| 0 <= j < i ==> {
                let p = #[trigger] r@[j];
                &&& p.span == base as nat * xs@[j].spec_at(dim as int) as nat
                &&& p.skip == skip
                &&& p.x_size == (base as nat * xs@[j].spec_at(dim as int) as nat)
                    * repeat as nat * xs@[j].batch as nat
                &&& p.y_size == (base as nat * xs@[j].spec_at(dim as int) as nat)
                    * repeat as nat * y.batch as nat
                &&& p.offset == base as nat * extent_sum(xs@, dim as int, j)
                &&& p.blocks == ceil_div(p.y_size as int, local as int)
                &&& p.local == local
            },
        decreases xs@.len() - i,
    {
        let x = &xs[i];
        proof {
            assert(axis_window_ok(*y, xs@[i as int], dim as int));
            assert(y.spec_volume() == skip as nat * repeat as nat);
            lemma_concat_piece_bounds(xs@, y, dim as int, i as int, repeat as int);
        }
        let span = base * x.at(dim);
        let x_size = span * repeat * x.batch();
        let y_size = span * repeat * y.batch();
        let blocks: u32 = if y_size == 0 {
            proof {
                assert(ceil_div(0, local as int) == 0) by (nonlinear_arith)
                    requires local >= 1;
            }
            0
        } else {
            num_blocks_u32(y_size, local)
        };
        r.push(ConcatPiece { span, skip, x_size, y_size, offset, blocks, local });
        proof {
            assert(extent_sum(xs@, dim as int, i as int + 1)
                == extent_sum(xs@, dim as int, i as int) + xs@[i as int].spec_at(dim as int));
            assert(base as nat * extent_sum(xs@, dim as int, i as int + 1)
                == base as nat * extent_sum(xs@, dim as int, i as int)
                    + base as nat * xs@[i as int].spec_at(dim as int) as nat)
                by (nonlinear_arith)
                requires extent_sum(xs@, dim as int, i as int + 1)
                    == extent_sum(xs@, dim as int, i as int)
                        + xs@[i as int].spec_at(dim as int);
        }
        offset = offset + span;
        i = i + 1;
    }
    r
}

proof fn lemma_concat_piece_bounds(xs: Seq<Shape>, y: &Shape, d: int, i: int, rep: int)
    requires
        y.wf(),
        d >= 0,
        0 <= i < xs.len(),
        forall|j: int| 0 <= j < xs.len() ==> axis_window_ok(*y, #[trigger] xs[j], d),
        forall|j: int| 0 <= j < xs.len() ==> (#[trigger] xs[j]).batch <= y.batch,
        forall|j: int| 0 <= j < xs.len() ==> extent_sum(xs, d, j) + xs[j].spec_at(d)
            <= extent_sum(xs, d, xs.len() as int),
        forall|j: int| 0 <= j <= xs.len() ==> extent_sum(xs, d, j) >= 0,
        extent_sum(xs, d, xs.len() as int) <= y.spec_at(d),
        y.spec_volume() == (y.spec_lower_volume(d) * y.spec_at(d) as nat) * rep,
        rep >= 0,
    ensures
        y.spec_lower_volume(d) * xs[i].spec_at(d) as nat <= u32::MAX,
        (y.spec_lower_volume(d) * xs[i].spec_at(d) as nat) * rep <= u32::MAX,
        (y.spec_lower_volume(d) * xs[i].spec_at(d) as nat) * rep * xs[i].batch as nat
            <= u32::MAX,
        (y.spec_lower_volume(d) * xs[i].spec_at(d) as nat) * rep * y.batch as nat
            <= u32::MAX,
        y.spec_lower_volume(d) * extent_sum(xs, d, i)
            + y.spec_lower_volume(d) * xs[i].spec_at(d) as nat
            <= y.spec_lower_volume(d) * y.spec_at(d) as nat,
        y.spec_lower_volume(d) * (extent_sum(xs, d, i) + xs[i].spec_at(d))
            == y.spec_lower_volume(d) * extent_sum(xs, d, i)
                + y.spec_lower_volume(d) * xs[i].spec_at(d) as nat,
{
    lemma_lower_volume_bounds(y, d);
    lemma_lower_volume_step(y, d);
    let base = y.spec_lower_volume(d) as int;
    let ai = xs[i].spec_at(d) as int;
    let ay = y.spec_at(d) as int;
    assert(extent_sum(xs, d, i) + ai <= ay && ai >= 1 && extent_sum(xs, d, i) >= 0);
    assert(base * (extent_sum(xs, d, i) + ai)
        == base * extent_sum(xs, d, i) + base * ai
        && base * extent_sum(xs, d, i) + base * ai <= base * ay
        && base * ai <= base * ay) by (nonlinear_arith)
        requires
            base >= 1,
            extent_sum(xs, d, i) >= 0,
            ai >= 1,
            extent_sum(xs, d, i) + ai <= ay;
    assert((base * ai) * rep <= (base * ay) * rep
        && (base * ai) * rep * xs[i].batch as int <= (base * ay) * rep * y.batch as int
        && (base * ai) * rep * y.batch as int <= (base * ay) * rep * y.batch as int
        && (base * ay) * rep * y.batch as int == y.spec_volume() * y.batch as int)
        by (nonlinear_arith)
        requires
            base >= 1,
            1 <= ai <= ay,
            rep >= 0,
            1 <= xs[i].batch as int <= y.batch as int,
            y.spec_volume() == (base * ay) * rep;
}

/// Two-dimensional launch of an axis-flip kernel: one grid axis over the
/// flipped axis, one over everything else.
pub struct FlipLaunch {
    /// Linear stride between consecutive coordinates of the flipped axis.
    pub skip: u32,
    /// Extent of the flipped axis.
    pub n: u32,
    /// Remaining element count: one lane pair mirror per axis instance.
    pub rest: u32,
    /// Work-group count along the axis grid dimension.
    pub blocks_n: u32,
    /// Work-group count along the rest grid dimension.
    pub blocks_rest: u32,
    /// Work-group widths the kernel was compiled for, per grid axis.
    pub local_n: u32,
    pub local_rest: u32,
}

/// Plan the flip of axis `dim` of `x` (forward and backward share it: the
/// backward pass flips the gradient back through the same geometry).
pub fn flip_launch(x: &Shape, dim: u32, local_n: u32, local_rest: u32) -> (r: FlipLaunch)
    requires
        x.wf(),
        local_n >= 1,
        local_rest >= 1,
    ensures
        r.skip == x.spec_lower_volume(dim as int),
        r.n == x.spec_at(dim as int),
        r.rest == x.spec_size() / x.spec_at(dim as int) as nat,
        r.blocks_n == ceil_div(x.spec_at(dim as int) as int, local_n as int),
        r.blocks_rest == ceil_div(r.rest as int, local_rest as int),
        r.local_n == local_n,
        r.local_rest == local_rest,
{
    proof {
        lemma_lower_volume_bounds(x, dim as int);
        let at = x.spec_at(dim as int) as int;
        lemma_fundamental_div_mod(x.spec_size() as int, at);
        let q = x.spec_size() as int / at;
        let m = x.spec_size() as int % at;
        assert(x.spec_at(dim as int) as nat * 1 <= x.spec_at(dim as int) as nat
            * x.spec_lower_volume(dim as int)) by (nonlinear_arith)
            requires x.spec_lower_volume(dim as int) >= 1;
        assert(x.spec_at(dim as int) as nat * x.spec_lower_volume(dim as int)
            == x.spec_lower_volume(dim as int) * x.spec_at(dim as int) as nat)
            by (nonlinear_arith);
        assert(q >= 1) by (nonlinear_arith)
            requires
                x.spec_size() as int == at * q + m,
                0 <= m,
                m < at,
                x.spec_size() >= at >= 1;
    }
    let n = x.at(dim);
    let rest = x.size() / n;
    FlipLaunch {
        skip: x.lower_volume(dim),
        n,
        rest,
        blocks_n: num_blocks_u32(n, local_n),
        blocks_rest: num_blocks_u32(rest, local_rest),
        local_n,
        local_rest,
    }
}

/// Three-dimensional launch of a matrix kernel: rows, columns, batch.
pub struct MatrixLaunch {
    /// Extent of the first grid axis.
    pub rows: u32,
    /// Extent of the second grid axis.
    pub cols: u32,
    /// Extent of the third grid axis: the batch count.
    pub batches: u32,
    /// Work-group count along the row grid axis.
    pub blocks_rows: u32,
    /// Work-group count along the column grid axis.
    pub blocks_cols: u32,
    /// Work-group widths the kernel was compiled for, per grid axis.
    pub local_rows: u32,
    pub local_cols: u32,
}

/// Plan a matrix transposition of `x` (forward reads `x`, backward reads the
/// gradient through the same geometry).
pub fn transpose_launch(x: &Shape, local_rows: u32, local_cols: u32) -> (r: MatrixLaunch)
    requires
        x.wf(),
        local_rows >= 1,
        local_cols >= 1,
    ensures
        r.rows == x.spec_at(0),
        r.cols == x.spec_at(1),
        r.batches == x.batch,
        r.blocks_rows == ceil_div(x.spec_at(0) as int, local_rows as int),
        r.blocks_cols == ceil_div(x.spec_at(1) as int, local_cols as int),
        r.local_rows == local_rows,
        r.local_cols == local_cols,
{
    let rows = x.at(0);
    let cols = x.at(1);
    MatrixLaunch {
        rows,
        cols,
        batches: x.batch,
        blocks_rows: num_blocks_u32(rows, local_rows),
        blocks_cols: num_blocks_u32(cols, local_cols),
        local_rows,
        local_cols,
    }
}

/// Plan a triangular masking of the square matrix `x` (lower or upper: the
/// two kernels share the launch; `k` is the diagonal offset parameter handed
/// through to the kernel).
pub fn triangular_launch(x: &Shape, local_rows: u32, local_cols: u32) -> (r: MatrixLaunch)
    requires
        x.wf(),
        local_rows >= 1,
        local_cols >= 1,
    ensures
        r.rows == x.spec_at(0),
        r.cols == x.spec_at(0),
        r.batches == x.batch,
        r.blocks_rows == ceil_div(x.spec_at(0) as int, local_rows as int),
        r.blocks_cols == ceil_div(x.spec_at(0) as int, local_cols as int),
        r.local_rows == local_rows,
        r.local_cols == local_cols,
{
    let size = x.at(0);
    MatrixLaunch {
        rows: size,
        cols: size,
        batches: x.batch,
        blocks_rows: num_blocks_u32(size, local_rows),
        blocks_cols: num_blocks_u32(size, local_cols),
        local_rows,
        local_cols,
    }
}

/// One-dimensional launch of the identity-matrix fill: `size` lanes, writing
/// 1 wherever the flat index is a multiple of `rows + 1`.
pub struct IdentityLaunch {
    /// Per-batch element count of the output matrix.
    pub size: u32,
    /// Diagonal step: one more than the row count.
    pub skip: u32,
    /// Work-group count covering `size`.
    pub blocks: u32,
    /// Work-group width the kernel was compiled for.
    pub local: u32,
}

/// Plan the identity fill of the matrix `y`.
pub fn identity_launch(y: &Shape, local: u32) -> (r: IdentityLaunch)
    requires
        y.wf(),
        local >= 1,
        y.spec_at(0) < u32::MAX,
    ensures
        r.size == y.spec_volume(),
        r.skip == y.spec_at(0) + 1,
        r.blocks == ceil_div(y.spec_volume() as int, local as int),
        r.local == local,
{
    proof {
        lemma_lower_volume_bounds(y, 0);
    }
    let size = y.volume();
    IdentityLaunch {
        size,
        skip: y.at(0) + 1,
        blocks: num_blocks_u32(size, local),
        local,
    }
}

/// One-dimensional launch of a batch-axis window copy: slicing one batch
/// range out (forward) or accumulating it back (backward).
pub struct BatchSliceLaunch {
    /// Element offset of the window: the per-batch volume times the first
    /// batch index.
    pub shift: u32,
    /// Total element count of the window side.
    pub size: u32,
    /// Work-group count covering `size`.
    pub blocks: u32,
    /// Work-group width the kernel was compiled for.
    pub local: u32,
}

/// Plan a batch-axis slice: `y` is the window of `x` starting at batch
/// `offset` (forward moves data out of `x`; backward accumulates `y`'s
/// gradient back in at the same window).
pub fn batch_slice_launch(x: &Shape, y: &Shape, offset: u32, local: u32)
    -> (r: BatchSliceLaunch)
    requires
        x.wf(),
        y.wf(),
        local >= 1,
        y.spec_volume() == x.spec_volume(),
        offset + y.batch <= x.batch,
    ensures
        r.shift == y.spec_volume() * offset as nat,
        r.size == y.spec_size(),
        r.blocks == ceil_div(y.spec_size() as int, local as int),
        r.local == local,
{
    proof {
        lemma_lower_volume_bounds(y, 0);
        assert(y.spec_volume() * offset as nat <= x.spec_volume() * x.batch as nat)
            by (nonlinear_arith)
            requires
                y.spec_volume() == x.spec_volume(),
                offset as nat <= x.batch as nat,
                x.spec_volume() >= 1;
    }
    let volume = y.volume();
    let size = y.size();
    BatchSliceLaunch {
        shift: volume * offset,
        size,
        blocks: num_blocks_u32(size, local),
        local,
    }
}

/// Two-dimensional launch of a batch-pick kernel: gather (forward) or
/// scatter-add (backward) whole batch items named by a host index list.
pub struct BatchPickLaunch {
    /// 1 when the index list carries one entry per output batch, 0 when one
    /// shared entry.
    pub si: u32,
    /// Per-batch element count.
    pub sy: u32,
    /// Work-group count covering `sy`.
    pub blocks: u32,
    /// Extent of the second grid axis: the picked-side batch count.
    pub batches: u32,
    /// Work-group width the kernel was compiled for.
    pub local: u32,
}

/// Plan a batch pick with `ids_len` indices; `y` is the picked side (the
/// output forward, the incoming gradient backward).
pub fn batch_pick_launch(y: &Shape, ids_len: usize, local: u32) -> (r: BatchPickLaunch)
    requires
        y.wf(),
        local >= 1,
    ensures
        r.si == if ids_len > 1 { 1u32 } else { 0u32 },
        r.sy == y.spec_volume(),
        r.blocks == ceil_div(y.spec_volume() as int, local as int),
        r.batches == y.batch,
        r.local == local,
{
    proof {
        lemma_lower_volume_bounds(y, 0);
    }
    let sy = y.volume();
    BatchPickLaunch {
        si: if ids_len > 1 { 1 } else { 0 },
        sy,
        blocks: num_blocks_u32(sy, local),
        batches: y.batch,
        local,
    }
}

/// Running sum of total sizes over a prefix of batch-concatenated inputs.
pub open spec fn size_sum(xs: Seq<Shape>, k: int) -> int
    decreases k,
{
    if k <= 0 {
        0
    } else {
        size_sum(xs, k - 1) + xs[k - 1].spec_size()
    }
}

/// One per-input launch of the batch-concatenation kernel.
pub struct BatchConcatPiece {
    /// Total element count copied from this input.
    pub span: u32,
    /// Write offset in the output: the summed sizes of the earlier inputs.
    pub offset: u32,
    /// Work-group count covering `span`.
    pub blocks: u32,
    /// Work-group width the kernel was compiled for.
    pub local: u32,
}

proof fn lemma_size_sum_bounds(xs: Seq<Shape>, k: int)
    requires
        forall|i: int| 0 <= i < xs.len() ==> (#[trigger] xs[i]).wf(),
        0 <= k <= xs.len(),
    ensures
        forall|j: int| 0 <= j <= k ==> size_sum(xs, j) >= 0,
        forall|j: int| 0 <= j < k ==> size_sum(xs, j) + xs[j].spec_size()
            <= size_sum(xs, k),
    decreases k,
{
    if k > 0 {
        lemma_size_sum_bounds(xs, k - 1);
        assert(size_sum(xs, k) == size_sum(xs, k - 1) + xs[k - 1].spec_size());
    } else {
        assert(size_sum(xs, 0) == 0);
    }
}

/// Plan the concatenation of `xs` along the batch axis into `y`: one launch
/// per input, each copying its whole extent at the running offset.
pub fn batch_concat_launches(xs: &Vec<Shape>, y: &Shape, local: u32)
    -> (r: Vec<BatchConcatPiece>)
    requires
        y.wf(),
        local >= 1,
        forall|i: int| 0 <= i < xs@.len() ==> (#[trigger] xs@[i]).wf(),
        size_sum(xs@, xs@.len() as int) <= y.spec_size(),
    ensures
        r@.len() == xs@.len(),
        forall|i: int| 0 <= i < xs@.len() ==> {
            let p = #[trigger] r@[i];
            &&& p.span == xs@[i].spec_size()
            &&& p.offset == size_sum(xs@, i)
            &&& p.blocks == ceil_div(xs@[i].spec_size() as int, local as int)
            &&& p.local == local
        },
{
    proof {
        lemma_size_sum_bounds(xs@, xs@.len() as int);
    }
    let mut r: Vec<BatchConcatPiece> = Vec::new();
    let mut offset: u32 = 0;
    let mut i: usize = 0;
    while i < xs.len()
        invariant
            local >= 1,
            forall|j: int| 0 <= j < xs@.len() ==> (#[trigger] xs@[j]).wf(),
            size_sum(xs@, xs@.len() as int) <= y.spec_size(),
            y.spec_size() <= u32::MAX,
            forall|j: int| 0 <= j < xs@.len() ==> size_sum(xs@, j) + xs@[j].spec_size()
                <= size_sum(xs@, xs@.len() as int),
            forall|j: int| 0 <= j <= xs@.len() ==> size_sum(xs@, j) >= 0,
            0 <= i <= xs@.len(),
            offset == size_sum(xs@, i as int),
            r@.len() == i,
            forall|j: int| 0 <= j < i ==> {
                let p = #[trigger] r@[j];
                &&& p.span == xs@[j].spec_size()
                &&& p.offset == size_sum(xs@, j)
                &&& p.blocks == ceil_div(xs@[j].spec_size() as int, local as int)
                &&& p.local == local
            },
        decreases xs@.len() - i,
    {
        let x = &xs[i];
        proof {
            lemma_lower_volume_bounds(x, 0);
        }
        let span = x.size();
        let blocks = num_blocks_u32(span, local);
        r.push(BatchConcatPiece { span, offset, blocks, local });
        offset = offset + span;
        i = i + 1;
    }
    r
}

/// One-dimensional launch of the batch-sum kernel: fold `batches` parallel
/// instances into one, lane by lane.
pub struct BatchSumLaunch {
    /// Output element count: one per folded lane.
    pub size: u32,
    /// How many batch items each lane folds.
    pub batches: u32,
    /// Work-group count covering `size`.
    pub blocks: u32,
    /// Work-group width the kernel was compiled for.
    pub local: u32,
}

/// Plan the batch-axis sum of `x` into the single-batch `y`.
pub fn batch_sum_launch(x: &Shape, y: &Shape, local: u32) -> (r: BatchSumLaunch)
    requires
        x.wf(),
        y.wf(),
        local >= 1,
    ensures
        r.size == y.spec_size(),
        r.batches == x.batch,
        r.blocks == ceil_div(y.spec_size() as int, local as int),
        r.local == local,
{
    proof {
        lemma_lower_volume_bounds(y, 0);
    }
    let size = y.size();
    BatchSumLaunch {
        size,
        batches: x.batch,
        blocks: num_blocks_u32(size, local),
        local,
    }
}

} // verus!
