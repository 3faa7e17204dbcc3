//! Elementwise and broadcast launch planning.
//!
//! Four call shapes share one launch pattern: unary, binary with batch
//! broadcast, unary with a host constant, and unary with a per-batch scalar
//! tensor.  A binary kernel receives, per operand, a has-batch flag; an
//! operand whose batch count is 1 is read at per-batch offset 0 whatever the
//! output batch is, which is the whole of the batch-broadcast rule.

use vstd::prelude::*;
use crate::launch::ceil_div;
use crate::launch::num_blocks_u32;
use crate::shape::Shape;
use vstd::arithmetic::mul::lemma_mul_inequality;

verus! {

/// One-dimensional launch over every element of the output tensor: unary
/// forward and backward kernels, constant-operand kernels, and in-place
/// constant updates.
pub struct MapLaunch {
    /// Element count handed to the kernel.
    pub size: u32,
    /// Work-group count along the only grid axis.
    pub blocks: u32,
    /// Work-group width the kernel was compiled for.
    pub local: u32,
}

/// Two-dimensional launch of a binary batch-broadcast kernel: the first grid
/// axis covers one batch's elements, the second grid axis is the batch.
pub struct BroadcastLaunch {
    /// Per-batch element count handed to the kernel.
    pub volume: u32,
    /// Work-group count along the first grid axis.
    pub blocks: u32,
    /// Work-group width the kernel was compiled for.
    pub local: u32,
    /// Extent of the second grid axis: the output batch count.
    pub batches: u32,
    /// 1 when the first operand carries its own batch dimension, else 0.
    pub a_has_batch: u32,
    /// 1 when the second operand carries its own batch dimension, else 0.
    pub b_has_batch: u32,
}

/// The element of a broadcast operand that the kernel reads for output batch
/// `bi`, intra-batch index `i`: a flagged operand is read at its own batch
/// `bi`, an unflagged one at per-batch offset 0.
pub open spec fn batch_read_offset(has_batch: u32, volume: int, bi: int, i: int) -> int {
    if has_batch != 0 {
        bi * volume + i
    } else {
        i
    }
}

/// What a planned binary launch makes the device compute, elementwise over
/// the flat output: `out[bi * volume + i] = f(a[ra], b[rb])` with `ra`, `rb`
/// the broadcast read offsets.
pub open spec fn broadcast_out<T>(
    f: spec_fn(T, T) -> T,
    a: Seq<T>,
    b: Seq<T>,
    mba: u32,
    mbb: u32,
    volume: int,
    batches: int,
) -> Seq<T> {
    Seq::new((volume * batches) as nat, |j: int|
        f(
            a[batch_read_offset(mba, volume, j / volume, j % volume)],
            b[batch_read_offset(mbb, volume, j / volume, j % volume)],
        ))
}

/// One batch slice of a flat tensor.
pub open spec fn batch_slice<T>(x: Seq<T>, volume: int, bi: int) -> Seq<T> {
    x.subrange(bi * volume, bi * volume + volume)
}

impl MapLaunch {
    pub open spec fn wf(&self) -> bool {
        &&& self.local >= 1
        &&& self.size >= 1
        &&& self.blocks == ceil_div(self.size as int, self.local as int)
        &&& self.blocks * self.local >= self.size
        &&& self.blocks <= self.size
    }
}

impl BroadcastLaunch {
    pub open spec fn wf(&self) -> bool {
        &&& self.local >= 1
        &&& self.volume >= 1
        &&& self.batches >= 1
        &&& self.blocks == ceil_div(self.volume as int, self.local as int)
        &&& self.blocks * self.local >= self.volume
        &&& self.blocks <= self.volume
        &&& self.volume * self.batches <= u32::MAX
        &&& (self.a_has_batch == 0 || self.a_has_batch == 1)
        &&& (self.b_has_batch == 0 || self.b_has_batch == 1)
    }

    /// Flat index of the first operand's element read for output batch `bi`,
    /// intra-batch index `i`.
    pub fn a_offset(&self, bi: u32, i: u32) -> (r: u32)
        requires
            self.wf(),
            bi < self.batches,
            i < self.volume,
        ensures
            r == batch_read_offset(self.a_has_batch, self.volume as int, bi as int, i as int),
            r < self.volume * self.batches,
    {
        proof {
            lemma_offset_in_range(self.volume as int, self.batches as int, bi as int, i as int);
        }
        if self.a_has_batch != 0 {
            bi * self.volume + i
        } else {
            i
        }
    }

    /// Flat index of the second operand's element read for output batch `bi`,
    /// intra-batch index `i`.
    pub fn b_offset(&self, bi: u32, i: u32) -> (r: u32)
        requires
            self.wf(),
            bi < self.batches,
            i < self.volume,
        ensures
            r == batch_read_offset(self.b_has_batch, self.volume as int, bi as int, i as int),
            r < self.volume * self.batches,
    {
        proof {
            lemma_offset_in_range(self.volume as int, self.batches as int, bi as int, i as int);
        }
        if self.b_has_batch != 0 {
            bi * self.volume + i
        } else {
            i
        }
    }
}

proof fn lemma_offset_in_range(volume: int, batches: int, bi: int, i: int)
    requires
        volume >= 1,
        batches >= 1,
        0 <= bi < batches,
        0 <= i < volume,
    ensures
        bi * volume + i < volume * batches,
        i < volume * batches,
{
    assert(bi * volume + i < volume * batches && i < volume * batches) by (nonlinear_arith)
        requires
            volume >= 1,
            batches >= 1,
            0 <= bi < batches,
            0 <= i < volume;
}

/// Plan the one-dimensional launch that visits each of the `size` output
/// elements once: unary forward/backward, constant-operand and in-place
/// constant kernels.
pub fn map_launch(y: &Shape, local: u32) -> (r: MapLaunch)
    requires
        y.wf(),
        local >= 1,
    ensures
        r.wf(),
        r.size == y.spec_size(),
        r.local == local,
{
    proof {
        crate::shape::lemma_prod_prefix_mono(y.dims@, 0, y.dims@.len() as int);
        lemma_mul_inequality(1, y.batch as int, y.spec_volume() as int);
        assert(y.spec_volume() * 1 <= y.spec_volume() * y.batch as nat) by (nonlinear_arith)
            requires y.batch >= 1, y.spec_volume() >= 1;
    }
    let size = y.size();
    let blocks = num_blocks_u32(size, local);
    MapLaunch { size, blocks, local }
}

/// Plan a binary batch-broadcast launch.  The host framework's contract is
/// that the operands' non-batch extents match the output's and that their
/// batch counts are equal or 1, the output carrying the larger; the
/// dispatcher does not re-validate any of that.
pub fn binary_launch(a: &Shape, b: &Shape, y: &Shape, local: u32) -> (r: BroadcastLaunch)
    requires
        a.wf(),
        b.wf(),
        y.wf(),
        local >= 1,
        a.batch == b.batch || a.batch == 1 || b.batch == 1,
        y.batch == if a.batch >= b.batch { a.batch } else { b.batch },
        a.spec_volume() == y.spec_volume(),
        b.spec_volume() == y.spec_volume(),
    ensures
        r.wf(),
        r.volume == y.spec_volume(),
        r.batches == y.batch,
        r.a_has_batch == if a.spec_has_batch() { 1u32 } else { 0u32 },
        r.b_has_batch == if b.spec_has_batch() { 1u32 } else { 0u32 },
{
    proof {
        crate::shape::lemma_prod_prefix_mono(y.dims@, 0, y.dims@.len() as int);
    }
    let volume = y.volume();
    let blocks = num_blocks_u32(volume, local);
    BroadcastLaunch {
        volume,
        blocks,
        local,
        batches: y.batch,
        a_has_batch: if a.has_batch() { 1 } else { 0 },
        b_has_batch: if b.has_batch() { 1 } else { 0 },
    }
}

/// Plan a unary-with-scalar-tensor launch (`y = f(x, k)`): `k` holds one
/// scalar per batch (or one shared scalar), so the kernel reads it at its
/// batch index alone — broadcast with a per-batch volume of 1.
pub fn scalar_launch(x: &Shape, k: &Shape, y: &Shape, local: u32) -> (r: BroadcastLaunch)
    requires
        x.wf(),
        k.wf(),
        y.wf(),
        local >= 1,
        k.spec_volume() == 1,
        x.batch == k.batch || x.batch == 1 || k.batch == 1,
        y.batch == if x.batch >= k.batch { x.batch } else { k.batch },
        x.spec_volume() == y.spec_volume(),
    ensures
        r.wf(),
        r.volume == y.spec_volume(),
        r.batches == y.batch,
        r.a_has_batch == if x.spec_has_batch() { 1u32 } else { 0u32 },
        r.b_has_batch == if k.spec_has_batch() { 1u32 } else { 0u32 },
{
    proof {
        crate::shape::lemma_prod_prefix_mono(y.dims@, 0, y.dims@.len() as int);
    }
    let volume = y.volume();
    let blocks = num_blocks_u32(volume, local);
    BroadcastLaunch {
        volume,
        blocks,
        local,
        batches: y.batch,
        a_has_batch: if x.has_batch() { 1 } else { 0 },
        b_has_batch: if k.has_batch() { 1 } else { 0 },
    }
}

/// Plan an in-place accumulate launch (`y op= x`): the same broadcast kernel
/// shape, with the batch grid axis spanning the larger of the two batch
/// counts.
pub fn assign_launch(x: &Shape, y: &Shape, local: u32) -> (r: BroadcastLaunch)
    requires
        x.wf(),
        y.wf(),
        local >= 1,
        x.batch == y.batch || x.batch == 1 || y.batch == 1,
        x.spec_volume() == y.spec_volume(),
    ensures
        r.wf(),
        r.volume == y.spec_volume(),
        r.batches == if x.batch >= y.batch { x.batch } else { y.batch },
        r.a_has_batch == if x.spec_has_batch() { 1u32 } else { 0u32 },
        r.b_has_batch == if y.spec_has_batch() { 1u32 } else { 0u32 },
{
    proof {
        crate::shape::lemma_prod_prefix_mono(y.dims@, 0, y.dims@.len() as int);
    }
    let volume = y.volume();
    let blocks = num_blocks_u32(volume, local);
    let batches = if x.batch() >= y.batch() { x.batch() } else { y.batch() };
    BroadcastLaunch {
        volume,
        blocks,
        local,
        batches,
        a_has_batch: if x.has_batch() { 1 } else { 0 },
        b_has_batch: if y.has_batch() { 1 } else { 0 },
    }
}

/// Batch-broadcast correctness, one slice at a time: each batch slice of the
/// output is the elementwise combination of operand `a`'s batch slice — slice
/// 0 whenever `a` carries no batch of its own — with operand `b`'s.
pub proof fn lemma_broadcast_slicewise<T>(
    f: spec_fn(T, T) -> T,
    a: Seq<T>,
    b: Seq<T>,
    mba: u32,
    mbb: u32,
    volume: int,
    batches: int,
    bi: int,
)
    requires
        volume >= 1,
        0 <= bi < batches,
        mba == 0 || mba == 1,
        mbb == 0 || mbb == 1,
        a.len() == if mba != 0 { volume * batches } else { volume },
        b.len() == if mbb != 0 { volume * batches } else { volume },
    ensures
        batch_slice(broadcast_out(f, a, b, mba, mbb, volume, batches), volume, bi)
            =~= Seq::new(volume as nat, |i: int|
                f(
                    a[if mba != 0 { bi * volume + i } else { i }],
                    b[if mbb != 0 { bi * volume + i } else { i }],
                )),
{
    let out = broadcast_out(f, a, b, mba, mbb, volume, batches);
    assert(out.len() == volume * batches);
    lemma_offset_in_range(volume, batches, bi, 0);
    assert(bi * volume + volume <= volume * batches) by (nonlinear_arith)
        requires
            volume >= 1,
            0 <= bi < batches;
    let sl = batch_slice(out, volume, bi);
    assert forall|i: int| 0 <= i < volume implies sl[i]
        == f(
            a[if mba != 0 { bi * volume + i } else { i }],
            b[if mbb != 0 { bi * volume + i } else { i }],
        ) by {
        let j = bi * volume + i;
        assert(0 <= j < volume * batches) by (nonlinear_arith)
            requires
                j == bi * volume + i,
                volume >= 1,
                0 <= bi < batches,
                0 <= i < volume;
        assert(j / volume == bi && j % volume == i) by (nonlinear_arith)
            requires
                j == bi * volume + i,
                0 <= i < volume,
                volume >= 1,
                0 <= bi;
        assert(sl[i] == out[j]);
    }
}

/// Broadcast correctness: when operand `a` has batch count 1 against a
/// batched operand `b`, every batch slice `bi` of the planned output is the
/// elementwise combination of `a` itself with `b`'s slice `bi` — that is,
/// `f(a, b)[bi] == f(a, b[bi])` for every slice.
pub proof fn lemma_broadcast_batch_one<T>(
    f: spec_fn(T, T) -> T,
    a: Seq<T>,
    b: Seq<T>,
    volume: int,
    batches: int,
    bi: int,
)
    requires
        volume >= 1,
        0 <= bi < batches,
        a.len() == volume,
        b.len() == volume * batches,
    ensures
        batch_slice(broadcast_out(f, a, b, 0, 1, volume, batches), volume, bi)
            =~= Seq::new(volume as nat, |i: int| f(a[i], b[bi * volume + i])),
{
    lemma_broadcast_slicewise(f, a, b, 0, 1, volume, batches, bi);
}

/// A commutative kernel gives a commutative dispatch: swapping the operands
/// (and with them their has-batch flags) leaves the planned output unchanged.
pub proof fn lemma_broadcast_commutes<T>(
    f: spec_fn(T, T) -> T,
    a: Seq<T>,
    b: Seq<T>,
    mba: u32,
    mbb: u32,
    volume: int,
    batches: int,
)
    requires
        forall|x: T, y: T| #[trigger] f(x, y) == f(y, x),
    ensures
        broadcast_out(f, a, b, mba, mbb, volume, batches)
            =~= broadcast_out(f, b, a, mbb, mba, volume, batches),
{
}

} // verus!
