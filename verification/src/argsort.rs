//! Rank-ordering launch planning: a full bitonic sorting network over one
//! axis, producing a permutation of indices.
//!
//! The axis is padded to the next power of two, an index buffer of that width
//! per reduction group is initialized, and then one kernel pass runs for each
//! `(block, dist)` step of the network: `block` doubling from 2 up to the
//! padded width, and within each block size `dist` halving from `block / 2`
//! down to 1.  All passes are enqueued up front and ordered by the queue.

use vstd::prelude::*;
use vstd::arithmetic::div_mod::lemma_fundamental_div_mod;
use crate::launch::ceil_div;
use crate::launch::num_blocks_u32;
use crate::shape::Shape;
use crate::shape::lemma_lower_volume_bounds;

verus! {

/// The smallest power of two at least `len`, found by doubling from `p`.
pub open spec fn grow_pow2(p: int, len: int) -> int
    decreases 2 * len - p
        when p >= 1 && len >= 1
{
    if p >= len {
        p
    } else {
        grow_pow2(2 * p, len)
    }
}

proof fn lemma_grow_pow2(p: int, len: int)
    requires
        1 <= p,
        1 <= len,
        p < 2 * len,
    ensures
        len <= grow_pow2(p, len) < 2 * len,
        grow_pow2(p, len) >= p,
    decreases 2 * len - p,
{
    if p < len {
        lemma_grow_pow2(2 * p, len);
    }
}

/// The compare-and-swap pass sequence for one block size: `dist` halves from
/// `d` down to 1.
pub open spec fn block_passes(block: u32, d: u32) -> Seq<(u32, u32)>
    decreases d,
{
    if d < 1 {
        Seq::empty()
    } else {
        seq![(block, d)] + block_passes(block, d / 2)
    }
}

/// The whole network schedule from block size `block` up to `idx_len`.
pub open spec fn bitonic_schedule(block: int, idx_len: u32) -> Seq<(u32, u32)>
    decreases 2 * idx_len as int - block
        when block >= 2
{
    if block > idx_len {
        Seq::empty()
    } else {
        block_passes(block as u32, (block / 2) as u32) + bitonic_schedule(2 * block, idx_len)
    }
}

/// One rank-order dispatch: an index-buffer initialization launch followed by
/// the full network of compare-and-swap passes, every pass a launch of
/// `main_blocks` work-groups over half the index buffer.
pub struct ArgsortPlan {
    /// Length of the sorted axis.
    pub axis_len: u32,
    /// The axis length padded up to the next power of two; entries past
    /// `axis_len` are unordered sentinels.
    pub idx_len: u32,
    /// Linear stride between consecutive axis coordinates.
    pub skip: u32,
    /// Total element count of the input tensor.
    pub size: u32,
    /// Total width of the transient index buffer: one padded axis per group.
    pub idx_size: u32,
    /// Work-group count of the initialization launch, covering `idx_size`.
    pub init_blocks: u32,
    /// Work-group count of each network pass, covering `idx_size / 2` —
    /// one lane per compare-and-swap pair.
    pub main_blocks: u32,
    /// Work-group width the kernels were compiled for.
    pub local: u32,
    /// The `(block, dist)` schedule, in launch order.
    pub passes: Vec<(u32, u32)>,
}

/// Plan the rank-ordering of axis `dim` of `x`.  The transient index buffer
/// must fit the device's 32-bit sizes even after padding, which bounds the
/// group count times the padded axis length.
pub fn argsort_plan(x: &Shape, dim: u32, local: u32) -> (r: ArgsortPlan)
    requires
        x.wf(),
        local >= 1,
        (x.spec_size() / x.spec_at(dim as int) as nat)
            * grow_pow2(1, x.spec_at(dim as int) as int) as nat <= u32::MAX,
    ensures
        r.axis_len == x.spec_at(dim as int),
        r.idx_len == grow_pow2(1, x.spec_at(dim as int) as int),
        r.axis_len <= r.idx_len < 2 * r.axis_len,
        r.skip == x.spec_lower_volume(dim as int),
        r.size == x.spec_size(),
        r.idx_size == (x.spec_size() / r.axis_len as nat) * r.idx_len as nat,
        r.idx_size >= 1,
        r.init_blocks == ceil_div(r.idx_size as int, local as int),
        r.main_blocks == ceil_div(r.idx_size as int / 2, local as int),
        r.local == local,
        r.passes@ == bitonic_schedule(2, r.idx_len),
{
    proof {
        lemma_lower_volume_bounds(x, dim as int);
        assert(x.spec_at(dim as int) as nat * 1 <= x.spec_at(dim as int) as nat
            * x.spec_lower_volume(dim as int)) by (nonlinear_arith)
            requires x.spec_lower_volume(dim as int) >= 1;
        assert(x.spec_at(dim as int) as nat * x.spec_lower_volume(dim as int)
            == x.spec_lower_volume(dim as int) * x.spec_at(dim as int) as nat)
            by (nonlinear_arith);
        lemma_grow_pow2(1, x.spec_at(dim as int) as int);
        let at = x.spec_at(dim as int) as int;
        let q = x.spec_size() as int / at;
        lemma_fundamental_div_mod(x.spec_size() as int, at);
        let m = x.spec_size() as int % at;
        assert(q >= 1) by (nonlinear_arith)
            requires
                x.spec_size() as int == at * q + m,
                0 <= m,
                m < at,
                x.spec_size() >= at >= 1;
        assert(grow_pow2(1, at) <= u32::MAX) by (nonlinear_arith)
            requires
                q * grow_pow2(1, at) <= u32::MAX,
                q >= 1,
                grow_pow2(1, at) >= 1;
    }
    let len = x.at(dim);
    let ghost target = grow_pow2(1, len as int);
    let mut idx_len: u32 = 1;
    while idx_len < len
        invariant
            1 <= idx_len,
            len >= 1,
            idx_len as int <= target,
            grow_pow2(idx_len as int, len as int) == target,
            target < 2 * len as int,
            target <= u32::MAX,
        decreases 2 * len as int - idx_len as int,
    {
        proof {
            assert(grow_pow2(idx_len as int, len as int)
                == grow_pow2(2 * idx_len as int, len as int));
            lemma_grow_pow2(2 * idx_len as int, len as int);
        }
        idx_len = idx_len * 2;
    }
    proof {
        assert(grow_pow2(idx_len as int, len as int) == idx_len as int);
    }
    let size = x.size();
    let groups = size / len;
    proof {
        lemma_fundamental_div_mod(size as int, len as int);
        let m = size as int % len as int;
        assert(groups >= 1) by (nonlinear_arith)
            requires
                size as int == len as int * groups as int + m,
                0 <= m,
                m < len as int,
                size >= len >= 1,
                groups == size as int / len as int;
        assert(groups as nat * idx_len as nat >= 1) by (nonlinear_arith)
            requires groups >= 1, idx_len >= 1;
    }
    let idx_size = groups * idx_len;
    let init_blocks = num_blocks_u32(idx_size, local);
    let main_blocks: u32 = if idx_size / 2 == 0 {
        proof {
            assert(ceil_div(0, local as int) == 0) by (nonlinear_arith)
                requires local >= 1;
        }
        0
    } else {
        num_blocks_u32(idx_size / 2, local)
    };
    let passes = bitonic_pass_list(idx_len);
    ArgsortPlan {
        axis_len: len,
        idx_len,
        skip: x.lower_volume(dim),
        size,
        idx_size,
        init_blocks,
        main_blocks,
        local,
        passes,
    }
}

/// Materialize the network schedule: for each block size 2, 4, ..., `idx_len`
/// the compare distances `block / 2`, ..., 2, 1 in order.
fn bitonic_pass_list(idx_len: u32) -> (r: Vec<(u32, u32)>)
    requires
        idx_len >= 1,
    ensures
        r@ == bitonic_schedule(2, idx_len),
{
    let mut r: Vec<(u32, u32)> = Vec::new();
    let mut block: u32 = 2;
    while block <= idx_len
        invariant
            2 <= block,
            r@ + bitonic_schedule(block as int, idx_len) == bitonic_schedule(2, idx_len),
        decreases 2 * idx_len as int - block as int,
    {
        assert(bitonic_schedule(block as int, idx_len)
            == block_passes(block, block / 2) + bitonic_schedule(2 * block as int, idx_len));
        let mut dist: u32 = block / 2;
        while dist >= 1
            invariant
                block >= 2,
                r@ + block_passes(block, dist) + bitonic_schedule(2 * block as int, idx_len)
                    == bitonic_schedule(2, idx_len),
            decreases dist,
        {
            assert(block_passes(block, dist)
                == seq![(block, dist)] + block_passes(block, dist / 2));
            let ghost r_old = r@;
            r.push((block, dist));
            proof {
                assert(r@ + block_passes(block, dist / 2)
                    =~= r_old + block_passes(block, dist));
            }
            dist = dist / 2;
        }
        proof {
            assert(block_passes(block, 0) == Seq::<(u32, u32)>::empty());
            assert(r@ + Seq::<(u32, u32)>::empty() =~= r@);
        }
        if block > idx_len / 2 {
            proof {
                assert(2 * block as int > idx_len) by (nonlinear_arith)
                    requires block as int > idx_len as int / 2;
                assert(bitonic_schedule(2 * block as int, idx_len)
                    == Seq::<(u32, u32)>::empty());
                assert(r@ + Seq::<(u32, u32)>::empty() =~= r@);
            }
            return r;
        }
        proof {
            assert(2 * block as int <= idx_len) by (nonlinear_arith)
                requires block as int <= idx_len as int / 2;
        }
        block = block * 2;
    }
    proof {
        assert(bitonic_schedule(block as int, idx_len) == Seq::<(u32, u32)>::empty());
        assert(r@ + Seq::<(u32, u32)>::empty() =~= r@);
    }
    r
}


/// Every pass the schedule emits is a well-formed network step: the block
/// size is at least 2 and never exceeds the padded axis width, and the
/// compare distance is at least 1 and stays below its block.
pub proof fn lemma_schedule_passes_well_formed(block: int, idx_len: u32)
    requires
        block >= 2,
    ensures
        forall|p: int| 0 <= p < bitonic_schedule(block, idx_len).len()
            ==> {
                let pass = #[trigger] bitonic_schedule(block, idx_len)[p];
                &&& block <= pass.0 <= idx_len
                &&& 1 <= pass.1 < pass.0
            },
    decreases 2 * idx_len as int - block,
{
    if block > idx_len {
    } else {
        lemma_block_passes_well_formed(block as u32, (block / 2) as u32);
        lemma_schedule_passes_well_formed(2 * block, idx_len);
        let all = bitonic_schedule(block, idx_len);
        let head = block_passes(block as u32, (block / 2) as u32);
        let tail = bitonic_schedule(2 * block, idx_len);
        assert forall|p: int| 0 <= p < all.len() implies {
            let pass = #[trigger] all[p];
            &&& block <= pass.0 <= idx_len
            &&& 1 <= pass.1 < pass.0
        } by {
            if p < head.len() {
                assert(all[p] == head[p]);
            } else {
                assert(all[p] == tail[p - head.len()]);
            }
        }
    }
}

/// Within one block size the distances run `block / 2`, ..., 2, 1.
proof fn lemma_block_passes_well_formed(block: u32, d: u32)
    requires
        block >= 2,
        d < block,
    ensures
        forall|p: int| 0 <= p < block_passes(block, d).len()
            ==> {
                let pass = #[trigger] block_passes(block, d)[p];
                &&& pass.0 == block
                &&& 1 <= pass.1 <= d
            },
    decreases d,
{
    if d >= 1 {
        lemma_block_passes_well_formed(block, d / 2);
        let all = block_passes(block, d);
        let tail = block_passes(block, d / 2);
        assert(all == seq![(block, d)] + tail);
        assert forall|p: int| 0 <= p < all.len() implies {
            let pass = #[trigger] all[p];
            &&& pass.0 == block
            &&& 1 <= pass.1 <= d
        } by {
            if p == 0 {
                assert(all[p] == (block, d));
            } else {
                assert(all[p] == tail[p - 1]);
            }
        }
    }
}

} // verus!
