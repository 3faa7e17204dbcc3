//! Pseudo-random stream sizing.
//!
//! One shared xorshift state array serves every distribution fill: four state
//! words per lane, one lane per work-item of the initialization kernel's
//! compiled group width, seeded once at backend construction with one
//! host-generated seed per lane.  The fill launches themselves are plain
//! one-dimensional elementwise launches over the output.

use vstd::prelude::*;

verus! {

/// Sizing of the shared generator state: the initialization kernel runs one
/// group of `lanes` work-items, each owning four state words.
pub struct RandomStatePlan {
    /// Work-items of the initialization launch, and host seeds required.
    pub lanes: u32,
    /// Device words of generator state: four per lane.
    pub state_words: u32,
}

/// Plan the generator-state initialization for an initialization kernel
/// compiled to a group width of `lanes`.
pub fn random_state_plan(lanes: u32) -> (r: RandomStatePlan)
    requires
        1 <= lanes,
        4 * lanes <= u32::MAX,
    ensures
        r.lanes == lanes,
        r.state_words == 4 * lanes,
{
    RandomStatePlan { lanes, state_words: 4 * lanes }
}

} // verus!
