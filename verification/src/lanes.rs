//! Lane widths: how many rows of each element type share a block.

use vstd::prelude::*;

verus! {

/// The widest block the store lays out.
pub const MAX_LANES: usize = 1024;

/// The number of lanes per block for each type of lane-packed element:
/// real numbers, packed colors and tick counts.
#[derive(Clone, Copy, PartialEq, Eq, Debug, Structural)]
pub struct LaneWidths {
    pub scalar: usize,
    pub color: usize,
    pub ticks: usize,
}

impl LaneWidths {
    /// Every width is at least one lane and at most [`MAX_LANES`].
    pub open spec fn wf(self) -> bool {
        &&& 1 <= self.scalar <= MAX_LANES
        &&& 1 <= self.color <= MAX_LANES
        &&& 1 <= self.ticks <= MAX_LANES
    }

    /// The width to lay out for a suggested one: the suggestion where it
    /// is between 1 and [`MAX_LANES`], and one lane where there is none or
    /// it is out of that range.
    pub open spec fn lanes_for(suggested: Option<usize>) -> usize {
        match suggested {
            Some(w) => if 1 <= w <= MAX_LANES {
                w
            } else {
                1
            },
            None => 1,
        }
    }

    /// The width to lay out for a suggested one.
    pub fn lanes(suggested: Option<usize>) -> (w: usize)
        ensures
            w == Self::lanes_for(suggested),
            1 <= w <= MAX_LANES,
    {
        match suggested {
            Some(w) => if 1 <= w && w <= MAX_LANES {
                w
            } else {
                1
            },
            None => 1,
        }
    }

    /// The widths for three suggestions.
    pub fn new(scalar: Option<usize>, color: Option<usize>, ticks: Option<usize>) -> (w: LaneWidths)
        ensures
            w.wf(),
            w.scalar == Self::lanes_for(scalar),
            w.color == Self::lanes_for(color),
            w.ticks == Self::lanes_for(ticks),
    {
        LaneWidths {
            scalar: Self::lanes(scalar),
            color: Self::lanes(color),
            ticks: Self::lanes(ticks),
        }
    }

    /// One lane per block throughout: the layout for a host without vector
    /// instructions.
    pub fn single() -> (w: LaneWidths)
        ensures
            w == (LaneWidths { scalar: 1, color: 1, ticks: 1 }),
            w.wf(),
    {
        LaneWidths { scalar: 1, color: 1, ticks: 1 }
    }

    /// The widths for the target this library was built for. The width for
    /// real numbers is the caller's to suggest; those for colors and tick
    /// counts are what the target suggests for 32-bit and 16-bit integers.
    pub fn for_target(scalar: Option<usize>) -> (w: LaneWidths)
        ensures
            w.wf(),
            w.scalar == Self::lanes_for(scalar),
    {
        let (color, ticks) = suggested_integer_lanes();
        LaneWidths::new(scalar, color, ticks)
    }
}

/// `target_features::TargetFeatures::enabled_for_target` and, on its result,
/// `suggested_simd_width` for `i32` and for `i16`: the lane counts that the
/// build target suggests for vectors of 32-bit and of 16-bit integers, each
/// `None` where it has no vector instructions for them. The answer is the
/// build target's, so nothing is claimed of it.
#[verifier::external_body]
fn suggested_integer_lanes() -> (suggested: (Option<usize>, Option<usize>)) {
    let target = target_features::TargetFeatures::enabled_for_target();
    (target.suggested_simd_width::<i32>(), target.suggested_simd_width::<i16>())
}

} // verus!
