//! Recursive guillotine partitioning of raster images.
//!
//! An image is cut along the horizontal or vertical line with the strongest
//! visual discontinuity, and the two halves are cut again in turn, until a
//! region is either too small to consider or too uniform to cut. Scores are
//! kept as exact integer sums of per-channel absolute differences, so every
//! comparison the algorithm makes is exact.

use vstd::prelude::*;

pub mod laws;
pub mod partition;
pub mod profile;
pub mod raster;

verus! {

/// Failures the core surfaces to its caller.
#[derive(Clone, Copy, PartialEq, Eq, Structural, Debug)]
pub enum Error {
    /// A difference profile was requested along an axis with fewer than two
    /// lines, so no adjacent pair exists and no maximum is defined.
    EmptyAxis,
    /// An image description with a zero dimension, a ragged row, or a
    /// dimension beyond the supported bound.
    MalformedImage,
}

} // verus!
