use vstd::prelude::*;

verus! {

/// Failure taxonomy of the stacking pipeline.  Every core algorithm surfaces
/// its failures as one of these values; nothing is retried or swallowed.
#[derive(Clone, Copy, Debug, PartialEq, Eq, Structural)]
pub enum PipelineError {
    /// Bad parameters: an empty feature set, or a probe target above its ceiling.
    InvalidInput,
    /// Fewer than the four accepted matches a projective fit needs.
    InsufficientCorrespondences,
    /// The external transform solver did not converge.
    EstimationFailure,
    /// Frames of unequal size were handed to the stacker.
    DimensionMismatch,
    /// Raster decode, encode or file discovery failed.
    IoFailure,
}

} // verus!
