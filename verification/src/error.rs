use vstd::prelude::*;

verus! {

/// Errors reported by tensor construction and by the slice-assignment engine.
///
/// All of these are caller errors: they are detected by validation that runs
/// before any new storage is allocated, so a failing call produces no partial
/// state.
#[derive(Clone, Copy, Debug, PartialEq, Eq, Structural)]
pub enum Error {
    /// The destination and source tensors have different ranks.
    RankMismatch { tensor_rank: usize, src_rank: usize },
    /// The number of ranges differs from the rank of the destination tensor.
    RangeCountMismatch { rank: usize, n_ranges: usize },
    /// A range resolved to an empty interval on the given dimension.
    EmptyRange { dim: usize },
    /// A range resolved to an end past the size of the given dimension.
    OutOfBounds { dim: usize },
    /// A range's width differs from the source size on the given dimension.
    SizeMismatch { dim: usize },
    /// A shape's element count differs from the length of the supplied data.
    ShapeMismatch,
}

} // verus!
