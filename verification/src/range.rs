use vstd::prelude::*;

verus! {

/// One bound of an index interval over a single tensor dimension.
#[derive(Clone, Copy, Debug, PartialEq, Eq, Structural)]
pub enum IndexBound {
    Unbounded,
    Included(usize),
    Excluded(usize),
}

/// A range over the indices of one tensor dimension: a tagged variant for
/// every supported range shape. Resolution against a dimension size never
/// fails here; validating the resolved interval against the tensor's shape is
/// the caller's responsibility.
#[derive(Clone, Copy, Debug, PartialEq, Eq, Structural)]
pub enum RangeBound {
    /// Every index of the dimension.
    Full,
    /// All indices from `start` to the end of the dimension.
    StartFrom(usize),
    /// All indices below `end`.
    EndBefore(usize),
    /// All indices up to and including `end`.
    EndAt(usize),
    /// The half-open interval `start..end`.
    Span(usize, usize),
    /// The closed interval `start..=end`.
    SpanInclusive(usize, usize),
    /// The single index `i`, standing for the interval `[i, i+1)`.
    Single(usize),
    /// An explicit pair of bounds.
    Explicit(IndexBound, IndexBound),
}

/// The inclusive start index denoted by a start bound.
pub open spec fn start_of(b: IndexBound) -> int {
    match b {
        IndexBound::Unbounded => 0,
        IndexBound::Included(v) => v as int,
        IndexBound::Excluded(v) => v as int + 1,
    }
}

/// The exclusive end index denoted by an end bound over a dimension of size
/// `dim_size`.
pub open spec fn end_of(b: IndexBound, dim_size: int) -> int {
    match b {
        IndexBound::Unbounded => dim_size,
        IndexBound::Included(v) => v as int + 1,
        IndexBound::Excluded(v) => v as int,
    }
}

impl RangeBound {
    /// The start bound of this range.
    pub open spec fn spec_start_bound(self) -> IndexBound {
        match self {
            RangeBound::Full => IndexBound::Unbounded,
            RangeBound::StartFrom(s) => IndexBound::Included(s),
            RangeBound::EndBefore(_) => IndexBound::Unbounded,
            RangeBound::EndAt(_) => IndexBound::Unbounded,
            RangeBound::Span(s, _) => IndexBound::Included(s),
            RangeBound::SpanInclusive(s, _) => IndexBound::Included(s),
            RangeBound::Single(i) => IndexBound::Included(i),
            RangeBound::Explicit(s, _) => s,
        }
    }

    /// The end bound of this range. A single index `i` carries the end bound
    /// `Included(i)`, which resolves to the exclusive end `i + 1`.
    pub open spec fn spec_end_bound(self) -> IndexBound {
        match self {
            RangeBound::Full => IndexBound::Unbounded,
            RangeBound::StartFrom(_) => IndexBound::Unbounded,
            RangeBound::EndBefore(e) => IndexBound::Excluded(e),
            RangeBound::EndAt(e) => IndexBound::Included(e),
            RangeBound::Span(_, e) => IndexBound::Excluded(e),
            RangeBound::SpanInclusive(_, e) => IndexBound::Included(e),
            RangeBound::Single(i) => IndexBound::Included(i),
            RangeBound::Explicit(_, e) => e,
        }
    }

    /// The inclusive start index this range resolves to.
    pub open spec fn resolved_start(self) -> int {
        start_of(self.spec_start_bound())
    }

    /// The exclusive end index this range resolves to over a dimension of
    /// size `dim_size`.
    pub open spec fn resolved_end(self, dim_size: int) -> int {
        end_of(self.spec_end_bound(), dim_size)
    }

    /// Returns the start bound of this range.
    pub fn start_bound(&self) -> (r: IndexBound)
        ensures
            r == self.spec_start_bound(),
    {
        match self {
            RangeBound::Full => IndexBound::Unbounded,
            RangeBound::StartFrom(s) => IndexBound::Included(*s),
            RangeBound::EndBefore(_) => IndexBound::Unbounded,
            RangeBound::EndAt(_) => IndexBound::Unbounded,
            RangeBound::Span(s, _) => IndexBound::Included(*s),
            RangeBound::SpanInclusive(s, _) => IndexBound::Included(*s),
            RangeBound::Single(i) => IndexBound::Included(*i),
            RangeBound::Explicit(s, _) => *s,
        }
    }

    /// Returns the end bound of this range.
    pub fn end_bound(&self) -> (r: IndexBound)
        ensures
            r == self.spec_end_bound(),
    {
        match self {
            RangeBound::Full => IndexBound::Unbounded,
            RangeBound::StartFrom(_) => IndexBound::Unbounded,
            RangeBound::EndBefore(e) => IndexBound::Excluded(*e),
            RangeBound::EndAt(e) => IndexBound::Included(*e),
            RangeBound::Span(_, e) => IndexBound::Excluded(*e),
            RangeBound::SpanInclusive(_, e) => IndexBound::Included(*e),
            RangeBound::Single(i) => IndexBound::Included(*i),
            RangeBound::Explicit(_, e) => *e,
        }
    }
}

/// A single index `i` resolves to the interval `[i, i+1)`: exactly the
/// interval that the half-open range `i..i+1` resolves to, on every dimension
/// size.
pub proof fn lemma_single_index_resolution(i: usize, dim_size: int)
    ensures
        RangeBound::Single(i).resolved_start() == i,
        RangeBound::Single(i).resolved_end(dim_size) == i + 1,
        RangeBound::Single(i).resolved_start() == RangeBound::Span(i, (i + 1) as usize).resolved_start(),
        i < usize::MAX ==> RangeBound::Single(i).resolved_end(dim_size)
            == RangeBound::Span(i, (i + 1) as usize).resolved_end(dim_size),
{
}

} // verus!
