use vstd::prelude::*;

use crate::error::Error;
use crate::range::{IndexBound, RangeBound};
use crate::shape::{flat_index, lemma_flat_index_bounds, lemma_numel_le, valid_index};
use crate::tensor::Tensor;

verus! {

/// The inclusive start index that each range resolves to.
pub open spec fn resolved_starts(ranges: Seq<RangeBound>) -> Seq<int> {
    Seq::new(ranges.len(), |i: int| ranges[i].resolved_start())
}

/// The exclusive end index that each range resolves to, over the matching
/// dimension of `shape`.
pub open spec fn resolved_ends(ranges: Seq<RangeBound>, shape: Seq<usize>) -> Seq<int> {
    Seq::new(ranges.len(), |i: int| ranges[i].resolved_end(shape[i] as int))
}

/// Range `i` resolves on `shape` to a non-empty interval that lies within
/// dimension `i` and is exactly as wide as the source's dimension `i`.
pub open spec fn dim_ok(
    shape: Seq<usize>,
    src_shape: Seq<usize>,
    ranges: Seq<RangeBound>,
    i: int,
) -> bool {
    let s = ranges[i].resolved_start();
    let e = ranges[i].resolved_end(shape[i] as int);
    &&& s < e
    &&& e <= shape[i]
    &&& e - s == src_shape[i]
}

/// Every range resolves to a valid interval of the right width.
pub open spec fn ranges_ok(shape: Seq<usize>, src_shape: Seq<usize>, ranges: Seq<RangeBound>) -> bool {
    forall|i: int| 0 <= i < ranges.len() ==> #[trigger] dim_ok(shape, src_shape, ranges, i)
}

/// `idx` lies inside the slice on every coordinate below `d`.
pub open spec fn in_slice_upto(starts: Seq<int>, ends: Seq<int>, idx: Seq<int>, d: int) -> bool {
    forall|k: int| 0 <= k < d ==> starts[k] <= #[trigger] idx[k] < ends[k]
}

/// `idx` lies inside the slice on every coordinate.
pub open spec fn in_slice(starts: Seq<int>, ends: Seq<int>, idx: Seq<int>) -> bool {
    in_slice_upto(starts, ends, idx, idx.len() as int)
}

/// `idx` with every coordinate below `d` shifted down to the start of the
/// slice.
pub open spec fn shifted_upto(idx: Seq<int>, starts: Seq<int>, d: int) -> Seq<int> {
    Seq::new(idx.len(), |k: int| if k < d { idx[k] - starts[k] } else { idx[k] })
}

/// `idx` with every coordinate shifted down to the start of the slice.
pub open spec fn shifted(idx: Seq<int>, starts: Seq<int>) -> Seq<int> {
    shifted_upto(idx, starts, idx.len() as int)
}

/// Resolves every range against `shape` and validates it, reporting the
/// first failure, dimension by dimension: an empty interval, then an end past
/// the dimension, then a width that differs from the source dimension.
pub(crate) fn resolve_ranges(
    shape: &Vec<usize>,
    src_shape: &Vec<usize>,
    ranges: &Vec<RangeBound>,
) -> (r: Result<(Vec<usize>, Vec<usize>), Error>)
    requires
        shape@.len() == src_shape@.len(),
        ranges@.len() == shape@.len(),
    ensures
        r matches Ok(se) ==> {
            &&& se.0@.len() == ranges@.len()
            &&& se.1@.len() == ranges@.len()
            &&& forall|j: int|
                0 <= j < ranges@.len() ==> #[trigger] se.0@[j] == resolved_starts(ranges@)[j]
            &&& forall|j: int|
                0 <= j < ranges@.len() ==> #[trigger] se.1@[j] == resolved_ends(ranges@, shape@)[j]
        },
        r is Ok <==> ranges_ok(shape@, src_shape@, ranges@),
        r matches Err(e) ==> match e {
            Error::EmptyRange { dim } => {
                &&& 0 <= dim < ranges@.len()
                &&& forall|j: int|
                    0 <= j < dim ==> #[trigger] dim_ok(shape@, src_shape@, ranges@, j)
                &&& ranges@[dim as int].resolved_end(shape@[dim as int] as int)
                    <= ranges@[dim as int].resolved_start()
            },
            Error::OutOfBounds { dim } => {
                &&& 0 <= dim < ranges@.len()
                &&& forall|j: int|
                    0 <= j < dim ==> #[trigger] dim_ok(shape@, src_shape@, ranges@, j)
                &&& ranges@[dim as int].resolved_start() < ranges@[dim as int].resolved_end(
                    shape@[dim as int] as int,
                )
                &&& ranges@[dim as int].resolved_end(shape@[dim as int] as int)
                    > shape@[dim as int]
            },
            Error::SizeMismatch { dim } => {
                &&& 0 <= dim < ranges@.len()
                &&& forall|j: int|
                    0 <= j < dim ==> #[trigger] dim_ok(shape@, src_shape@, ranges@, j)
                &&& ranges@[dim as int].resolved_start() < ranges@[dim as int].resolved_end(
                    shape@[dim as int] as int,
                )
                &&& ranges@[dim as int].resolved_end(shape@[dim as int] as int)
                    <= shape@[dim as int]
                &&& ranges@[dim as int].resolved_end(shape@[dim as int] as int)
                    - ranges@[dim as int].resolved_start() != src_shape@[dim as int]
            },
            _ => false,
        },
{
    let rank = shape.len();
    let mut starts: Vec<usize> = Vec::new();
    let mut ends: Vec<usize> = Vec::new();
    let mut i: usize = 0;
    while i < rank
        invariant
            0 <= i <= rank,
            rank == shape@.len(),
            shape@.len() == src_shape@.len(),
            ranges@.len() == shape@.len(),
            starts@.len() == i,
            ends@.len() == i,
            forall|j: int| 0 <= j < i ==> #[trigger] starts@[j] == resolved_starts(ranges@)[j],
            forall|j: int| 0 <= j < i ==> #[trigger] ends@[j] == resolved_ends(ranges@, shape@)[j],
            forall|j: int| 0 <= j < i ==> #[trigger] dim_ok(shape@, src_shape@, ranges@, j),
        decreases rank - i,
    {
        let dim_size = shape[i];
        let start: usize = match ranges[i].start_bound() {
            IndexBound::Unbounded => 0,
            IndexBound::Included(v) => v,
            IndexBound::Excluded(v) => {
                if v == usize::MAX {
                    proof {
                        assert(!dim_ok(shape@, src_shape@, ranges@, i as int));
                        assert(ranges_ok(shape@, src_shape@, ranges@) ==> dim_ok(
                            shape@,
                            src_shape@,
                            ranges@,
                            i as int,
                        ));
                    }
                    // the resolved start exceeds every possible end
                    return Err(Error::EmptyRange { dim: i });
                }
                v + 1
            },
        };
        let end: usize = match ranges[i].end_bound() {
            IndexBound::Unbounded => dim_size,
            IndexBound::Excluded(v) => v,
            IndexBound::Included(v) => {
                if v == usize::MAX {
                    proof {
                        assert(!dim_ok(shape@, src_shape@, ranges@, i as int));
                        assert(ranges_ok(shape@, src_shape@, ranges@) ==> dim_ok(
                            shape@,
                            src_shape@,
                            ranges@,
                            i as int,
                        ));
                    }
                    // the resolved end exceeds the dimension but not the start
                    return Err(Error::OutOfBounds { dim: i });
                }
                v + 1
            },
        };
        proof {
            assert(start == ranges@[i as int].resolved_start());
            assert(end == ranges@[i as int].resolved_end(shape@[i as int] as int));
        }
        if end <= start {
            proof {
                assert(!dim_ok(shape@, src_shape@, ranges@, i as int));
                assert(ranges_ok(shape@, src_shape@, ranges@) ==> dim_ok(
                    shape@,
                    src_shape@,
                    ranges@,
                    i as int,
                ));
            }
            return Err(Error::EmptyRange { dim: i });
        }
        if dim_size < end {
            proof {
                assert(!dim_ok(shape@, src_shape@, ranges@, i as int));
                assert(ranges_ok(shape@, src_shape@, ranges@) ==> dim_ok(
                    shape@,
                    src_shape@,
                    ranges@,
                    i as int,
                ));
            }
            return Err(Error::OutOfBounds { dim: i });
        }
        if end - start != src_shape[i] {
            proof {
                assert(!dim_ok(shape@, src_shape@, ranges@, i as int));
                assert(ranges_ok(shape@, src_shape@, ranges@) ==> dim_ok(
                    shape@,
                    src_shape@,
                    ranges@,
                    i as int,
                ));
            }
            return Err(Error::SizeMismatch { dim: i });
        }
        proof {
            assert(dim_ok(shape@, src_shape@, ranges@, i as int));
        }
        starts.push(start);
        ends.push(end);
        proof {
            assert(starts@[i as int] == start);
            assert(ends@[i as int] == end);
        }
        i += 1;
    }
    let r2 = (starts, ends);
    proof {
        assert(ranges_ok(shape@, src_shape@, ranges@));
        assert(forall|j: int|
            0 <= j < ranges@.len() ==> #[trigger] r2.0@[j] == resolved_starts(ranges@)[j]);
        assert(forall|j: int|
            0 <= j < ranges@.len() ==> #[trigger] r2.1@[j] == resolved_ends(ranges@, shape@)[j]);
    }
    Ok(r2)
}

/// One padding step of the slice-assignment engine: once dimension `d` has
/// been padded out to the destination size, an element holds the base
/// tensor's value where the first `d + 1` coordinates lie inside the slice,
/// and zero elsewhere.
proof fn lemma_pad_step(
    cur: Tensor,
    cur2: Tensor,
    base: Tensor,
    s: Seq<usize>,
    starts: Seq<int>,
    ends: Seq<int>,
    d: int,
)
    requires
        0 <= d < s.len(),
        cur.shape_view().len() == s.len(),
        base.shape_view().len() == s.len(),
        starts.len() == s.len(),
        ends.len() == s.len(),
        forall|k: int|
            0 <= k < s.len() ==> #[trigger] cur.shape_view()[k] == (if k < d {
                s[k]
            } else {
                base.shape_view()[k]
            }),
        forall|k: int|
            0 <= k < s.len() ==> 0 <= #[trigger] starts[k] && starts[k] < ends[k] && ends[k]
                <= s[k] && ends[k] - starts[k] == base.shape_view()[k],
        forall|idx: Seq<int>|
            #[trigger] valid_index(cur.shape_view(), idx) ==> cur.elem(idx) == (if in_slice_upto(
                starts,
                ends,
                idx,
                d,
            ) {
                base.elem(shifted_upto(idx, starts, d))
            } else {
                0
            }),
        cur2.shape_view() == cur.shape_view().update(d, s[d]),
        forall|idx: Seq<int>|
            #[trigger] valid_index(cur2.shape_view(), idx) ==> cur2.elem(idx) == (if starts[d]
                <= idx[d] && idx[d] < ends[d] {
                cur.elem(idx.update(d, idx[d] - starts[d]))
            } else {
                0
            }),
    ensures
        cur2.shape_view().len() == s.len(),
        forall|k: int|
            0 <= k < s.len() ==> #[trigger] cur2.shape_view()[k] == (if k < d + 1 {
                s[k]
            } else {
                base.shape_view()[k]
            }),
        forall|idx: Seq<int>|
            #[trigger] valid_index(cur2.shape_view(), idx) ==> cur2.elem(idx) == (if in_slice_upto(
                starts,
                ends,
                idx,
                d + 1,
            ) {
                base.elem(shifted_upto(idx, starts, d + 1))
            } else {
                0
            }),
{
    assert forall|idx: Seq<int>| #[trigger] valid_index(cur2.shape_view(), idx) implies cur2.elem(
        idx,
    ) == (if in_slice_upto(starts, ends, idx, d + 1) {
        base.elem(shifted_upto(idx, starts, d + 1))
    } else {
        0
    }) by {
        if starts[d] <= idx[d] && idx[d] < ends[d] {
            let idx2 = idx.update(d, idx[d] - starts[d]);
            assert forall|k: int| 0 <= k < s.len() implies 0 <= #[trigger] idx2[k]
                < cur.shape_view()[k] by {
                if k == d {
                    assert(idx2[d] == idx[d] - starts[d]);
                    assert(cur.shape_view()[d] == base.shape_view()[d]);
                } else {
                    assert(idx2[k] == idx[k]);
                    assert(cur.shape_view()[k] == cur2.shape_view()[k]);
                }
            }
            assert(valid_index(cur.shape_view(), idx2));
            if in_slice_upto(starts, ends, idx, d) {
                assert forall|k: int| 0 <= k < d implies starts[k] <= #[trigger] idx2[k]
                    < ends[k] by {
                    assert(idx2[k] == idx[k]);
                }
                assert(in_slice_upto(starts, ends, idx2, d));
                assert(shifted_upto(idx2, starts, d) =~= shifted_upto(idx, starts, d + 1));
                assert(in_slice_upto(starts, ends, idx, d + 1));
                assert(cur2.elem(idx) == base.elem(shifted_upto(idx, starts, d + 1)));
            } else {
                assert(!in_slice_upto(starts, ends, idx2, d)) by {
                    if in_slice_upto(starts, ends, idx2, d) {
                        assert forall|k: int| 0 <= k < d implies starts[k] <= #[trigger] idx[k]
                            < ends[k] by {
                            assert(idx2[k] == idx[k]);
                        }
                        assert(in_slice_upto(starts, ends, idx, d));
                    }
                }
                if in_slice_upto(starts, ends, idx, d + 1) {
                    assert(in_slice_upto(starts, ends, idx, d));
                    assert(false);
                }
                assert(cur2.elem(idx) == 0);
            }
        } else {
            if in_slice_upto(starts, ends, idx, d + 1) {
                assert(starts[d] <= idx[d] < ends[d]);
                assert(false);
            }
            assert(cur2.elem(idx) == 0);
        }
    }
}

impl Tensor {
    /// Returns a copy of this tensor in which the sub-region described by
    /// `ranges` — one range per dimension — has been replaced by the elements
    /// of `src`; every element outside that region keeps this tensor's value.
    /// Neither input is modified. Validation runs in full before any new
    /// tensor is built: a rank mismatch first, then a range-count mismatch,
    /// then, dimension by dimension, an empty range, an end past the
    /// dimension, and a width that differs from the matching dimension of
    /// `src`. The region is then filled by zero-padding `src` and an all-ones
    /// mask out to this tensor's shape, one dimension at a time, and selecting
    /// elementwise between the padded source and this tensor.
    #[verifier::loop_isolation(false)]
    pub fn slice_assign(&self, ranges: &Vec<RangeBound>, src: &Tensor) -> (r: Result<
        Tensor,
        Error,
    >)
        requires
            self.wf(),
            src.wf(),
        ensures
            r matches Ok(out) ==> {
                &&& out.wf()
                &&& out.shape_view() == self.shape_view()
                &&& forall|idx: Seq<int>|
                    #[trigger] valid_index(self.shape_view(), idx) ==> out.elem(idx) == (
                    if in_slice(
                        resolved_starts(ranges@),
                        resolved_ends(ranges@, self.shape_view()),
                        idx,
                    ) {
                        src.elem(shifted(idx, resolved_starts(ranges@)))
                    } else {
                        self.elem(idx)
                    })
            },
            r is Ok <==> (self.rank_spec() == src.rank_spec() && ranges@.len() == self.rank_spec()
                && ranges_ok(self.shape_view(), src.shape_view(), ranges@)),
            r matches Err(e) ==> match e {
                Error::RankMismatch { tensor_rank, src_rank } => {
                    &&& tensor_rank == self.rank_spec()
                    &&& src_rank == src.rank_spec()
                    &&& self.rank_spec() != src.rank_spec()
                },
                Error::RangeCountMismatch { rank, n_ranges } => {
                    &&& self.rank_spec() == src.rank_spec()
                    &&& rank == self.rank_spec()
                    &&& n_ranges == ranges@.len()
                    &&& ranges@.len() != self.rank_spec()
                },
                Error::EmptyRange { dim } => {
                    &&& self.rank_spec() == src.rank_spec()
                    &&& ranges@.len() == self.rank_spec()
                    &&& 0 <= dim < ranges@.len()
                    &&& forall|j: int|
                        0 <= j < dim ==> #[trigger] dim_ok(
                            self.shape_view(),
                            src.shape_view(),
                            ranges@,
                            j,
                        )
                    &&& ranges@[dim as int].resolved_end(self.shape_view()[dim as int] as int)
                        <= ranges@[dim as int].resolved_start()
                },
                Error::OutOfBounds { dim } => {
                    &&& self.rank_spec() == src.rank_spec()
                    &&& ranges@.len() == self.rank_spec()
                    &&& 0 <= dim < ranges@.len()
                    &&& forall|j: int|
                        0 <= j < dim ==> #[trigger] dim_ok(
                            self.shape_view(),
                            src.shape_view(),
                            ranges@,
                            j,
                        )
                    &&& ranges@[dim as int].resolved_start() < ranges@[dim as int].resolved_end(
                        self.shape_view()[dim as int] as int,
                    )
                    &&& ranges@[dim as int].resolved_end(self.shape_view()[dim as int] as int)
                        > self.shape_view()[dim as int]
                },
                Error::SizeMismatch { dim } => {
                    &&& self.rank_spec() == src.rank_spec()
                    &&& ranges@.len() == self.rank_spec()
                    &&& 0 <= dim < ranges@.len()
                    &&& forall|j: int|
                        0 <= j < dim ==> #[trigger] dim_ok(
                            self.shape_view(),
                            src.shape_view(),
                            ranges@,
                            j,
                        )
                    &&& ranges@[dim as int].resolved_start() < ranges@[dim as int].resolved_end(
                        self.shape_view()[dim as int] as int,
                    )
                    &&& ranges@[dim as int].resolved_end(self.shape_view()[dim as int] as int)
                        <= self.shape_view()[dim as int]
                    &&& ranges@[dim as int].resolved_end(self.shape_view()[dim as int] as int)
                        - ranges@[dim as int].resolved_start() != src.shape_view()[dim as int]
                },
                _ => false,
            },
    {
        let rank = self.rank();
        if rank != src.rank() {
            return Err(Error::RankMismatch { tensor_rank: rank, src_rank: src.rank() });
        }
        if ranges.len() != rank {
            return Err(Error::RangeCountMismatch { rank, n_ranges: ranges.len() });
        }
        let se = match resolve_ranges(self.dims(), src.dims(), ranges) {
            Ok(se) => se,
            Err(e) => {
                return Err(e);
            },
        };
        let starts = se.0;
        let ends = se.1;
        let ghost s = self.shape_view();
        let ghost ss = src.shape_view();
        let ghost starts_i = resolved_starts(ranges@);
        let ghost ends_i = resolved_ends(ranges@, s);
        proof {
            assert forall|k: int|
                0 <= k < rank implies s[k] >= 1 && ss[k] >= 1 && #[trigger] ss[k] <= s[k] && 0
                    <= starts_i[k] && starts_i[k] < ends_i[k] && ends_i[k] <= s[k] && ends_i[k]
                    - starts_i[k] == ss[k] by {
                assert(dim_ok(s, ss, ranges@, k));
            }
        }
        let total = self.values().len();
        let src_total = src.values().len();
        proof {
            lemma_numel_le(ss, s);
        }
        let mut cur_src = src.duplicate();
        let mut cur_mask = Tensor::ones(src.dims());
        let ghost mask0 = cur_mask;
        proof {
            assert forall|idx: Seq<int>|
                #[trigger] valid_index(cur_src.shape_view(), idx) implies cur_src.elem(idx) == (
            if in_slice_upto(starts_i, ends_i, idx, 0) {
                src.elem(shifted_upto(idx, starts_i, 0))
            } else {
                0
            }) by {
                assert(shifted_upto(idx, starts_i, 0) =~= idx);
                assert(in_slice_upto(starts_i, ends_i, idx, 0));
                assert(cur_src.elem(idx) == src.elem(idx));
            }
            assert forall|idx: Seq<int>|
                #[trigger] valid_index(cur_mask.shape_view(), idx) implies cur_mask.elem(idx) == (
            if in_slice_upto(starts_i, ends_i, idx, 0) {
                mask0.elem(shifted_upto(idx, starts_i, 0))
            } else {
                0
            }) by {
                assert(shifted_upto(idx, starts_i, 0) =~= idx);
                assert(in_slice_upto(starts_i, ends_i, idx, 0));
            }
        }
        let mut d: usize = 0;
        while d < rank
            invariant
                0 <= d <= rank,
                cur_src.wf(),
                cur_mask.wf(),
                cur_src.shape_view().len() == rank,
                cur_mask.shape_view() == cur_src.shape_view(),
                forall|k: int|
                    0 <= k < rank ==> #[trigger] cur_src.shape_view()[k] == (if k < d {
                        s[k]
                    } else {
                        ss[k]
                    }),
                forall|idx: Seq<int>|
                    #[trigger] valid_index(cur_src.shape_view(), idx) ==> cur_src.elem(idx) == (
                    if in_slice_upto(starts_i, ends_i, idx, d as int) {
                        src.elem(shifted_upto(idx, starts_i, d as int))
                    } else {
                        0
                    }),
                forall|idx: Seq<int>|
                    #[trigger] valid_index(cur_mask.shape_view(), idx) ==> cur_mask.elem(idx) == (
                    if in_slice_upto(starts_i, ends_i, idx, d as int) {
                        mask0.elem(shifted_upto(idx, starts_i, d as int))
                    } else {
                        0
                    }),
            decreases rank - d,
        {
            let left = starts[d];
            proof {
                assert(dim_ok(s, ss, ranges@, d as int));
                assert(left == starts_i[d as int]);
                assert(ends@[d as int] == ends_i[d as int]);
            }
            let right = self.dims()[d] - ends[d];
            proof {
                assert forall|k: int|
                    0 <= k < rank implies #[trigger] cur_src.shape_view()[k] >= 1 by {
                    assert(dim_ok(s, ss, ranges@, k));
                }
                let ns2 = cur_src.shape_view().update(
                    d as int,
                    (cur_src.shape_view()[d as int] + left + right) as usize,
                );
                assert(cur_src.shape_view()[d as int] + left + right == s[d as int]);
                assert forall|k: int| 0 <= k < rank implies #[trigger] ns2[k] <= s[k] by {
                    if k != d {
                        assert(ns2[k] == cur_src.shape_view()[k]);
                    }
                }
                lemma_numel_le(ns2, s);
            }
            let new_src = cur_src.pad_with_zeros(d, left, right);
            let new_mask = cur_mask.pad_with_zeros(d, left, right);
            proof {
                assert(new_src.shape_view() == cur_src.shape_view().update(d as int, s[d as int]));
                assert(new_mask.shape_view() == cur_mask.shape_view().update(
                    d as int,
                    s[d as int],
                ));
                assert(left + cur_src.shape_view()[d as int] == ends_i[d as int]);
                assert(mask0.shape_view() == ss);
                assert forall|k: int|
                    0 <= k < s.len() implies 0 <= #[trigger] starts_i[k] && starts_i[k]
                    < ends_i[k] && ends_i[k] <= s[k] && ends_i[k] - starts_i[k] == ss[k] by {
                    assert(dim_ok(s, ss, ranges@, k));
                }
                lemma_pad_step(cur_src, new_src, *src, s, starts_i, ends_i, d as int);
                lemma_pad_step(cur_mask, new_mask, mask0, s, starts_i, ends_i, d as int);
            }
            cur_src = new_src;
            cur_mask = new_mask;
            d += 1;
        }
        proof {
            assert(cur_src.shape_view() =~= s);
            assert(cur_mask.shape_view() =~= s);
        }
        let out = cur_mask.where_cond(&cur_src, self);
        proof {
            assert forall|idx: Seq<int>| #[trigger] valid_index(s, idx) implies out.elem(idx) == (
            if in_slice(starts_i, ends_i, idx) {
                src.elem(shifted(idx, starts_i))
            } else {
                self.elem(idx)
            }) by {
                lemma_flat_index_bounds(s, idx);
                let f = flat_index(s, idx);
                assert(out.data_view()[f] == (if cur_mask.data_view()[f] != 0 {
                    cur_src.data_view()[f]
                } else {
                    self.data_view()[f]
                }));
                assert(valid_index(cur_mask.shape_view(), idx));
                assert(in_slice(starts_i, ends_i, idx) <==> in_slice_upto(
                    starts_i,
                    ends_i,
                    idx,
                    rank as int,
                ));
                if in_slice(starts_i, ends_i, idx) {
                    let sidx = shifted_upto(idx, starts_i, rank as int);
                    assert(sidx =~= shifted(idx, starts_i));
                    assert forall|k: int| 0 <= k < rank implies 0 <= #[trigger] sidx[k]
                        < ss[k] by {
                        assert(starts_i[k] <= idx[k] < ends_i[k]);
                    }
                    assert(valid_index(ss, sidx));
                    lemma_flat_index_bounds(ss, sidx);
                    assert(mask0.elem(sidx) == 1);
                    assert(cur_mask.elem(idx) == 1);
                    assert(cur_mask.data_view()[f] != 0);
                    assert(out.elem(idx) == cur_src.elem(idx));
                    assert(cur_src.elem(idx) == src.elem(sidx));
                } else {
                    assert(cur_mask.elem(idx) == 0);
                    assert(cur_mask.data_view()[f] == 0);
                    assert(out.elem(idx) == self.elem(idx));
                }
            }
        }
        Ok(out)
    }
}

} // verus!
