use tensor_dispatch::error::Error;
use tensor_dispatch::range::{IndexBound, RangeBound};
use tensor_dispatch::tensor::Tensor;

fn grid_4x5() -> Tensor {
    Tensor::arange(0, 20).reshape(vec![4, 5]).unwrap()
}

fn src_3x2() -> Tensor {
    Tensor::arange(100, 106).reshape(vec![3, 2]).unwrap()
}

#[test]
fn assigns_sub_region_rows_0_to_2_cols_3_to_4() {
    let tensor = grid_4x5();
    let src = src_3x2();
    let ranges = vec![RangeBound::EndBefore(3), RangeBound::Span(3, 5)];
    let out = tensor.slice_assign(&ranges, &src).unwrap();
    assert_eq!(out.dims(), &vec![4, 5]);
    assert_eq!(
        out.values(),
        &vec![
            0, 1, 2, 100, 101, //
            5, 6, 7, 102, 103, //
            10, 11, 12, 104, 105, //
            15, 16, 17, 18, 19,
        ]
    );
}

#[test]
fn full_cover_returns_the_source() {
    let tensor = grid_4x5();
    let src = Tensor::arange(100, 120).reshape(vec![4, 5]).unwrap();
    let ranges = vec![RangeBound::Full, RangeBound::Full];
    let out = tensor.slice_assign(&ranges, &src).unwrap();
    assert_eq!(out.values(), src.values());
    assert_eq!(out.dims(), src.dims());
}

#[test]
fn inputs_are_not_mutated() {
    let tensor = grid_4x5();
    let src = src_3x2();
    let tensor_before = tensor.duplicate();
    let src_before = src.duplicate();
    let ranges = vec![RangeBound::EndBefore(3), RangeBound::Span(3, 5)];
    let _ = tensor.slice_assign(&ranges, &src).unwrap();
    assert_eq!(tensor, tensor_before);
    assert_eq!(src, src_before);
}

#[test]
fn rank_mismatch_is_rejected() {
    let tensor = grid_4x5();
    let src = Tensor::arange(0, 6);
    let ranges = vec![RangeBound::Full, RangeBound::Full];
    let err = tensor.slice_assign(&ranges, &src).unwrap_err();
    assert_eq!(err, Error::RankMismatch { tensor_rank: 2, src_rank: 1 });
}

#[test]
fn range_count_mismatch_is_rejected() {
    let tensor = grid_4x5();
    let src = src_3x2();
    let ranges = vec![RangeBound::Full];
    let err = tensor.slice_assign(&ranges, &src).unwrap_err();
    assert_eq!(err, Error::RangeCountMismatch { rank: 2, n_ranges: 1 });
}

#[test]
fn empty_range_is_rejected() {
    let tensor = grid_4x5();
    let src = src_3x2();
    let ranges = vec![RangeBound::Span(3, 3), RangeBound::Span(3, 5)];
    let err = tensor.slice_assign(&ranges, &src).unwrap_err();
    assert_eq!(err, Error::EmptyRange { dim: 0 });
}

#[test]
fn out_of_bounds_end_is_rejected() {
    let tensor = grid_4x5();
    let src = src_3x2();
    let ranges = vec![RangeBound::EndBefore(3), RangeBound::Span(3, 6)];
    let err = tensor.slice_assign(&ranges, &src).unwrap_err();
    assert_eq!(err, Error::OutOfBounds { dim: 1 });
}

#[test]
fn size_mismatch_is_rejected() {
    let tensor = grid_4x5();
    let src = src_3x2();
    let ranges = vec![RangeBound::EndBefore(2), RangeBound::Span(3, 5)];
    let err = tensor.slice_assign(&ranges, &src).unwrap_err();
    assert_eq!(err, Error::SizeMismatch { dim: 0 });
}

#[test]
fn single_index_equals_its_half_open_range() {
    let tensor = grid_4x5();
    let src = Tensor::arange(100, 104).reshape(vec![4, 1]).unwrap();
    let with_index = tensor
        .slice_assign(&vec![RangeBound::Full, RangeBound::Single(2)], &src)
        .unwrap();
    let with_span = tensor
        .slice_assign(&vec![RangeBound::Full, RangeBound::Span(2, 3)], &src)
        .unwrap();
    assert_eq!(with_index, with_span);
    assert_eq!(
        with_index.values(),
        &vec![
            0, 1, 100, 3, 4, //
            5, 6, 101, 8, 9, //
            10, 11, 102, 13, 14, //
            15, 16, 103, 18, 19,
        ]
    );
}

#[test]
fn single_index_bounds_resolve_to_half_open_interval() {
    let r = RangeBound::Single(2);
    assert_eq!(r.start_bound(), IndexBound::Included(2));
    assert_eq!(r.end_bound(), IndexBound::Included(2));
}

#[test]
fn explicit_bound_pair_behaves_like_its_span() {
    let tensor = grid_4x5();
    let src = src_3x2();
    let explicit = vec![
        RangeBound::Explicit(IndexBound::Unbounded, IndexBound::Excluded(3)),
        RangeBound::Explicit(IndexBound::Included(3), IndexBound::Included(4)),
    ];
    let spans = vec![RangeBound::EndBefore(3), RangeBound::Span(3, 5)];
    let a = tensor.slice_assign(&explicit, &src).unwrap();
    let b = tensor.slice_assign(&spans, &src).unwrap();
    assert_eq!(a, b);
}

#[test]
fn inclusive_and_from_ranges_resolve() {
    let tensor = grid_4x5();
    let src = Tensor::arange(100, 110).reshape(vec![2, 5]).unwrap();
    let ranges = vec![RangeBound::StartFrom(2), RangeBound::EndAt(4)];
    let out = tensor.slice_assign(&ranges, &src).unwrap();
    assert_eq!(
        out.values(),
        &vec![
            0, 1, 2, 3, 4, //
            5, 6, 7, 8, 9, //
            100, 101, 102, 103, 104, //
            105, 106, 107, 108, 109,
        ]
    );
}
