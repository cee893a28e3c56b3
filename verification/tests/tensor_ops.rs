use tensor_dispatch::error::Error;
use tensor_dispatch::tensor::Tensor;

#[test]
fn arange_counts_from_start_to_end() {
    let t = Tensor::arange(3, 8);
    assert_eq!(t.dims(), &vec![5]);
    assert_eq!(t.values(), &vec![3, 4, 5, 6, 7]);
}

#[test]
fn reshape_keeps_elements_and_checks_the_count() {
    let t = Tensor::arange(0, 6);
    let r = t.reshape(vec![2, 3]).unwrap();
    assert_eq!(r.dims(), &vec![2, 3]);
    assert_eq!(r.values(), &vec![0, 1, 2, 3, 4, 5]);
    let err = t.reshape(vec![4, 2]).unwrap_err();
    assert_eq!(err, Error::ShapeMismatch);
}

#[test]
fn new_rejects_a_shape_that_does_not_fit_the_data() {
    let ok = Tensor::new(vec![2, 2], vec![1, 2, 3, 4]);
    assert!(ok.is_ok());
    let err = Tensor::new(vec![2, 2], vec![1, 2, 3]).unwrap_err();
    assert_eq!(err, Error::ShapeMismatch);
}

#[test]
fn ones_fills_every_element() {
    let t = Tensor::ones(&vec![2, 3]);
    assert_eq!(t.dims(), &vec![2, 3]);
    assert_eq!(t.values(), &vec![1, 1, 1, 1, 1, 1]);
}

#[test]
fn where_cond_selects_elementwise() {
    let mask = Tensor::new(vec![4], vec![1, 0, 1, 0]).unwrap();
    let on_true = Tensor::new(vec![4], vec![10, 11, 12, 13]).unwrap();
    let on_false = Tensor::new(vec![4], vec![20, 21, 22, 23]).unwrap();
    let out = mask.where_cond(&on_true, &on_false);
    assert_eq!(out.values(), &vec![10, 21, 12, 23]);
}

#[test]
fn pad_with_zeros_extends_one_dimension() {
    let t = Tensor::arange(1, 4);
    let padded = t.pad_with_zeros(0, 1, 2);
    assert_eq!(padded.dims(), &vec![6]);
    assert_eq!(padded.values(), &vec![0, 1, 2, 3, 0, 0]);
}

#[test]
fn pad_with_zeros_on_an_inner_dimension() {
    let t = Tensor::arange(1, 5).reshape(vec![2, 2]).unwrap();
    let padded = t.pad_with_zeros(1, 1, 1);
    assert_eq!(padded.dims(), &vec![2, 4]);
    assert_eq!(padded.values(), &vec![0, 1, 2, 0, 0, 3, 4, 0]);
}
