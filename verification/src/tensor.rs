use vstd::prelude::*;
use vstd::pervasive::unreached;

use crate::error::Error;
use crate::pad::{
    lemma_block_cells, pad_cell, pad_pos, padded_shape, push_slice, push_zeros, zero_seq,
};
use crate::shape::{
    flat_index, lemma_flat_index_bounds, lemma_flat_split, lemma_numel_split, numel, numel_of,
    numel_range, valid_index,
};

verus! {

/// An n-dimensional array: a shape and its elements in row-major order.
///
/// A tensor is immutable: every operation returns a new tensor and leaves its
/// operands unchanged.
#[derive(Debug, PartialEq, Eq)]
pub struct Tensor {
    pub(crate) shape: Vec<usize>,
    pub(crate) data: Vec<i64>,
}

impl Tensor {
    /// The dimension sizes, outermost first.
    pub closed spec fn shape_view(self) -> Seq<usize> {
        self.shape@
    }

    /// The elements, in row-major order.
    pub closed spec fn data_view(self) -> Seq<i64> {
        self.data@
    }

    /// The storage holds exactly one element per addressable index.
    pub open spec fn wf(self) -> bool {
        self.data_view().len() == numel(self.shape_view())
    }

    /// The number of dimensions.
    pub open spec fn rank_spec(self) -> int {
        self.shape_view().len() as int
    }

    /// The element addressed by the multi-index `idx`.
    pub open spec fn elem(self, idx: Seq<int>) -> int {
        self.data_view()[flat_index(self.shape_view(), idx)] as int
    }

    /// Builds a tensor from a shape and its row-major elements. Fails where
    /// the element count of the shape differs from the length of the data.
    pub fn new(shape: Vec<usize>, data: Vec<i64>) -> (r: Result<Tensor, Error>)
        ensures
            r matches Ok(t) ==> t.wf() && t.shape_view() == shape@ && t.data_view() == data@,
            r matches Err(e) ==> e == Error::ShapeMismatch,
            r is Ok <==> numel(shape@) == data@.len(),
    {
        match numel_of(&shape) {
            Some(n) => {
                if n == data.len() {
                    let t = Tensor { shape, data };
                    proof {
                        assert(t.wf());
                    }
                    Ok(t)
                } else {
                    Err(Error::ShapeMismatch)
                }
            },
            None => {
                let l = data.len();
                proof {
                    assert(numel(shape@) > l);
                }
                Err(Error::ShapeMismatch)
            },
        }
    }

    /// Returns the dimension sizes.
    pub fn dims(&self) -> (r: &Vec<usize>)
        ensures
            r@ == self.shape_view(),
    {
        &self.shape
    }

    /// Returns the number of dimensions.
    pub fn rank(&self) -> (r: usize)
        ensures
            r == self.rank_spec(),
    {
        self.shape.len()
    }

    /// Returns the elements in row-major order.
    pub fn values(&self) -> (r: &Vec<i64>)
        ensures
            r@ == self.data_view(),
    {
        &self.data
    }

    /// Returns a tensor of its own, equal to this one.
    pub fn duplicate(&self) -> (t: Tensor)
        ensures
            t.shape_view() == self.shape_view(),
            t.data_view() == self.data_view(),
    {
        Tensor { shape: copy_dims(&self.shape), data: copy_vals(&self.data) }
    }

    /// The one-dimensional tensor holding `start, start + 1, ..., end - 1`.
    pub fn arange(start: i64, end: i64) -> (t: Tensor)
        requires
            start <= end,
            end - start <= usize::MAX,
            end - start <= i64::MAX,
        ensures
            t.wf(),
            t.shape_view() == seq![(end - start) as usize],
            t.data_view().len() == end - start,
            forall|j: int| 0 <= j < end - start ==> t.data_view()[j] == start + j,
    {
        let n = (end - start) as usize;
        let mut data: Vec<i64> = Vec::new();
        let mut j: usize = 0;
        while j < n
            invariant
                0 <= j <= n,
                n == end - start,
                start <= end,
                end - start <= i64::MAX,
                data@.len() == j,
                forall|k: int| 0 <= k < j ==> data@[k] == start + k,
            decreases n - j,
        {
            data.push(start + (j as i64));
            j += 1;
        }
        let mut shape: Vec<usize> = Vec::new();
        shape.push(n);
        let t = Tensor { shape, data };
        proof {
            assert(numel(t.shape_view()) == (n as int) * numel(t.shape_view().skip(1)));
            assert(t.shape_view().skip(1) =~= Seq::<usize>::empty());
            assert(numel(Seq::<usize>::empty()) == 1);
            assert(numel(t.shape_view()) == n);
            assert(t.data_view().len() == n);
            assert(t.wf());
            assert(t.shape_view() =~= seq![(end - start) as usize]);
        }
        t
    }

    /// Returns a tensor with the same elements under a new shape. Fails where
    /// the new shape's element count differs from the element count of this
    /// tensor.
    pub fn reshape(&self, shape: Vec<usize>) -> (r: Result<Tensor, Error>)
        ensures
            r matches Ok(t) ==> t.wf() && t.shape_view() == shape@ && t.data_view()
                == self.data_view(),
            r matches Err(e) ==> e == Error::ShapeMismatch,
            r is Ok <==> numel(shape@) == self.data_view().len(),
    {
        match numel_of(&shape) {
            Some(n) => {
                if n == self.data.len() {
                    let t = Tensor { shape, data: copy_vals(&self.data) };
                    proof {
                        assert(t.wf());
                    }
                    Ok(t)
                } else {
                    Err(Error::ShapeMismatch)
                }
            },
            None => {
                let l = self.data.len();
                proof {
                    assert(numel(shape@) > l);
                }
                Err(Error::ShapeMismatch)
            },
        }
    }

    /// The all-ones tensor of the given shape.
    pub fn ones(shape: &Vec<usize>) -> (t: Tensor)
        requires
            numel(shape@) <= usize::MAX,
        ensures
            t.wf(),
            t.shape_view() == shape@,
            forall|j: int| 0 <= j < t.data_view().len() ==> t.data_view()[j] == 1,
    {
        match numel_of(shape) {
            Some(n) => {
                let mut data: Vec<i64> = Vec::new();
                let mut j: usize = 0;
                while j < n
                    invariant
                        0 <= j <= n,
                        data@.len() == j,
                        forall|k: int| 0 <= k < j ==> data@[k] == 1,
                    decreases n - j,
                {
                    data.push(1);
                    j += 1;
                }
                Tensor { shape: copy_dims(shape), data }
            },
            None => unreached(),
        }
    }

    /// Elementwise select: where this tensor (a mask) is non-zero the result
    /// takes the element of `on_true`, elsewhere the element of `on_false`.
    /// All three tensors must share one shape.
    pub fn where_cond(&self, on_true: &Tensor, on_false: &Tensor) -> (r: Tensor)
        requires
            self.wf(),
            on_true.wf(),
            on_false.wf(),
            on_true.shape_view() == self.shape_view(),
            on_false.shape_view() == self.shape_view(),
        ensures
            r.wf(),
            r.shape_view() == self.shape_view(),
            r.data_view().len() == self.data_view().len(),
            forall|j: int|
                0 <= j < self.data_view().len() ==> r.data_view()[j] == (if self.data_view()[j]
                    != 0 {
                    on_true.data_view()[j]
                } else {
                    on_false.data_view()[j]
                }),
    {
        let n = self.data.len();
        let mut data: Vec<i64> = Vec::new();
        let mut j: usize = 0;
        while j < n
            invariant
                0 <= j <= n,
                n == self.data_view().len(),
                on_true.data_view().len() == n,
                on_false.data_view().len() == n,
                data@.len() == j,
                forall|k: int|
                    0 <= k < j ==> data@[k] == (if self.data_view()[k] != 0 {
                        on_true.data_view()[k]
                    } else {
                        on_false.data_view()[k]
                    }),
            decreases n - j,
        {
            if self.data[j] != 0 {
                data.push(on_true.data[j]);
            } else {
                data.push(on_false.data[j]);
            }
            j += 1;
        }
        Tensor { shape: copy_dims(&self.shape), data }
    }
}

/// Copies a vector of dimension sizes.
pub(crate) fn copy_dims(v: &Vec<usize>) -> (r: Vec<usize>)
    ensures
        r@ == v@,
{
    let mut out: Vec<usize> = Vec::new();
    let mut j: usize = 0;
    while j < v.len()
        invariant
            0 <= j <= v@.len(),
            out@ =~= v@.take(j as int),
        decreases v@.len() - j,
    {
        out.push(v[j]);
        j += 1;
    }
    proof {
        assert(v@.take(v@.len() as int) =~= v@);
    }
    out
}

/// Copies a vector of elements.
pub(crate) fn copy_vals(v: &Vec<i64>) -> (r: Vec<i64>)
    ensures
        r@ == v@,
{
    let mut out: Vec<i64> = Vec::new();
    let mut j: usize = 0;
    while j < v.len()
        invariant
            0 <= j <= v@.len(),
            out@ =~= v@.take(j as int),
        decreases v@.len() - j,
    {
        out.push(v[j]);
        j += 1;
    }
    proof {
        assert(v@.take(v@.len() as int) =~= v@);
    }
    out
}

impl Tensor {
    /// Returns a copy of this tensor whose dimension `dim` has grown by
    /// `left` zero elements before the original extent and `right` zero
    /// elements after it; all other dimensions keep their size, and the
    /// original elements appear shifted by `left` along `dim`.
    #[verifier::loop_isolation(false)]
    pub fn pad_with_zeros(&self, dim: usize, left: usize, right: usize) -> (r: Tensor)
        requires
            self.wf(),
            dim < self.rank_spec(),
            forall|k: int| 0 <= k < self.rank_spec() ==> self.shape_view()[k] >= 1,
            self.shape_view()[dim as int] + left + right <= usize::MAX,
            numel(
                self.shape_view().update(
                    dim as int,
                    (self.shape_view()[dim as int] + left + right) as usize,
                ),
            ) <= usize::MAX,
        ensures
            r.wf(),
            r.shape_view() == self.shape_view().update(
                dim as int,
                (self.shape_view()[dim as int] + left + right) as usize,
            ),
            forall|idx: Seq<int>|
                #[trigger] valid_index(r.shape_view(), idx) ==> r.elem(idx) == (if left
                    <= idx[dim as int] && idx[dim as int] < left + self.shape_view()[dim as int] {
                    self.elem(idx.update(dim as int, idx[dim as int] - left))
                } else {
                    0
                }),
    {
        let rank = self.shape.len();
        let total = self.data.len();
        let mid = self.shape[dim];
        let new_mid = mid + left + right;
        let outer = numel_range(&self.shape, 0, dim);
        let inner = numel_range(&self.shape, dim + 1, rank);
        let ghost s = self.shape_view();
        let ghost ns = s.update(dim as int, new_mid);
        proof {
            assert(s.subrange(0, dim as int) =~= s.take(dim as int));
            assert(s.subrange(dim + 1, rank as int) =~= s.skip(dim + 1));
            lemma_numel_split(s, dim as int);
            assert(s.skip(dim as int)[0] == s[dim as int]);
            assert(s.skip(dim as int).skip(1) =~= s.skip(dim + 1));
            assert(numel(s.skip(dim as int)) == (mid as int) * numel(s.skip(dim + 1)));
            assert(total == (outer as int) * ((mid as int) * (inner as int)));
            assert(ns.take(dim as int) =~= s.take(dim as int));
            assert(ns.skip(dim + 1) =~= s.skip(dim + 1));
            lemma_numel_split(ns, dim as int);
            assert(ns.skip(dim as int)[0] == new_mid);
            assert(ns.skip(dim as int).skip(1) =~= ns.skip(dim + 1));
            assert(numel(ns.skip(dim as int)) == (new_mid as int) * numel(ns.skip(dim + 1)));
            assert(numel(ns) == (outer as int) * ((new_mid as int) * (inner as int)));
            assert((new_mid as int) * (inner as int) <= usize::MAX) by (nonlinear_arith)
                requires
                    outer >= 1,
                    (new_mid as int) * (inner as int) >= 0,
                    (outer as int) * ((new_mid as int) * (inner as int)) <= usize::MAX;
            assert((new_mid as int) * (inner as int) >= 0) by (nonlinear_arith)
                requires
                    new_mid >= 0,
                    inner >= 0;
            assert((left as int) * (inner as int) <= (new_mid as int) * (inner as int)
                && (mid as int) * (inner as int) <= (new_mid as int) * (inner as int)
                && (right as int) * (inner as int) <= (new_mid as int) * (inner as int)
                && (left as int) * (inner as int) >= 0
                && (mid as int) * (inner as int) >= 0
                && (right as int) * (inner as int) >= 0) by (nonlinear_arith)
                requires
                    0 <= left,
                    0 <= mid,
                    0 <= right,
                    0 <= inner,
                    new_mid == left + mid + right;
        }
        let nb = new_mid * inner;
        let z1 = left * inner;
        let mb = mid * inner;
        let z2 = right * inner;
        proof {
            assert(z1 + mb + z2 == nb) by (nonlinear_arith)
                requires
                    z1 == (left as int) * (inner as int),
                    mb == (mid as int) * (inner as int),
                    z2 == (right as int) * (inner as int),
                    nb == (new_mid as int) * (inner as int),
                    new_mid == left + mid + right;
        }
        let mut out: Vec<i64> = Vec::new();
        let mut a: usize = 0;
        while a < outer
            invariant
                0 <= a <= outer,
                out@.len() == (a as int) * (nb as int),
                forall|b: int, m: int, t: int|
                    0 <= b < a && 0 <= m < new_mid && 0 <= t < inner ==> out@[#[trigger] pad_pos(
                        new_mid as int,
                        inner as int,
                        b,
                        m,
                        t,
                    )] == pad_cell(
                        self.data_view(),
                        mid as int,
                        inner as int,
                        left as int,
                        b,
                        m,
                        t,
                    ),
            decreases outer - a,
        {
            proof {
                assert((a as int) * (mb as int) + mb <= total && 0 <= (a as int) * (mb as int))
                    by (nonlinear_arith)
                    requires
                        0 <= a < outer,
                        0 <= mb,
                        total == (outer as int) * (mb as int);
                assert((a as int) * (nb as int) + nb <= numel(ns) && 0 <= (a as int) * (nb as int))
                    by (nonlinear_arith)
                    requires
                        0 <= a < outer,
                        0 <= nb,
                        numel(ns) == (outer as int) * (nb as int);
            }
            let base = a * mb;
            let ghost prev = out@;
            push_zeros(&mut out, z1);
            push_slice(&mut out, &self.data, base, mb);
            push_zeros(&mut out, z2);
            proof {
                assert(out@ == prev + zero_seq(z1 as int) + self.data_view().subrange(
                    base as int,
                    base + mb,
                ) + zero_seq(z2 as int));
                assert(base + mb == ((a as int) + 1) * ((mid as int) * (inner as int)))
                    by (nonlinear_arith)
                    requires
                        base == (a as int) * (mb as int),
                        mb == (mid as int) * (inner as int);
                lemma_block_cells(
                    prev,
                    out@,
                    self.data_view(),
                    a as int,
                    mid as int,
                    inner as int,
                    left as int,
                    right as int,
                );
                assert((left as int) + (mid as int) + (right as int) == new_mid as int);
                assert forall|b: int, m: int, t: int|
                    0 <= b < a + 1 && 0 <= m < new_mid && 0 <= t < inner implies out@[
                #[trigger] pad_pos(new_mid as int, inner as int, b, m, t)] == pad_cell(
                    self.data_view(),
                    mid as int,
                    inner as int,
                    left as int,
                    b,
                    m,
                    t,
                ) by {
                    let j = pad_pos(new_mid as int, inner as int, b, m, t);
                    if b < a {
                        assert(0 <= j < (a as int) * (nb as int)) by (nonlinear_arith)
                            requires
                                j == b * ((new_mid as int) * (inner as int)) + m * (inner as int)
                                    + t,
                                nb == (new_mid as int) * (inner as int),
                                0 <= b < a,
                                0 <= m < new_mid,
                                0 <= t < inner;
                        assert(out@[j] == prev[j]);
                    } else {
                        assert(j == pad_pos(
                            (left as int) + (mid as int) + (right as int),
                            inner as int,
                            a as int,
                            m,
                            t,
                        ));
                    }
                }
            }
            a += 1;
        }
        let shape2 = padded_shape(&self.shape, dim, new_mid);
        let r = Tensor { shape: shape2, data: out };
        proof {
            assert(r.wf());
            assert(r.shape_view() == ns);
            assert(numel(s.take(dim as int)) == outer);
            assert(numel(s.skip(dim + 1)) == inner);
            assert forall|idx: Seq<int>| #[trigger] valid_index(ns, idx) implies r.elem(idx) == (
            if left <= idx[dim as int] && idx[dim as int] < left + (mid as int) {
                self.elem(idx.update(dim as int, idx[dim as int] - left))
            } else {
                0
            }) by {
                let spre = s.take(dim as int);
                let ipre = idx.take(dim as int);
                let ssuf = s.skip(dim + 1);
                let isuf = idx.skip(dim + 1);
                assert(valid_index(spre, ipre)) by {
                    assert(forall|k: int|
                        0 <= k < dim ==> spre[k] == ns[k] && #[trigger] ipre[k] == idx[k]);
                }
                assert(valid_index(ssuf, isuf)) by {
                    assert(forall|k: int|
                        0 <= k < ssuf.len() ==> ssuf[k] == ns[k + dim + 1] && #[trigger] isuf[k]
                            == idx[k + dim + 1]);
                }
                lemma_flat_index_bounds(spre, ipre);
                lemma_flat_index_bounds(ssuf, isuf);
                let b = flat_index(spre, ipre);
                let m = idx[dim as int];
                let t = flat_index(ssuf, isuf);
                lemma_flat_split(ns, idx, dim as int);
                assert(ns.take(dim as int) =~= spre);
                assert(idx.skip(dim as int)[0] == m);
                assert(ns.skip(dim as int).skip(1) =~= ssuf);
                assert(idx.skip(dim as int).skip(1) =~= isuf);
                assert(flat_index(ns.skip(dim as int), idx.skip(dim as int)) == m * numel(
                    ns.skip(dim as int).skip(1),
                ) + flat_index(ns.skip(dim as int).skip(1), idx.skip(dim as int).skip(1)));
                assert(numel(ns.skip(dim as int)) == (new_mid as int) * (inner as int));
                assert(flat_index(ns, idx) == b * ((new_mid as int) * (inner as int)) + m * (
                inner as int) + t);
                assert(flat_index(ns, idx) == pad_pos(new_mid as int, inner as int, b, m, t));
                assert(0 <= b < outer && 0 <= t < inner && 0 <= m < new_mid);
                assert(out@[pad_pos(new_mid as int, inner as int, b, m, t)] == pad_cell(
                    self.data_view(),
                    mid as int,
                    inner as int,
                    left as int,
                    b,
                    m,
                    t,
                ));
                if left <= m && m < left + (mid as int) {
                    let idx2 = idx.update(dim as int, m - left);
                    assert(valid_index(s, idx2)) by {
                        assert(forall|k: int|
                            0 <= k < s.len() && k != dim ==> #[trigger] idx2[k] == idx[k]
                                && s[k] == ns[k]);
                    }
                    lemma_flat_split(s, idx2, dim as int);
                    assert(s.take(dim as int) =~= spre);
                    assert(idx2.take(dim as int) =~= ipre);
                    assert(idx2.skip(dim as int)[0] == m - left);
                    assert(s.skip(dim as int).skip(1) =~= ssuf);
                    assert(idx2.skip(dim as int).skip(1) =~= isuf);
                    assert(flat_index(s.skip(dim as int), idx2.skip(dim as int)) == (m - left)
                        * numel(s.skip(dim as int).skip(1)) + flat_index(
                        s.skip(dim as int).skip(1),
                        idx2.skip(dim as int).skip(1),
                    ));
                    assert(numel(s.skip(dim as int)) == (mid as int) * (inner as int));
                    assert(flat_index(s, idx2) == b * ((mid as int) * (inner as int)) + (m - left)
                        * (inner as int) + t);
                    lemma_flat_index_bounds(s, idx2);
                    assert(r.elem(idx) == self.elem(idx2));
                } else {
                    assert(r.elem(idx) == 0);
                }
            }
        }
        r
    }
}

} // verus!
