use vstd::prelude::*;

verus! {

/// The number of elements of a shape: the product of its dimension sizes.
pub open spec fn numel(shape: Seq<usize>) -> int
    decreases shape.len(),
{
    if shape.len() == 0 {
        1
    } else {
        (shape[0] as int) * numel(shape.skip(1))
    }
}

/// `idx` addresses one element of a tensor of shape `shape`.
pub open spec fn valid_index(shape: Seq<usize>, idx: Seq<int>) -> bool {
    &&& idx.len() == shape.len()
    &&& forall|k: int| 0 <= k < shape.len() ==> 0 <= #[trigger] idx[k] < shape[k]
}

/// The row-major position of the element addressed by `idx` within the flat
/// storage of a tensor of shape `shape`.
pub open spec fn flat_index(shape: Seq<usize>, idx: Seq<int>) -> int
    decreases shape.len(),
{
    if shape.len() == 0 {
        0
    } else {
        idx[0] * numel(shape.skip(1)) + flat_index(shape.skip(1), idx.skip(1))
    }
}

pub proof fn lemma_numel_nonneg(shape: Seq<usize>)
    ensures
        numel(shape) >= 0,
    decreases shape.len(),
{
    if shape.len() > 0 {
        lemma_numel_nonneg(shape.skip(1));
        assert((shape[0] as int) * numel(shape.skip(1)) >= 0) by (nonlinear_arith)
            requires
                shape[0] as int >= 0,
                numel(shape.skip(1)) >= 0;
    }
}

pub proof fn lemma_numel_pos(shape: Seq<usize>)
    requires
        forall|k: int| 0 <= k < shape.len() ==> #[trigger] shape[k] >= 1,
    ensures
        numel(shape) >= 1,
    decreases shape.len(),
{
    if shape.len() > 0 {
        lemma_numel_pos(shape.skip(1));
        assert((shape[0] as int) * numel(shape.skip(1)) >= 1) by (nonlinear_arith)
            requires
                shape[0] as int >= 1,
                numel(shape.skip(1)) >= 1;
    }
}

pub proof fn lemma_numel_zero(shape: Seq<usize>, k: int)
    requires
        0 <= k < shape.len(),
        shape[k] == 0,
    ensures
        numel(shape) == 0,
    decreases shape.len(),
{
    if k == 0 {
        assert((shape[0] as int) * numel(shape.skip(1)) == 0) by (nonlinear_arith)
            requires
                shape[0] as int == 0;
    } else {
        lemma_numel_zero(shape.skip(1), k - 1);
    }
}

pub proof fn lemma_numel_push(shape: Seq<usize>, x: usize)
    ensures
        numel(shape.push(x)) == numel(shape) * (x as int),
    decreases shape.len(),
{
    assert(shape.push(x).len() == shape.len() + 1);
    if shape.len() == 0 {
        assert(shape.push(x)[0] == x);
        assert(shape.push(x).skip(1) =~= Seq::<usize>::empty());
        assert(numel(shape.push(x)) == (x as int) * numel(Seq::<usize>::empty()));
        assert(numel(Seq::<usize>::empty()) == 1);
        assert(numel(shape) == 1);
    } else {
        assert(shape.push(x)[0] == shape[0]);
        assert(shape.push(x).skip(1) =~= shape.skip(1).push(x));
        lemma_numel_push(shape.skip(1), x);
        assert(numel(shape.push(x)) == (shape[0] as int) * numel(shape.skip(1).push(x)));
        assert(numel(shape.push(x)) == (shape[0] as int) * (numel(shape.skip(1)) * (x as int)));
        assert((shape[0] as int) * (numel(shape.skip(1)) * (x as int))
            == ((shape[0] as int) * numel(shape.skip(1))) * (x as int)) by (nonlinear_arith);
        assert(numel(shape) == (shape[0] as int) * numel(shape.skip(1)));
    }
}

pub proof fn lemma_numel_split(shape: Seq<usize>, i: int)
    requires
        0 <= i <= shape.len(),
    ensures
        numel(shape) == numel(shape.take(i)) * numel(shape.skip(i)),
    decreases i,
{
    if i == 0 {
        assert(shape.take(0) =~= Seq::<usize>::empty());
        assert(shape.skip(0) =~= shape);
    } else {
        lemma_numel_split(shape, i - 1);
        assert(shape.take(i) =~= shape.take(i - 1).push(shape[i - 1]));
        lemma_numel_push(shape.take(i - 1), shape[i - 1]);
        assert(shape.skip(i - 1)[0] == shape[i - 1]);
        assert(shape.skip(i - 1).skip(1) =~= shape.skip(i));
        assert(numel(shape.skip(i - 1)) == (shape[i - 1] as int) * numel(shape.skip(i)));
        let a = numel(shape.take(i - 1));
        let d = shape[i - 1] as int;
        let b = numel(shape.skip(i));
        assert(a * (d * b) == (a * d) * b) by (nonlinear_arith);
    }
}

pub proof fn lemma_numel_le(a: Seq<usize>, b: Seq<usize>)
    requires
        a.len() == b.len(),
        forall|k: int| 0 <= k < a.len() ==> #[trigger] a[k] <= b[k],
    ensures
        numel(a) <= numel(b),
    decreases a.len(),
{
    if a.len() > 0 {
        lemma_numel_le(a.skip(1), b.skip(1));
        lemma_numel_nonneg(a.skip(1));
        assert((a[0] as int) * numel(a.skip(1)) <= (b[0] as int) * numel(b.skip(1)))
            by (nonlinear_arith)
            requires
                0 <= a[0] as int <= b[0] as int,
                0 <= numel(a.skip(1)) <= numel(b.skip(1));
    }
}

/// With every dimension positive, the element count of any contiguous slice of
/// the shape is positive and no larger than the whole shape's element count.
pub proof fn lemma_numel_subrange_le(shape: Seq<usize>, lo: int, hi: int)
    requires
        0 <= lo <= hi <= shape.len(),
        forall|k: int| 0 <= k < shape.len() ==> #[trigger] shape[k] >= 1,
    ensures
        1 <= numel(shape.subrange(lo, hi)),
        numel(shape.subrange(lo, hi)) <= numel(shape),
{
    lemma_numel_split(shape, lo);
    lemma_numel_split(shape.skip(lo), hi - lo);
    assert(shape.skip(lo).take(hi - lo) =~= shape.subrange(lo, hi));
    assert(shape.skip(lo).skip(hi - lo) =~= shape.skip(hi));
    lemma_numel_pos(shape.take(lo));
    lemma_numel_pos(shape.skip(hi));
    lemma_numel_pos(shape.subrange(lo, hi));
    let p = numel(shape.take(lo));
    let q = numel(shape.subrange(lo, hi));
    let r = numel(shape.skip(hi));
    assert(q <= p * (q * r)) by (nonlinear_arith)
        requires
            p >= 1,
            q >= 1,
            r >= 1;
}

/// A valid index addresses a position inside the flat storage.
pub proof fn lemma_flat_index_bounds(shape: Seq<usize>, idx: Seq<int>)
    requires
        valid_index(shape, idx),
    ensures
        0 <= flat_index(shape, idx) < numel(shape),
    decreases shape.len(),
{
    if shape.len() == 0 {
    } else {
        assert(valid_index(shape.skip(1), idx.skip(1))) by {
            assert(forall|k: int| 0 <= k < shape.skip(1).len()
                ==> 0 <= #[trigger] idx.skip(1)[k] < shape.skip(1)[k]) by {
                assert(forall|k: int| 0 <= k < shape.skip(1).len()
                    ==> idx.skip(1)[k] == idx[k + 1] && shape.skip(1)[k] == shape[k + 1]);
            }
        }
        lemma_flat_index_bounds(shape.skip(1), idx.skip(1));
        let d = shape[0] as int;
        let m = numel(shape.skip(1));
        let i0 = idx[0];
        let rest = flat_index(shape.skip(1), idx.skip(1));
        assert(0 <= i0 * m + rest && i0 * m + rest < d * m) by (nonlinear_arith)
            requires
                0 <= i0 <= d - 1,
                0 <= rest < m;
    }
}

/// Splitting a flat index at position `i`: the flat position is the flat
/// position of the leading coordinates, scaled by the element count of the
/// trailing dimensions, plus the flat position of the trailing coordinates.
pub proof fn lemma_flat_split(shape: Seq<usize>, idx: Seq<int>, i: int)
    requires
        idx.len() == shape.len(),
        0 <= i <= shape.len(),
    ensures
        flat_index(shape, idx) == flat_index(shape.take(i), idx.take(i)) * numel(shape.skip(i))
            + flat_index(shape.skip(i), idx.skip(i)),
    decreases i,
{
    if i == 0 {
        assert(shape.take(0) =~= Seq::<usize>::empty());
        assert(idx.take(0) =~= Seq::<int>::empty());
        assert(shape.skip(0) =~= shape);
        assert(idx.skip(0) =~= idx);
    } else {
        let s1 = shape.skip(1);
        let i1 = idx.skip(1);
        lemma_flat_split(s1, i1, i - 1);
        assert(s1.take(i - 1) =~= shape.take(i).skip(1));
        assert(i1.take(i - 1) =~= idx.take(i).skip(1));
        assert(s1.skip(i - 1) =~= shape.skip(i));
        assert(i1.skip(i - 1) =~= idx.skip(i));
        lemma_numel_split(s1, i - 1);
        assert(s1.take(i - 1) =~= shape.take(i).skip(1));
        // abbreviations for the pieces
        let x = idx[0];
        let na = numel(shape.take(i).skip(1));
        let nb = numel(shape.skip(i));
        let fa = flat_index(shape.take(i).skip(1), idx.take(i).skip(1));
        let fb = flat_index(shape.skip(i), idx.skip(i));
        assert(numel(s1) == na * nb);
        assert(flat_index(s1, i1) == fa * nb + fb);
        assert(flat_index(shape, idx) == x * (na * nb) + (fa * nb + fb));
        assert(shape.take(i).len() == i);
        assert(shape.take(i)[0] == shape[0]);
        assert(idx.take(i)[0] == idx[0]);
        assert(flat_index(shape.take(i), idx.take(i)) == x * na + fa);
        assert(x * (na * nb) + (fa * nb + fb) == (x * na + fa) * nb + fb) by (nonlinear_arith);
    }
}

/// Returns the number of elements of `shape` where it fits the machine, and
/// `None` where it exceeds `usize::MAX`.
pub fn numel_of(shape: &Vec<usize>) -> (r: Option<usize>)
    ensures
        match r {
            Some(n) => n == numel(shape@),
            None => numel(shape@) > usize::MAX,
        },
{
    let n = shape.len();
    let mut i: usize = 0;
    while i < n
        invariant
            0 <= i <= n,
            n == shape@.len(),
            forall|k: int| 0 <= k < i ==> #[trigger] shape@[k] >= 1,
        decreases n - i,
    {
        if shape[i] == 0 {
            proof {
                lemma_numel_zero(shape@, i as int);
            }
            return Some(0);
        }
        i += 1;
    }
    let mut acc: u128 = 1;
    let mut j: usize = 0;
    while j < n
        invariant
            0 <= j <= n,
            n == shape@.len(),
            forall|k: int| 0 <= k < n ==> #[trigger] shape@[k] >= 1,
            acc == numel(shape@.take(j as int)),
            acc <= usize::MAX,
        decreases n - j,
    {
        let d = shape[j];
        proof {
            assert(shape@.take(j + 1) =~= shape@.take(j as int).push(shape@[j as int]));
            lemma_numel_push(shape@.take(j as int), shape@[j as int]);
            assert(acc * (d as u128) <= u128::MAX) by (nonlinear_arith)
                requires
                    acc <= u64::MAX,
                    d <= u64::MAX;
        }
        let next = acc * (d as u128);
        if next > usize::MAX as u128 {
            proof {
                lemma_numel_split(shape@, j + 1);
                assert(forall|k: int| 0 <= k < shape@.skip(j + 1).len()
                    ==> #[trigger] shape@.skip(j + 1)[k] >= 1);
                lemma_numel_pos(shape@.skip(j + 1));
                let a = numel(shape@.take(j + 1));
                let b = numel(shape@.skip(j + 1));
                assert(a <= a * b) by (nonlinear_arith)
                    requires
                        a >= 0,
                        b >= 1;
            }
            return None;
        }
        acc = next;
        j += 1;
    }
    proof {
        assert(shape@.take(n as int) =~= shape@);
    }
    Some(acc as usize)
}

/// Returns the element count of `shape[lo..hi]`. With every dimension
/// positive and the whole shape's element count within machine range, no
/// intermediate product can overflow.
pub fn numel_range(shape: &Vec<usize>, lo: usize, hi: usize) -> (n: usize)
    requires
        lo <= hi <= shape@.len(),
        forall|k: int| 0 <= k < shape@.len() ==> #[trigger] shape@[k] >= 1,
        numel(shape@) <= usize::MAX,
    ensures
        n == numel(shape@.subrange(lo as int, hi as int)),
        n >= 1,
{
    let mut acc: usize = 1;
    let mut j: usize = lo;
    proof {
        assert(shape@.subrange(lo as int, lo as int) =~= Seq::<usize>::empty());
    }
    while j < hi
        invariant
            lo <= j <= hi <= shape@.len(),
            forall|k: int| 0 <= k < shape@.len() ==> #[trigger] shape@[k] >= 1,
            numel(shape@) <= usize::MAX,
            acc == numel(shape@.subrange(lo as int, j as int)),
            acc >= 1,
        decreases hi - j,
    {
        proof {
            assert(shape@.subrange(lo as int, j + 1)
                =~= shape@.subrange(lo as int, j as int).push(shape@[j as int]));
            lemma_numel_push(shape@.subrange(lo as int, j as int), shape@[j as int]);
            lemma_numel_subrange_le(shape@, lo as int, j + 1);
            lemma_numel_pos(shape@.subrange(lo as int, j + 1));
        }
        acc = acc * shape[j];
        j += 1;
    }
    acc
}

} // verus!
