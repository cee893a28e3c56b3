use vstd::prelude::*;

verus! {

/// A run of zero elements.
pub(crate) open spec fn zero_seq(n: int) -> Seq<i64> {
    Seq::new(n as nat, |i: int| 0i64)
}

/// The flat position of cell `(b, m, t)` of a tensor whose dimension under
/// padding has grown to `new_mid`: `b` counts blocks over the leading
/// dimensions, `m` is the coordinate on the padded dimension, `t` the flat
/// position over the trailing dimensions.
pub(crate) open spec fn pad_pos(new_mid: int, inner: int, b: int, m: int, t: int) -> int {
    b * (new_mid * inner) + m * inner + t
}

/// The element that padding with `left` leading zeros places at cell
/// `(b, m, t)`: an element of the original data inside the band
/// `[left, left + mid)`, a zero outside it.
pub(crate) open spec fn pad_cell(
    data: Seq<i64>,
    mid: int,
    inner: int,
    left: int,
    b: int,
    m: int,
    t: int,
) -> i64 {
    if left <= m && m < left + mid {
        data[b * (mid * inner) + (m - left) * inner + t]
    } else {
        0i64
    }
}

/// Appends `count` zero elements.
pub(crate) fn push_zeros(out: &mut Vec<i64>, count: usize)
    requires
        old(out)@.len() + count <= usize::MAX,
    ensures
        final(out)@ == old(out)@ + zero_seq(count as int),
{
    let mut p: usize = 0;
    while p < count
        invariant
            0 <= p <= count,
            out@.len() == old(out)@.len() + p,
            out@ =~= old(out)@ + zero_seq(p as int),
        decreases count - p,
    {
        out.push(0);
        proof {
            assert(out@ =~= old(out)@ + zero_seq(p + 1));
        }
        p += 1;
    }
    proof {
        assert(out@ =~= old(out)@ + zero_seq(count as int));
    }
}

/// Appends `count` elements of `src`, starting at `from`.
pub(crate) fn push_slice(out: &mut Vec<i64>, src: &Vec<i64>, from: usize, count: usize)
    requires
        from + count <= src@.len(),
        old(out)@.len() + count <= usize::MAX,
    ensures
        final(out)@ == old(out)@ + src@.subrange(from as int, from + count),
{
    let n = src.len();
    let mut p: usize = 0;
    while p < count
        invariant
            0 <= p <= count,
            from + count <= n,
            n == src@.len(),
            out@.len() == old(out)@.len() + p,
            out@ =~= old(out)@ + src@.subrange(from as int, from + p),
        decreases count - p,
    {
        out.push(src[from + p]);
        proof {
            assert(out@ =~= old(out)@ + src@.subrange(from as int, from + p + 1));
        }
        p += 1;
    }
    proof {
        assert(out@ =~= old(out)@ + src@.subrange(from as int, from + count));
    }
}

/// One padded block: appending `left * inner` zeros, the `a`-th block of the
/// original data, and `right * inner` zeros extends a well-formed prefix of
/// `a` padded blocks to one of `a + 1`, and every cell of the new block holds
/// its `pad_cell` value.
pub(crate) proof fn lemma_block_cells(
    prev: Seq<i64>,
    cur: Seq<i64>,
    data: Seq<i64>,
    a: int,
    mid: int,
    inner: int,
    left: int,
    right: int,
)
    requires
        a >= 0,
        mid >= 1,
        inner >= 1,
        left >= 0,
        right >= 0,
        prev.len() == a * ((left + mid + right) * inner),
        0 <= a * (mid * inner),
        (a + 1) * (mid * inner) <= data.len(),
        cur == prev + zero_seq(left * inner) + data.subrange(a * (mid * inner), (a + 1) * (mid
            * inner)) + zero_seq(right * inner),
    ensures
        cur.len() == (a + 1) * ((left + mid + right) * inner),
        forall|j: int| 0 <= j < prev.len() ==> cur[j] == prev[j],
        forall|m: int, t: int|
            0 <= m < left + mid + right && 0 <= t < inner ==> cur[#[trigger] pad_pos(
                left + mid + right,
                inner,
                a,
                m,
                t,
            )] == pad_cell(data, mid, inner, left, a, m, t),
{
    let nm = left + mid + right;
    let nb = nm * inner;
    let mb = mid * inner;
    assert((a + 1) * mb == a * mb + mb) by (nonlinear_arith);
    assert(left * inner + mid * inner + right * inner == nb) by (nonlinear_arith)
        requires
            nb == (left + mid + right) * inner;
    assert((a + 1) * nb == a * nb + nb) by (nonlinear_arith);
    assert(left * inner >= 0 && right * inner >= 0 && mb >= 0) by (nonlinear_arith)
        requires
            left >= 0,
            right >= 0,
            mid >= 1,
            inner >= 1,
            mb == mid * inner;
    assert(cur.len() == prev.len() + left * inner + mb + right * inner);
    assert forall|m: int, t: int|
        0 <= m < left + mid + right && 0 <= t < inner implies cur[#[trigger] pad_pos(
        left + mid + right,
        inner,
        a,
        m,
        t,
    )] == pad_cell(data, mid, inner, left, a, m, t) by {
        let j = pad_pos(nm, inner, a, m, t);
        let off = m * inner + t;
        assert(j == a * nb + off);
        assert(0 <= off < nb) by (nonlinear_arith)
            requires
                0 <= m < nm,
                0 <= t < inner,
                off == m * inner + t,
                nb == nm * inner;
        if m < left {
            assert(off < left * inner) by (nonlinear_arith)
                requires
                    m <= left - 1,
                    0 <= t < inner,
                    off == m * inner + t;
            assert(cur[j] == zero_seq(left * inner)[off]);
            assert(cur[j] == 0i64);
        } else if m < left + mid {
            let q = (m - left) * inner + t;
            assert(off == left * inner + q) by (nonlinear_arith)
                requires
                    off == m * inner + t,
                    q == (m - left) * inner + t;
            assert(0 <= q < mb) by (nonlinear_arith)
                requires
                    left <= m < left + mid,
                    0 <= t < inner,
                    q == (m - left) * inner + t,
                    mb == mid * inner;
            assert(cur[j] == data.subrange(a * mb, a * mb + mb)[q]);
            assert(cur[j] == data[a * mb + q]);
        } else {
            let q = (m - left - mid) * inner + t;
            assert(off == left * inner + mb + q) by (nonlinear_arith)
                requires
                    off == m * inner + t,
                    q == (m - left - mid) * inner + t,
                    mb == mid * inner;
            assert(0 <= q < right * inner) by (nonlinear_arith)
                requires
                    left + mid <= m < left + mid + right,
                    0 <= t < inner,
                    q == (m - left - mid) * inner + t;
            assert(cur[j] == zero_seq(right * inner)[q]);
            assert(cur[j] == 0i64);
        }
    }
}

/// The shape of `shape` with dimension `dim` set to `new_mid`.
pub(crate) fn padded_shape(shape: &Vec<usize>, dim: usize, new_mid: usize) -> (r: Vec<usize>)
    requires
        dim < shape@.len(),
    ensures
        r@ == shape@.update(dim as int, new_mid),
{
    let mut out: Vec<usize> = Vec::new();
    let mut j: usize = 0;
    while j < shape.len()
        invariant
            0 <= j <= shape@.len(),
            dim < shape@.len(),
            out@ =~= shape@.update(dim as int, new_mid).take(j as int),
        decreases shape@.len() - j,
    {
        if j == dim {
            out.push(new_mid);
        } else {
            out.push(shape[j]);
        }
        proof {
            assert(out@ =~= shape@.update(dim as int, new_mid).take(j + 1));
        }
        j += 1;
    }
    proof {
        assert(shape@.update(dim as int, new_mid).take(shape@.len() as int) =~= shape@.update(
            dim as int,
            new_mid,
        ));
    }
    out
}

} // verus!
