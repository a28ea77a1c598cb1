use vstd::prelude::*;
use crate::matrix::{has_shape, Matrix};
use crate::scalar::Scalar;
use crate::vector::Vector;

verus! {

/// Edge length of the square tiles that `gemm` works through.
pub const TILE: usize = 64;

/// `u[0] * v[0] + ... + u[n - 1] * v[n - 1]`, as an integer.
pub open spec fn dot_prefix<T: Scalar>(u: Seq<T>, v: Seq<T>, n: int) -> int
    decreases n,
{
    if n <= 0 {
        0
    } else {
        dot_prefix(u, v, n - 1) + u[n - 1].value() * v[n - 1].value()
    }
}

/// Step `k` of the accumulation: the product and the new partial sum fit in `T`.
pub open spec fn dot_step_fits<T: Scalar>(u: Seq<T>, v: Seq<T>, k: int) -> bool {
    &&& T::fits(u[k].value() * v[k].value())
    &&& T::fits(dot_prefix(u, v, k + 1))
}

/// Accumulating `u[k] * v[k]` for `k = 0, 1, ..., n - 1` stays within `T`.
pub open spec fn dot_fits<T: Scalar>(u: Seq<T>, v: Seq<T>, n: int) -> bool {
    forall|k: int| 0 <= k < n ==> #[trigger] dot_step_fits(u, v, k)
}

/// Column `j` of a matrix given by its rows.
pub open spec fn col_of<T>(m: Seq<Seq<T>>, j: int) -> Seq<T> {
    Seq::new(m.len(), |k: int| m[k][j])
}

/// Entry `(i, j)` of the product `a * b`, over the first `k` terms.
pub open spec fn product_prefix<T: Scalar>(a: Seq<Seq<T>>, b: Seq<Seq<T>>, i: int, j: int, k: int) -> int {
    dot_prefix(a[i], col_of(b, j), k)
}

/// Every entry of the `r`-by-`c` product of `a` and `b`, with inner
/// dimension `p`, is computed without leaving `T`.
pub open spec fn product_fits<T: Scalar>(a: Seq<Seq<T>>, b: Seq<Seq<T>>, r: int, p: int, c: int) -> bool {
    forall|i: int, j: int| 0 <= i < r && 0 <= j < c ==> #[trigger] dot_fits(a[i], col_of(b, j), p)
}

/// `m` is the `r`-by-`c` product of `a` and `b`, whose inner dimension is `p`:
/// each entry is the plain triple-loop sum, taken from zero over increasing `k`.
pub open spec fn is_product<T: Scalar>(m: Seq<Seq<T>>, a: Seq<Seq<T>>, b: Seq<Seq<T>>, r: int, p: int, c: int) -> bool {
    &&& has_shape(m, r, c)
    &&& forall|i: int, j: int|
        0 <= i < r && 0 <= j < c ==> (#[trigger] m[i][j]).value() == product_prefix(a, b, i, j, p)
}

/// The dot product `u[0] * v[0] + ... + u[n - 1] * v[n - 1]`, accumulated
/// from the first index to the last.
pub fn dot<T: Scalar>(lhs: &Vector<T>, rhs: &Vector<T>) -> (r: T)
    requires
        lhs.wf(),
        rhs.wf(),
        lhs.n == rhs.n,
        dot_fits(lhs@, rhs@, lhs.n as int),
    ensures
        r.value() == dot_prefix(lhs@, rhs@, lhs.n as int),
{
    let mut acc = T::zero();
    let mut k: usize = 0;
    while k < lhs.n
        invariant
            lhs.wf(),
            rhs.wf(),
            lhs.n == rhs.n,
            k <= lhs.n,
            dot_fits(lhs@, rhs@, lhs.n as int),
            acc.value() == dot_prefix(lhs@, rhs@, k as int),
        decreases lhs.n - k,
    {
        assert(dot_step_fits(lhs@, rhs@, k as int));
        let p = lhs.at(k).times(rhs.at(k));
        acc = acc.plus(p);
        k += 1;
    }
    acc
}

/// The matrix-vector product: entry `i` of the result is the dot product of
/// row `i` of `lhs` with `rhs`.
pub fn gemv<T: Scalar>(lhs: &Matrix<T>, rhs: &Vector<T>) -> (r: Vector<T>)
    requires
        lhs.wf(),
        rhs.wf(),
        lhs.n_cols == rhs.n,
        forall|i: int| 0 <= i < lhs.n_rows ==> #[trigger] dot_fits(lhs@[i], rhs@, rhs.n as int),
    ensures
        r.wf(),
        r.n == lhs.n_rows,
        forall|i: int| 0 <= i < lhs.n_rows ==> (#[trigger] r@[i]).value() == dot_prefix(lhs@[i], rhs@, rhs.n as int),
{
    let mut out: Vec<T> = Vec::new();
    let mut i: usize = 0;
    proof {
        lhs.lemma_view();
    }
    while i < lhs.n_rows
        invariant
            lhs.wf(),
            rhs.wf(),
            lhs.n_cols == rhs.n,
            has_shape(lhs@, lhs.n_rows as int, lhs.n_cols as int),
            forall|i: int| 0 <= i < lhs.n_rows ==> #[trigger] dot_fits(lhs@[i], rhs@, rhs.n as int),
            i <= lhs.n_rows,
            out@.len() == i,
            forall|a: int| 0 <= a < i ==> (#[trigger] out@[a]).value() == dot_prefix(lhs@[a], rhs@, rhs.n as int),
        decreases lhs.n_rows - i,
    {
        let mut acc = T::zero();
        let mut k: usize = 0;
        assert(dot_fits(lhs@[i as int], rhs@, rhs.n as int));
        while k < rhs.n
            invariant
                lhs.wf(),
                rhs.wf(),
                lhs.n_cols == rhs.n,
                i < lhs.n_rows,
                has_shape(lhs@, lhs.n_rows as int, lhs.n_cols as int),
                dot_fits(lhs@[i as int], rhs@, rhs.n as int),
                k <= rhs.n,
                acc.value() == dot_prefix(lhs@[i as int], rhs@, k as int),
            decreases rhs.n - k,
        {
            assert(dot_step_fits(lhs@[i as int], rhs@, k as int));
            let p = lhs.at(i, k).times(rhs.at(k));
            acc = acc.plus(p);
            k += 1;
        }
        out.push(acc);
        i += 1;
    }
    Vector { n: lhs.n_rows, data: out }
}

/// Adds the terms `k0 .. k1` of entry `(i, j)` of `a * b` to `acc`, in
/// increasing `k`.
fn accumulate_entry<T: Scalar>(
    acc: T,
    a: &Matrix<T>,
    b: &Matrix<T>,
    i: usize,
    j: usize,
    k0: usize,
    k1: usize,
) -> (r: T)
    requires
        a.wf(),
        b.wf(),
        a.n_cols == b.n_rows,
        i < a.n_rows,
        j < b.n_cols,
        k0 <= k1 <= a.n_cols,
        dot_fits(a@[i as int], col_of(b@, j as int), a.n_cols as int),
        acc.value() == product_prefix(a@, b@, i as int, j as int, k0 as int),
    ensures
        r.value() == product_prefix(a@, b@, i as int, j as int, k1 as int),
{
    proof {
        a.lemma_view();
        b.lemma_view();
    }
    let mut acc = acc;
    let mut k: usize = k0;
    while k < k1
        invariant
            a.wf(),
            b.wf(),
            a.n_cols == b.n_rows,
            i < a.n_rows,
            j < b.n_cols,
            k0 <= k <= k1 <= a.n_cols,
            has_shape(a@, a.n_rows as int, a.n_cols as int),
            has_shape(b@, b.n_rows as int, b.n_cols as int),
            dot_fits(a@[i as int], col_of(b@, j as int), a.n_cols as int),
            acc.value() == product_prefix(a@, b@, i as int, j as int, k as int),
        decreases k1 - k,
    {
        assert(dot_step_fits(a@[i as int], col_of(b@, j as int), k as int));
        let p = a.at(i, k).times(b.at(k, j));
        acc = acc.plus(p);
        k += 1;
    }
    acc
}

/// Adds the terms `k0 .. k1` to every entry of the tile of `c` made of rows
/// `i0 .. i1` and columns `j0 .. j1`; entries outside the tile stay as they were.
fn accumulate_tile<T: Scalar>(
    c: &mut Matrix<T>,
    a: &Matrix<T>,
    b: &Matrix<T>,
    i0: usize,
    i1: usize,
    j0: usize,
    j1: usize,
    k0: usize,
    k1: usize,
)
    requires
        old(c).wf(),
        a.wf(),
        b.wf(),
        a.n_cols == b.n_rows,
        old(c).n_rows == a.n_rows,
        old(c).n_cols == b.n_cols,
        i0 <= i1 <= a.n_rows,
        j0 <= j1 <= b.n_cols,
        k0 <= k1 <= a.n_cols,
        product_fits(a@, b@, a.n_rows as int, a.n_cols as int, b.n_cols as int),
        forall|i: int, j: int|
            i0 <= i < i1 && j0 <= j < j1 ==> (#[trigger] old(c)@[i][j]).value() == product_prefix(
                a@,
                b@,
                i,
                j,
                k0 as int,
            ),
    ensures
        final(c).wf(),
        final(c).n_rows == old(c).n_rows,
        final(c).n_cols == old(c).n_cols,
        forall|i: int, j: int|
            i0 <= i < i1 && j0 <= j < j1 ==> (#[trigger] final(c)@[i][j]).value() == product_prefix(
                a@,
                b@,
                i,
                j,
                k1 as int,
            ),
        forall|i: int, j: int|
            0 <= i < a.n_rows && 0 <= j < b.n_cols && !(i0 <= i < i1 && j0 <= j < j1)
                ==> #[trigger] final(c)@[i][j] == old(c)@[i][j],
{
    let ghost c0 = c@;
    proof {
        c.lemma_view();
    }
    let mut i: usize = i0;
    while i < i1
        invariant
            c.wf(),
            a.wf(),
            b.wf(),
            a.n_cols == b.n_rows,
            c.n_rows == a.n_rows,
            c.n_cols == b.n_cols,
            i0 <= i <= i1 <= a.n_rows,
            j0 <= j1 <= b.n_cols,
            k0 <= k1 <= a.n_cols,
            has_shape(c0, a.n_rows as int, b.n_cols as int),
            product_fits(a@, b@, a.n_rows as int, a.n_cols as int, b.n_cols as int),
            forall|x: int, y: int|
                i0 <= x < i1 && j0 <= y < j1 ==> (#[trigger] c0[x][y]).value() == product_prefix(
                    a@,
                    b@,
                    x,
                    y,
                    k0 as int,
                ),
            forall|x: int, y: int|
                i0 <= x < i && j0 <= y < j1 ==> (#[trigger] c@[x][y]).value() == product_prefix(
                    a@,
                    b@,
                    x,
                    y,
                    k1 as int,
                ),
            forall|x: int, y: int|
                0 <= x < a.n_rows && 0 <= y < b.n_cols && !(i0 <= x < i && j0 <= y < j1)
                    ==> #[trigger] c@[x][y] == c0[x][y],
        decreases i1 - i,
    {
        let mut j: usize = j0;
        while j < j1
            invariant
                c.wf(),
                a.wf(),
                b.wf(),
                a.n_cols == b.n_rows,
                c.n_rows == a.n_rows,
                c.n_cols == b.n_cols,
                i0 <= i < i1 <= a.n_rows,
                j0 <= j <= j1 <= b.n_cols,
                k0 <= k1 <= a.n_cols,
                has_shape(c0, a.n_rows as int, b.n_cols as int),
                product_fits(a@, b@, a.n_rows as int, a.n_cols as int, b.n_cols as int),
                forall|x: int, y: int|
                    i0 <= x < i1 && j0 <= y < j1 ==> (#[trigger] c0[x][y]).value() == product_prefix(
                        a@,
                        b@,
                        x,
                        y,
                        k0 as int,
                    ),
                forall|x: int, y: int|
                    ((i0 <= x < i && j0 <= y < j1) || (x == i && j0 <= y < j)) ==> (#[trigger] c@[x][y]).value()
                        == product_prefix(a@, b@, x, y, k1 as int),
                forall|x: int, y: int|
                    0 <= x < a.n_rows && 0 <= y < b.n_cols && !((i0 <= x < i && j0 <= y < j1) || (x
                        == i && j0 <= y < j)) ==> #[trigger] c@[x][y] == c0[x][y],
            decreases j1 - j,
        {
            proof {
                c.lemma_view();
                assert(dot_fits(a@[i as int], col_of(b@, j as int), a.n_cols as int));
                assert(c@[i as int][j as int] == c0[i as int][j as int]);
            }
            let x = c.at(i, j);
            let y = accumulate_entry(x, a, b, i, j, k0, k1);
            c.set(i, j, y);
            proof {
                c.lemma_view();
            }
            j += 1;
        }
        i += 1;
    }
}

/// The product `lhs * rhs`, worked through in square tiles of edge `tile`
/// (tiles at the edges are clipped to the matrix). Each entry is accumulated
/// over `k` in increasing order, so the result is the plain product for every
/// tile size.
pub fn gemm_tiled<T: Scalar>(lhs: &Matrix<T>, rhs: &Matrix<T>, tile: usize) -> (r: Matrix<T>)
    requires
        lhs.wf(),
        rhs.wf(),
        lhs.n_cols == rhs.n_rows,
        lhs.n_rows * rhs.n_cols <= usize::MAX,
        tile > 0,
        product_fits(lhs@, rhs@, lhs.n_rows as int, lhs.n_cols as int, rhs.n_cols as int),
    ensures
        r.wf(),
        r.n_rows == lhs.n_rows,
        r.n_cols == rhs.n_cols,
        is_product(r@, lhs@, rhs@, lhs.n_rows as int, lhs.n_cols as int, rhs.n_cols as int),
{
    let rows = lhs.n_rows;
    let cols = rhs.n_cols;
    let inner = lhs.n_cols;
    let mut c = Matrix::filled(rows, cols, T::zero());
    let mut ii: usize = 0;
    while ii < rows
        invariant
            c.wf(),
            lhs.wf(),
            rhs.wf(),
            inner == lhs.n_cols,
            inner == rhs.n_rows,
            rows == lhs.n_rows,
            cols == rhs.n_cols,
            c.n_rows == rows,
            c.n_cols == cols,
            tile > 0,
            ii <= rows,
            product_fits(lhs@, rhs@, rows as int, inner as int, cols as int),
            forall|x: int, y: int|
                0 <= x < rows && 0 <= y < cols ==> (#[trigger] c@[x][y]).value() == product_prefix(
                    lhs@,
                    rhs@,
                    x,
                    y,
                    if x < ii { inner as int } else { 0 },
                ),
        decreases rows - ii,
    {
        let iend = if rows - ii > tile { ii + tile } else { rows };
        let mut jj: usize = 0;
        while jj < cols
            invariant
                c.wf(),
                lhs.wf(),
                rhs.wf(),
                inner == lhs.n_cols,
                inner == rhs.n_rows,
                rows == lhs.n_rows,
                cols == rhs.n_cols,
                c.n_rows == rows,
                c.n_cols == cols,
                tile > 0,
                ii < iend <= rows,
                jj <= cols,
                product_fits(lhs@, rhs@, rows as int, inner as int, cols as int),
                forall|x: int, y: int|
                    0 <= x < rows && 0 <= y < cols ==> (#[trigger] c@[x][y]).value() == product_prefix(
                        lhs@,
                        rhs@,
                        x,
                        y,
                        if x < ii || (x < iend && y < jj) { inner as int } else { 0 },
                    ),
            decreases cols - jj,
        {
            let jend = if cols - jj > tile { jj + tile } else { cols };
            let mut kk: usize = 0;
            while kk < inner
                invariant
                    c.wf(),
                    lhs.wf(),
                    rhs.wf(),
                    inner == lhs.n_cols,
                    inner == rhs.n_rows,
                    rows == lhs.n_rows,
                    cols == rhs.n_cols,
                    c.n_rows == rows,
                    c.n_cols == cols,
                    tile > 0,
                    ii < iend <= rows,
                    jj < jend <= cols,
                    kk <= inner,
                    product_fits(lhs@, rhs@, rows as int, inner as int, cols as int),
                    forall|x: int, y: int|
                        0 <= x < rows && 0 <= y < cols ==> (#[trigger] c@[x][y]).value() == product_prefix(
                            lhs@,
                            rhs@,
                            x,
                            y,
                            if x < ii || (x < iend && y < jj) {
                                inner as int
                            } else if ii <= x < iend && jj <= y < jend {
                                kk as int
                            } else {
                                0
                            },
                        ),
                decreases inner - kk,
            {
                let kend = if inner - kk > tile { kk + tile } else { inner };
                let ghost before = c@;
                accumulate_tile(&mut c, lhs, rhs, ii, iend, jj, jend, kk, kend);
                proof {
                    assert forall|x: int, y: int|
                        0 <= x < rows && 0 <= y < cols implies (#[trigger] c@[x][y]).value() == product_prefix(
                            lhs@,
                            rhs@,
                            x,
                            y,
                            if x < ii || (x < iend && y < jj) {
                                inner as int
                            } else if ii <= x < iend && jj <= y < jend {
                                kend as int
                            } else {
                                0
                            },
                        ) by {
                        if !(ii <= x < iend && jj <= y < jend) {
                            assert(c@[x][y] == before[x][y]);
                        }
                    }
                }
                kk = kend;
            }
            jj = jend;
        }
        ii = iend;
    }
    proof {
        c.lemma_view();
    }
    c
}

/// The product `lhs * rhs`, worked through in tiles of edge `TILE`.
pub fn gemm<T: Scalar>(lhs: &Matrix<T>, rhs: &Matrix<T>) -> (r: Matrix<T>)
    requires
        lhs.wf(),
        rhs.wf(),
        lhs.n_cols == rhs.n_rows,
        lhs.n_rows * rhs.n_cols <= usize::MAX,
        product_fits(lhs@, rhs@, lhs.n_rows as int, lhs.n_cols as int, rhs.n_cols as int),
    ensures
        r.wf(),
        r.n_rows == lhs.n_rows,
        r.n_cols == rhs.n_cols,
        is_product(r@, lhs@, rhs@, lhs.n_rows as int, lhs.n_cols as int, rhs.n_cols as int),
{
    gemm_tiled(lhs, rhs, TILE)
}

/// The product `lhs * rhs` by the plain triple loop: for each row `i`, for
/// each `k`, row `k` of `rhs` scaled by `lhs[(i, k)]` is added to row `i` of
/// the result.
pub fn matmul<T: Scalar>(lhs: &Matrix<T>, rhs: &Matrix<T>) -> (r: Matrix<T>)
    requires
        lhs.wf(),
        rhs.wf(),
        lhs.n_cols == rhs.n_rows,
        lhs.n_rows * rhs.n_cols <= usize::MAX,
        product_fits(lhs@, rhs@, lhs.n_rows as int, lhs.n_cols as int, rhs.n_cols as int),
    ensures
        r.wf(),
        r.n_rows == lhs.n_rows,
        r.n_cols == rhs.n_cols,
        is_product(r@, lhs@, rhs@, lhs.n_rows as int, lhs.n_cols as int, rhs.n_cols as int),
{
    let rows = lhs.n_rows;
    let cols = rhs.n_cols;
    let inner = lhs.n_cols;
    let mut c = Matrix::filled(rows, cols, T::zero());
    proof {
        lhs.lemma_view();
        rhs.lemma_view();
    }
    let mut i: usize = 0;
    while i < rows
        invariant
            c.wf(),
            lhs.wf(),
            rhs.wf(),
            inner == lhs.n_cols,
            inner == rhs.n_rows,
            rows == lhs.n_rows,
            cols == rhs.n_cols,
            c.n_rows == rows,
            c.n_cols == cols,
            i <= rows,
            has_shape(lhs@, rows as int, inner as int),
            has_shape(rhs@, inner as int, cols as int),
            product_fits(lhs@, rhs@, rows as int, inner as int, cols as int),
            forall|x: int, y: int|
                0 <= x < rows && 0 <= y < cols ==> (#[trigger] c@[x][y]).value() == product_prefix(
                    lhs@,
                    rhs@,
                    x,
                    y,
                    if x < i { inner as int } else { 0 },
                ),
        decreases rows - i,
    {
        let mut k: usize = 0;
        while k < inner
            invariant
                c.wf(),
                lhs.wf(),
                rhs.wf(),
                inner == lhs.n_cols,
                inner == rhs.n_rows,
                rows == lhs.n_rows,
                cols == rhs.n_cols,
                c.n_rows == rows,
                c.n_cols == cols,
                i < rows,
                k <= inner,
                has_shape(lhs@, rows as int, inner as int),
                has_shape(rhs@, inner as int, cols as int),
                product_fits(lhs@, rhs@, rows as int, inner as int, cols as int),
                forall|x: int, y: int|
                    0 <= x < rows && 0 <= y < cols ==> (#[trigger] c@[x][y]).value() == product_prefix(
                        lhs@,
                        rhs@,
                        x,
                        y,
                        if x < i { inner as int } else if x == i { k as int } else { 0 },
                    ),
            decreases inner - k,
        {
            let aik = lhs.at(i, k);
            let mut j: usize = 0;
            while j < cols
                invariant
                    c.wf(),
                    lhs.wf(),
                    rhs.wf(),
                    inner == lhs.n_cols,
                    inner == rhs.n_rows,
                    rows == lhs.n_rows,
                    cols == rhs.n_cols,
                    c.n_rows == rows,
                    c.n_cols == cols,
                    i < rows,
                    k < inner,
                    j <= cols,
                    aik == lhs@[i as int][k as int],
                    has_shape(lhs@, rows as int, inner as int),
                    has_shape(rhs@, inner as int, cols as int),
                    product_fits(lhs@, rhs@, rows as int, inner as int, cols as int),
                    forall|x: int, y: int|
                        0 <= x < rows && 0 <= y < cols ==> (#[trigger] c@[x][y]).value() == product_prefix(
                            lhs@,
                            rhs@,
                            x,
                            y,
                            if x < i {
                                inner as int
                            } else if x == i && y < j {
                                k + 1
                            } else if x == i {
                                k as int
                            } else {
                                0
                            },
                        ),
                decreases cols - j,
            {
                proof {
                    assert(dot_fits(lhs@[i as int], col_of(rhs@, j as int), inner as int));
                    assert(dot_step_fits(lhs@[i as int], col_of(rhs@, j as int), k as int));
                }
                let p = aik.times(rhs.at(k, j));
                let v = c.at(i, j).plus(p);
                c.set(i, j, v);
                proof {
                    c.lemma_view();
                }
                j += 1;
            }
            k += 1;
        }
        i += 1;
    }
    proof {
        c.lemma_view();
    }
    c
}

/// The tiled and the plain product agree entry by entry for every tile
/// size: any two matrices that are the product of `a` and `b` are equal.
pub proof fn lemma_product_unique<T: Scalar>(
    m1: Seq<Seq<T>>,
    m2: Seq<Seq<T>>,
    a: Seq<Seq<T>>,
    b: Seq<Seq<T>>,
    r: int,
    p: int,
    c: int,
)
    requires
        is_product(m1, a, b, r, p, c),
        is_product(m2, a, b, r, p, c),
    ensures
        m1 == m2,
{
    assert forall|i: int| 0 <= i < r implies #[trigger] m1[i] == m2[i] by {
        assert forall|j: int| 0 <= j < c implies #[trigger] m1[i][j] == m2[i][j] by {
            m1[i][j].lemma_value_injective(m2[i][j]);
        }
        assert(m1[i] =~= m2[i]);
    }
    assert(m1 =~= m2);
}

} // verus!
