use vstd::prelude::*;
use vstd::std_specs::cmp::PartialEqSpec;

verus! {

/// Offset of entry `(i, j)` in row-major storage with `c` columns.
pub open spec fn offset(i: int, j: int, c: int) -> int {
    i * c + j
}

/// Every in-range entry lands inside the storage.
pub proof fn lemma_offset_in_range(i: int, j: int, r: int, c: int)
    requires
        0 <= i < r,
        0 <= j < c,
    ensures
        0 <= offset(i, j, c) < r * c,
        offset(i, j, c) + 1 <= r * c,
{
    assert(0 <= i * c) by (nonlinear_arith)
        requires
            0 <= i,
            0 <= c,
    ;
    assert(i * c + c <= r * c) by (nonlinear_arith)
        requires
            i < r,
            0 <= c,
    ;
}

/// A dense matrix stored row-major: entry `(i, j)` sits at `i * n_cols + j`.
#[derive(Debug)]
pub struct Matrix<T> {
    pub n_rows: usize,
    pub n_cols: usize,
    pub data: Vec<T>,
}

impl<T> View for Matrix<T> {
    type V = Seq<Seq<T>>;

    /// The rows of the matrix.
    open spec fn view(&self) -> Seq<Seq<T>> {
        Seq::new(
            self.n_rows as nat,
            |i: int| Seq::new(self.n_cols as nat, |j: int| self.data@[offset(i, j, self.n_cols as int)]),
        )
    }
}

/// `m` has `r` rows of `c` entries each.
pub open spec fn has_shape<T>(m: Seq<Seq<T>>, r: int, c: int) -> bool {
    &&& m.len() == r
    &&& forall|i: int| 0 <= i < r ==> #[trigger] m[i].len() == c
}

/// The transpose of an `r`-by-`c` matrix given by its rows.
pub open spec fn transpose_of<T>(m: Seq<Seq<T>>, r: int, c: int) -> Seq<Seq<T>> {
    Seq::new(c as nat, |j: int| Seq::new(r as nat, |i: int| m[i][j]))
}

/// `m` is `r`-by-`r` and each entry above the diagonal equals its mirror
/// image under `T`'s own `==`.
pub open spec fn symmetric_eq<T: PartialEq>(m: Seq<Seq<T>>, r: int, c: int) -> bool {
    &&& r == c
    &&& forall|i: int, j: int| 0 <= i < j < r ==> #[trigger] m[i][j].eq_spec(&m[j][i])
}

/// Every entry below the diagonal (`j < i`) equals `d` under `T`'s own `==`.
pub open spec fn upper_triangular_eq<T: PartialEq>(m: Seq<Seq<T>>, r: int, c: int, d: T) -> bool {
    forall|i: int, j: int| 0 <= j < i < r && j < c ==> #[trigger] m[i][j].eq_spec(&d)
}

/// Every entry above the diagonal (`i < j`) equals `d` under `T`'s own `==`.
pub open spec fn lower_triangular_eq<T: PartialEq>(m: Seq<Seq<T>>, r: int, c: int, d: T) -> bool {
    forall|i: int, j: int| 0 <= i < j < c && i < r ==> #[trigger] m[i][j].eq_spec(&d)
}

/// Transposing twice gives back the matrix.
pub proof fn lemma_transpose_involutive<T>(m: Seq<Seq<T>>, r: int, c: int)
    requires
        has_shape(m, r, c),
    ensures
        transpose_of(transpose_of(m, r, c), c, r) == m,
{
    let t = transpose_of(transpose_of(m, r, c), c, r);
    assert forall|i: int| 0 <= i < r implies #[trigger] t[i] == m[i] by {
        assert(t[i] =~= m[i]);
    }
    assert(t =~= m);
}

/// A possible result of `T::default()`.
pub open spec fn is_default<T: Default>(x: T) -> bool {
    call_ensures(T::default, (), x)
}

impl<T> Matrix<T> {
    /// The storage holds exactly one element per entry.
    pub open spec fn wf(&self) -> bool {
        self.data@.len() == self.n_rows * self.n_cols
    }

    /// A well-formed matrix has `n_rows` rows of `n_cols` entries, read
    /// from row-major storage.
    pub proof fn lemma_view(&self)
        requires
            self.wf(),
        ensures
            has_shape(self@, self.n_rows as int, self.n_cols as int),
            forall|i: int, j: int|
                0 <= i < self.n_rows && 0 <= j < self.n_cols ==> #[trigger] self@[i][j]
                    == self.data@[offset(i, j, self.n_cols as int)],
    {
    }
}

impl<T: Copy> Matrix<T> {
    /// The entry in row `i` and column `j`.
    pub fn at(&self, i: usize, j: usize) -> (r: T)
        requires
            self.wf(),
            i < self.n_rows,
            j < self.n_cols,
        ensures
            r == self@[i as int][j as int],
    {
        let len = self.data.len();
        proof {
            lemma_offset_in_range(i as int, j as int, self.n_rows as int, self.n_cols as int);
            assert(offset(i as int, j as int, self.n_cols as int) < len);
        }
        self.data[i * self.n_cols + j]
    }

    /// Overwrites the entry in row `i` and column `j`.
    pub fn set(&mut self, i: usize, j: usize, v: T)
        requires
            old(self).wf(),
            i < old(self).n_rows,
            j < old(self).n_cols,
        ensures
            final(self).wf(),
            final(self).n_rows == old(self).n_rows,
            final(self).n_cols == old(self).n_cols,
            final(self)@ == old(self)@.update(i as int, old(self)@[i as int].update(j as int, v)),
    {
        let len = self.data.len();
        proof {
            lemma_offset_in_range(i as int, j as int, self.n_rows as int, self.n_cols as int);
            assert(offset(i as int, j as int, self.n_cols as int) < len);
        }
        let k = i * self.n_cols + j;
        self.data.set(k, v);
        proof {
            let ghost m = self@;
            let ghost e = old(self)@.update(i as int, old(self)@[i as int].update(j as int, v));
            assert forall|a: int| 0 <= a < self.n_rows implies #[trigger] m[a] =~= e[a] by {
                assert forall|b: int| 0 <= b < self.n_cols implies #[trigger] m[a][b] == e[a][b] by {
                    lemma_offset_in_range(a, b, self.n_rows as int, self.n_cols as int);
                    if a != i {
                        lemma_offset_distinct(a, b, i as int, j as int, self.n_cols as int);
                    }
                }
            }
            assert(m =~= e);
        }
    }

    /// An `n_rows`-by-`n_cols` matrix whose entries are all `v`.
    pub fn filled(n_rows: usize, n_cols: usize, v: T) -> (r: Self)
        requires
            n_rows * n_cols <= usize::MAX,
        ensures
            r.wf(),
            r.n_rows == n_rows,
            r.n_cols == n_cols,
            forall|i: int, j: int| 0 <= i < n_rows && 0 <= j < n_cols ==> #[trigger] r@[i][j] == v,
    {
        let n = n_rows * n_cols;
        let mut data: Vec<T> = Vec::new();
        let mut k: usize = 0;
        while k < n
            invariant
                k <= n,
                data@.len() == k,
                forall|x: int| 0 <= x < k ==> #[trigger] data@[x] == v,
            decreases n - k,
        {
            data.push(v);
            k += 1;
        }
        let r = Matrix { n_rows, n_cols, data };
        proof {
            assert forall|i: int, j: int| 0 <= i < n_rows && 0 <= j < n_cols implies #[trigger] r@[i][j] == v by {
                lemma_offset_in_range(i, j, n_rows as int, n_cols as int);
            }
        }
        r
    }

    /// An `n_rows`-by-`n_cols` matrix whose entry `(i, j)` is `gen(i, j)`,
    /// evaluated row by row.
    pub fn from_gen<F: Fn(usize, usize) -> T>(n_rows: usize, n_cols: usize, gen: F) -> (r: Self)
        requires
            n_rows * n_cols <= usize::MAX,
            forall|i: usize, j: usize| i < n_rows && j < n_cols ==> call_requires(gen, (i, j)),
        ensures
            r.wf(),
            r.n_rows == n_rows,
            r.n_cols == n_cols,
            forall|i: int, j: int|
                0 <= i < n_rows && 0 <= j < n_cols ==> call_ensures(
                    gen,
                    (i as usize, j as usize),
                    #[trigger] r@[i][j],
                ),
    {
        let mut data: Vec<T> = Vec::new();
        let mut i: usize = 0;
        while i < n_rows
            invariant
                i <= n_rows,
                n_rows * n_cols <= usize::MAX,
                data@.len() == i * n_cols,
                forall|a: usize, b: usize| a < n_rows && b < n_cols ==> call_requires(gen, (a, b)),
                forall|a: int, b: int|
                    0 <= a < i && 0 <= b < n_cols ==> call_ensures(
                        gen,
                        (a as usize, b as usize),
                        #[trigger] data@[offset(a, b, n_cols as int)],
                    ),
            decreases n_rows - i,
        {
            let mut j: usize = 0;
            while j < n_cols
                invariant
                    i < n_rows,
                    j <= n_cols,
                    data@.len() == i * n_cols + j,
                    forall|a: usize, b: usize| a < n_rows && b < n_cols ==> call_requires(gen, (a, b)),
                    forall|a: int, b: int|
                        0 <= a < i && 0 <= b < n_cols ==> call_ensures(
                            gen,
                            (a as usize, b as usize),
                            #[trigger] data@[offset(a, b, n_cols as int)],
                        ),
                    forall|b: int|
                        0 <= b < j ==> call_ensures(
                            gen,
                            (i, b as usize),
                            #[trigger] data@[offset(i as int, b, n_cols as int)],
                        ),
                decreases n_cols - j,
            {
                let v = gen(i, j);
                let ghost before = data@;
                data.push(v);
                proof {
                    assert forall|a: int, b: int|
                        0 <= a < i && 0 <= b < n_cols implies call_ensures(
                            gen,
                            (a as usize, b as usize),
                            #[trigger] data@[offset(a, b, n_cols as int)],
                        ) by {
                        lemma_offset_in_range(a, b, i as int, n_cols as int);
                        assert(data@[offset(a, b, n_cols as int)] == before[offset(a, b, n_cols as int)]);
                    }
                }
                j += 1;
            }
            proof {
                assert((i + 1) * n_cols == i * n_cols + n_cols) by (nonlinear_arith);
                assert forall|a: int, b: int|
                    0 <= a < i + 1 && 0 <= b < n_cols implies call_ensures(
                        gen,
                        (a as usize, b as usize),
                        #[trigger] data@[offset(a, b, n_cols as int)],
                    ) by {
                    if a == i {
                        assert(call_ensures(gen, (i, b as usize), data@[offset(i as int, b, n_cols as int)]));
                    }
                }
            }
            i += 1;
        }
        Matrix { n_rows, n_cols, data }
    }

    /// The transpose: entry `(j, i)` of the result is entry `(i, j)` of `self`.
    pub fn transpose(&self) -> (r: Self)
        requires
            self.wf(),
        ensures
            r.wf(),
            r.n_rows == self.n_cols,
            r.n_cols == self.n_rows,
            r@ == transpose_of(self@, self.n_rows as int, self.n_cols as int),
    {
        let rows = self.n_rows;
        let cols = self.n_cols;
        let mut data: Vec<T> = Vec::new();
        let mut j: usize = 0;
        let ghost m = self@;
        proof {
            assert(cols * rows == rows * cols) by (nonlinear_arith);
        }
        while j < cols
            invariant
                self.wf(),
                rows == self.n_rows,
                cols == self.n_cols,
                m == self@,
                j <= cols,
                data@.len() == j * rows,
                forall|a: int, b: int|
                    0 <= a < j && 0 <= b < rows ==> #[trigger] data@[offset(a, b, rows as int)] == m[b][a],
            decreases cols - j,
        {
            let mut i: usize = 0;
            while i < rows
                invariant
                    self.wf(),
                    rows == self.n_rows,
                    cols == self.n_cols,
                    m == self@,
                    j < cols,
                    i <= rows,
                    data@.len() == j * rows + i,
                    forall|a: int, b: int|
                        0 <= a < j && 0 <= b < rows ==> #[trigger] data@[offset(a, b, rows as int)]
                            == m[b][a],
                    forall|b: int| 0 <= b < i ==> #[trigger] data@[offset(j as int, b, rows as int)] == m[b][j as int],
                decreases rows - i,
            {
                let v = self.at(i, j);
                let ghost before = data@;
                data.push(v);
                proof {
                    assert forall|a: int, b: int|
                        0 <= a < j && 0 <= b < rows implies #[trigger] data@[offset(a, b, rows as int)] == m[b][a] by {
                        lemma_offset_in_range(a, b, j as int, rows as int);
                        assert(data@[offset(a, b, rows as int)] == before[offset(a, b, rows as int)]);
                    }
                }
                i += 1;
            }
            proof {
                assert((j + 1) * rows == j * rows + rows) by (nonlinear_arith);
                assert forall|a: int, b: int|
                    0 <= a < j + 1 && 0 <= b < rows implies #[trigger] data@[offset(a, b, rows as int)] == m[b][a] by {
                    if a == j {
                        assert(data@[offset(j as int, b, rows as int)] == m[b][j as int]);
                    }
                }
            }
            j += 1;
        }
        let r = Matrix { n_rows: cols, n_cols: rows, data };
        proof {
            assert(r@ =~= transpose_of(m, rows as int, cols as int)) by {
                assert forall|a: int| 0 <= a < cols implies #[trigger] r@[a] =~= transpose_of(m, rows as int, cols as int)[a] by {
                    assert forall|b: int| 0 <= b < rows implies #[trigger] r@[a][b] == m[b][a] by {
                        assert(r@[a][b] == data@[offset(a, b, rows as int)]);
                    }
                }
            }
        }
        r
    }
}

impl<T: Copy + Default> Matrix<T> {
    /// An `n_rows`-by-`n_cols` matrix filled with the default value of `T`.
    pub fn new(n_rows: usize, n_cols: usize) -> (r: Self)
        requires
            n_rows * n_cols <= usize::MAX,
        ensures
            r.wf(),
            r.n_rows == n_rows,
            r.n_cols == n_cols,
            forall|i: int, j: int| 0 <= i < n_rows && 0 <= j < n_cols ==> is_default(#[trigger] r@[i][j]),
    {
        let d = T::default();
        Self::filled(n_rows, n_cols, d)
    }
}

impl<T: Copy + PartialEq> Matrix<T> {
    /// Whether the matrix is square and equal to its transpose. Non-square
    /// matrices are never symmetric; otherwise entries `(i, j)` and `(j, i)`
    /// are compared for `i < j`, stopping at the first mismatch.
    pub fn is_symmetric(&self) -> (r: bool)
        requires
            self.wf(),
        ensures
            r ==> self.n_rows == self.n_cols,
            T::obeys_eq_spec() ==> (r == symmetric_eq(self@, self.n_rows as int, self.n_cols as int)),
    {
        if self.n_rows != self.n_cols {
            return false;
        }
        let n = self.n_rows;
        let ghost m = self@;
        let mut i: usize = 0;
        while i < n
            invariant
                self.wf(),
                n == self.n_rows,
                n == self.n_cols,
                m == self@,
                i <= n,
                T::obeys_eq_spec() ==> forall|a: int, b: int|
                    0 <= a < i && a < b < n ==> #[trigger] m[a][b].eq_spec(&m[b][a]),
            decreases n - i,
        {
            let mut j: usize = i + 1;
            while j < n
                invariant
                    self.wf(),
                    n == self.n_rows,
                    n == self.n_cols,
                    m == self@,
                    i < n,
                    i + 1 <= j <= n,
                    T::obeys_eq_spec() ==> forall|a: int, b: int|
                        0 <= a < i && a < b < n ==> #[trigger] m[a][b].eq_spec(&m[b][a]),
                    T::obeys_eq_spec() ==> forall|b: int|
                        i < b < j ==> #[trigger] m[i as int][b].eq_spec(&m[b][i as int]),
                decreases n - j,
            {
                let x = self.at(i, j);
                let y = self.at(j, i);
                if !(x == y) {
                    return false;
                }
                j += 1;
            }
            i += 1;
        }
        true
    }
}

impl<T> vstd::std_specs::core::IndexSpecImpl<(usize, usize)> for Matrix<T> {
    open spec fn index_req(&self, index: &(usize, usize)) -> bool {
        &&& self.wf()
        &&& index.0 < self.n_rows
        &&& index.1 < self.n_cols
    }
}

/// `m[(i, j)]` reads entry `(i, j)`; the index must be in bounds.
impl<T> std::ops::Index<(usize, usize)> for Matrix<T> {
    type Output = T;

    fn index(&self, index: (usize, usize)) -> (r: &T)
        ensures
            *r == self@[index.0 as int][index.1 as int],
    {
        let (i, j) = index;
        let len = self.data.len();
        proof {
            lemma_offset_in_range(i as int, j as int, self.n_rows as int, self.n_cols as int);
            assert(offset(i as int, j as int, self.n_cols as int) < len);
        }
        &self.data[i * self.n_cols + j]
    }
}

impl<T: Copy + PartialEq + Default> Matrix<T> {
    /// Whether every entry below the diagonal is the default value of `T`.
    pub fn is_upper_triangular(&self) -> (r: bool)
        requires
            self.wf(),
        ensures
            exists|d: T|
                is_default(d) && (T::obeys_eq_spec() ==> (r == upper_triangular_eq(
                    self@,
                    self.n_rows as int,
                    self.n_cols as int,
                    d,
                ))),
    {
        let d = T::default();
        let ghost m = self@;
        assert(is_default(d));
        let mut i: usize = 0;
        while i < self.n_rows
            invariant
                self.wf(),
                m == self@,
                is_default(d),
                i <= self.n_rows,
                T::obeys_eq_spec() ==> forall|a: int, b: int|
                    0 <= b < a < i && b < self.n_cols ==> #[trigger] m[a][b].eq_spec(&d),
            decreases self.n_rows - i,
        {
            let mut j: usize = 0;
            while j < i && j < self.n_cols
                invariant
                    self.wf(),
                    m == self@,
                    is_default(d),
                    i < self.n_rows,
                    j <= i,
                    T::obeys_eq_spec() ==> forall|a: int, b: int|
                        0 <= b < a < i && b < self.n_cols ==> #[trigger] m[a][b].eq_spec(&d),
                    T::obeys_eq_spec() ==> forall|b: int| 0 <= b < j && b < self.n_cols ==> #[trigger] m[i as int][b].eq_spec(&d),
                decreases i - j,
            {
                let x = self.at(i, j);
                if !(x == d) {
                    proof {
                        assert(T::obeys_eq_spec() ==> !upper_triangular_eq(m, self.n_rows as int, self.n_cols as int, d));
                    }
                    return false;
                }
                j += 1;
            }
            i += 1;
        }
        proof {
            assert(T::obeys_eq_spec() ==> upper_triangular_eq(m, self.n_rows as int, self.n_cols as int, d));
        }
        true
    }

    /// Whether every entry above the diagonal is the default value of `T`.
    pub fn is_lower_triangular(&self) -> (r: bool)
        requires
            self.wf(),
        ensures
            exists|d: T|
                is_default(d) && (T::obeys_eq_spec() ==> (r == lower_triangular_eq(
                    self@,
                    self.n_rows as int,
                    self.n_cols as int,
                    d,
                ))),
    {
        let d = T::default();
        let ghost m = self@;
        assert(is_default(d));
        let mut i: usize = 0;
        while i < self.n_rows
            invariant
                self.wf(),
                m == self@,
                is_default(d),
                i <= self.n_rows,
                T::obeys_eq_spec() ==> forall|a: int, b: int|
                    0 <= a < b < self.n_cols && a < i ==> #[trigger] m[a][b].eq_spec(&d),
            decreases self.n_rows - i,
        {
            let mut j: usize = i + 1;
            while j < self.n_cols
                invariant
                    self.wf(),
                    m == self@,
                    is_default(d),
                    i < self.n_rows,
                    i + 1 <= j,
                    T::obeys_eq_spec() ==> forall|a: int, b: int|
                        0 <= a < b < self.n_cols && a < i ==> #[trigger] m[a][b].eq_spec(&d),
                    T::obeys_eq_spec() ==> forall|b: int| i < b < j && b < self.n_cols ==> #[trigger] m[i as int][b].eq_spec(&d),
                decreases self.n_cols - j,
            {
                let x = self.at(i, j);
                if !(x == d) {
                    proof {
                        assert(T::obeys_eq_spec() ==> !lower_triangular_eq(m, self.n_rows as int, self.n_cols as int, d));
                    }
                    return false;
                }
                j += 1;
            }
            i += 1;
        }
        proof {
            assert(T::obeys_eq_spec() ==> lower_triangular_eq(m, self.n_rows as int, self.n_cols as int, d));
        }
        true
    }
}

impl<T: Copy + From<u8>> Matrix<T> {
    /// An `n_rows`-by-`n_cols` matrix of zeros, zero being `T::from(0)`.
    pub fn zeros(n_rows: usize, n_cols: usize) -> (r: Self)
        requires
            n_rows * n_cols <= usize::MAX,
        ensures
            r.wf(),
            r.n_rows == n_rows,
            r.n_cols == n_cols,
            forall|i: int, j: int|
                0 <= i < n_rows && 0 <= j < n_cols ==> call_ensures(T::from, (0u8,), #[trigger] r@[i][j]),
    {
        let z = T::from(0u8);
        Self::filled(n_rows, n_cols, z)
    }

    /// An `n_rows`-by-`n_cols` matrix of ones, one being `T::from(1)`.
    pub fn ones(n_rows: usize, n_cols: usize) -> (r: Self)
        requires
            n_rows * n_cols <= usize::MAX,
        ensures
            r.wf(),
            r.n_rows == n_rows,
            r.n_cols == n_cols,
            forall|i: int, j: int|
                0 <= i < n_rows && 0 <= j < n_cols ==> call_ensures(T::from, (1u8,), #[trigger] r@[i][j]),
    {
        let o = T::from(1u8);
        Self::filled(n_rows, n_cols, o)
    }

    /// The `n`-by-`n` identity: `T::from(1)` on the diagonal, `T::from(0)`
    /// elsewhere.
    pub fn eye(n: usize) -> (r: Self)
        requires
            n * n <= usize::MAX,
        ensures
            r.wf(),
            r.n_rows == n,
            r.n_cols == n,
            forall|i: int, j: int|
                0 <= i < n && 0 <= j < n ==> call_ensures(
                    T::from,
                    (if i == j { 1u8 } else { 0u8 },),
                    #[trigger] r@[i][j],
                ),
    {
        let z = T::from(0u8);
        let o = T::from(1u8);
        let mut m = Self::filled(n, n, z);
        let mut k: usize = 0;
        while k < n
            invariant
                m.wf(),
                m.n_rows == n,
                m.n_cols == n,
                k <= n,
                call_ensures(T::from, (0u8,), z),
                call_ensures(T::from, (1u8,), o),
                forall|i: int, j: int|
                    0 <= i < n && 0 <= j < n ==> #[trigger] m@[i][j] == if i == j && i < k { o } else { z },
            decreases n - k,
        {
            m.set(k, k, o);
            proof {
                m.lemma_view();
            }
            k += 1;
        }
        m
    }
}

/// Different entries of a row-major matrix occupy different places.
pub proof fn lemma_offset_distinct(a: int, b: int, i: int, j: int, c: int)
    requires
        a != i,
        0 <= b < c,
        0 <= j < c,
    ensures
        offset(a, b, c) != offset(i, j, c),
{
    if a < i {
        assert(a * c + c <= i * c) by (nonlinear_arith)
            requires
                a < i,
                0 <= c,
        ;
    } else {
        assert(i * c + c <= a * c) by (nonlinear_arith)
            requires
                i < a,
                0 <= c,
        ;
    }
}

} // verus!
