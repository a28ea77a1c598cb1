use vstd::prelude::*;
use crate::matrix::{has_shape, lemma_offset_in_range, offset, Matrix};
use crate::scalar::Scalar;
use crate::vector::Vector;

verus! {

/// Entry `(i, j)` of `a + b` (when `plus`) or `a - b` fits in `T`.
pub open spec fn entry_fits<T: Scalar>(a: Seq<Seq<T>>, b: Seq<Seq<T>>, i: int, j: int, plus: bool) -> bool {
    if plus {
        T::fits(a[i][j].value() + b[i][j].value())
    } else {
        T::fits(a[i][j].value() - b[i][j].value())
    }
}

/// Every entry of the `r`-by-`c` sum (or difference) fits in `T`.
pub open spec fn entries_fit<T: Scalar>(a: Seq<Seq<T>>, b: Seq<Seq<T>>, r: int, c: int, plus: bool) -> bool {
    forall|i: int, j: int| 0 <= i < r && 0 <= j < c ==> #[trigger] entry_fits(a, b, i, j, plus)
}

/// The value of entry `(i, j)` of `a + b` (when `plus`) or `a - b`.
pub open spec fn entry_value<T: Scalar>(a: Seq<Seq<T>>, b: Seq<Seq<T>>, i: int, j: int, plus: bool) -> int {
    if plus {
        a[i][j].value() + b[i][j].value()
    } else {
        a[i][j].value() - b[i][j].value()
    }
}

/// Entry `i` of `u + v` (when `plus`) or `u - v` fits in `T`.
pub open spec fn item_fits<T: Scalar>(u: Seq<T>, v: Seq<T>, i: int, plus: bool) -> bool {
    if plus {
        T::fits(u[i].value() + v[i].value())
    } else {
        T::fits(u[i].value() - v[i].value())
    }
}

/// The value of entry `i` of `u + v` (when `plus`) or `u - v`.
pub open spec fn item_value<T: Scalar>(u: Seq<T>, v: Seq<T>, i: int, plus: bool) -> int {
    if plus {
        u[i].value() + v[i].value()
    } else {
        u[i].value() - v[i].value()
    }
}

fn combine<T: Scalar>(x: T, y: T, plus: bool) -> (r: T)
    requires
        if plus { T::fits(x.value() + y.value()) } else { T::fits(x.value() - y.value()) },
    ensures
        r.value() == if plus { x.value() + y.value() } else { x.value() - y.value() },
{
    if plus {
        x.plus(y)
    } else {
        x.minus(y)
    }
}

impl<T: Scalar> Matrix<T> {
    /// The entrywise sum (when `plus`) or difference of two matrices of one shape.
    fn entrywise(&self, other: &Self, plus: bool) -> (r: Self)
        requires
            self.wf(),
            other.wf(),
            self.n_rows == other.n_rows,
            self.n_cols == other.n_cols,
            entries_fit(self@, other@, self.n_rows as int, self.n_cols as int, plus),
        ensures
            r.wf(),
            r.n_rows == self.n_rows,
            r.n_cols == self.n_cols,
            forall|i: int, j: int|
                0 <= i < self.n_rows && 0 <= j < self.n_cols ==> (#[trigger] r@[i][j]).value() == entry_value(
                    self@,
                    other@,
                    i,
                    j,
                    plus,
                ),
    {
        let rows = self.n_rows;
        let cols = self.n_cols;
        let mut data: Vec<T> = Vec::new();
        let mut i: usize = 0;
        while i < rows
            invariant
                self.wf(),
                other.wf(),
                rows == self.n_rows,
                cols == self.n_cols,
                rows == other.n_rows,
                cols == other.n_cols,
                entries_fit(self@, other@, rows as int, cols as int, plus),
                i <= rows,
                data@.len() == i * cols,
                forall|a: int, b: int|
                    0 <= a < i && 0 <= b < cols ==> (#[trigger] data@[offset(a, b, cols as int)]).value()
                        == entry_value(self@, other@, a, b, plus),
            decreases rows - i,
        {
            let mut j: usize = 0;
            while j < cols
                invariant
                    self.wf(),
                    other.wf(),
                    rows == self.n_rows,
                    cols == self.n_cols,
                    rows == other.n_rows,
                    cols == other.n_cols,
                    entries_fit(self@, other@, rows as int, cols as int, plus),
                    i < rows,
                    j <= cols,
                    data@.len() == i * cols + j,
                    forall|a: int, b: int|
                        0 <= a < i && 0 <= b < cols ==> (#[trigger] data@[offset(a, b, cols as int)]).value()
                            == entry_value(self@, other@, a, b, plus),
                    forall|b: int|
                        0 <= b < j ==> (#[trigger] data@[offset(i as int, b, cols as int)]).value()
                            == entry_value(self@, other@, i as int, b, plus),
                decreases cols - j,
            {
                assert(entry_fits(self@, other@, i as int, j as int, plus));
                let v = combine(self.at(i, j), other.at(i, j), plus);
                let ghost before = data@;
                data.push(v);
                proof {
                    assert forall|a: int, b: int|
                        0 <= a < i && 0 <= b < cols implies (#[trigger] data@[offset(a, b, cols as int)]).value()
                            == entry_value(self@, other@, a, b, plus) by {
                        lemma_offset_in_range(a, b, i as int, cols as int);
                        assert(data@[offset(a, b, cols as int)] == before[offset(a, b, cols as int)]);
                    }
                }
                j += 1;
            }
            proof {
                assert((i + 1) * cols == i * cols + cols) by (nonlinear_arith);
                assert forall|a: int, b: int|
                    0 <= a < i + 1 && 0 <= b < cols implies (#[trigger] data@[offset(a, b, cols as int)]).value()
                        == entry_value(self@, other@, a, b, plus) by {
                    if a == i {
                        assert(data@[offset(i as int, b, cols as int)].value() == entry_value(self@, other@, i as int, b, plus));
                    }
                }
            }
            i += 1;
        }
        Matrix { n_rows: rows, n_cols: cols, data }
    }

    /// Replaces each entry by its sum with (when `plus`) or difference from
    /// the matching entry of `other`.
    fn entrywise_assign(&mut self, other: &Self, plus: bool)
        requires
            old(self).wf(),
            other.wf(),
            old(self).n_rows == other.n_rows,
            old(self).n_cols == other.n_cols,
            entries_fit(old(self)@, other@, other.n_rows as int, other.n_cols as int, plus),
        ensures
            final(self).wf(),
            final(self).n_rows == old(self).n_rows,
            final(self).n_cols == old(self).n_cols,
            forall|i: int, j: int|
                0 <= i < other.n_rows && 0 <= j < other.n_cols ==> (#[trigger] final(self)@[i][j]).value()
                    == entry_value(old(self)@, other@, i, j, plus),
    {
        let ghost m0 = self@;
        proof {
            self.lemma_view();
        }
        let rows = other.n_rows;
        let cols = other.n_cols;
        let mut i: usize = 0;
        while i < rows
            invariant
                self.wf(),
                other.wf(),
                rows == self.n_rows,
                cols == self.n_cols,
                rows == other.n_rows,
                cols == other.n_cols,
                has_shape(m0, rows as int, cols as int),
                entries_fit(m0, other@, rows as int, cols as int, plus),
                i <= rows,
                forall|a: int, b: int|
                    0 <= a < rows && 0 <= b < cols ==> (#[trigger] self@[a][b]).value() == if a < i {
                        entry_value(m0, other@, a, b, plus)
                    } else {
                        m0[a][b].value()
                    },
            decreases rows - i,
        {
            let mut j: usize = 0;
            while j < cols
                invariant
                    self.wf(),
                    other.wf(),
                    rows == self.n_rows,
                    cols == self.n_cols,
                    rows == other.n_rows,
                    cols == other.n_cols,
                    has_shape(m0, rows as int, cols as int),
                    entries_fit(m0, other@, rows as int, cols as int, plus),
                    i < rows,
                    j <= cols,
                    forall|a: int, b: int|
                        0 <= a < rows && 0 <= b < cols ==> (#[trigger] self@[a][b]).value() == if a < i || (a
                            == i && b < j) {
                            entry_value(m0, other@, a, b, plus)
                        } else {
                            m0[a][b].value()
                        },
                decreases cols - j,
            {
                assert(entry_fits(m0, other@, i as int, j as int, plus));
                let v = combine(self.at(i, j), other.at(i, j), plus);
                self.set(i, j, v);
                proof {
                    self.lemma_view();
                }
                j += 1;
            }
            i += 1;
        }
    }

    /// The entrywise sum of two matrices of one shape.
    pub fn plus(&self, other: &Self) -> (r: Self)
        requires
            self.wf(),
            other.wf(),
            self.n_rows == other.n_rows,
            self.n_cols == other.n_cols,
            entries_fit(self@, other@, self.n_rows as int, self.n_cols as int, true),
        ensures
            r.wf(),
            r.n_rows == self.n_rows,
            r.n_cols == self.n_cols,
            forall|i: int, j: int|
                0 <= i < self.n_rows && 0 <= j < self.n_cols ==> (#[trigger] r@[i][j]).value()
                    == self@[i][j].value() + other@[i][j].value(),
    {
        self.entrywise(other, true)
    }

    /// The entrywise difference of two matrices of one shape.
    pub fn minus(&self, other: &Self) -> (r: Self)
        requires
            self.wf(),
            other.wf(),
            self.n_rows == other.n_rows,
            self.n_cols == other.n_cols,
            entries_fit(self@, other@, self.n_rows as int, self.n_cols as int, false),
        ensures
            r.wf(),
            r.n_rows == self.n_rows,
            r.n_cols == self.n_cols,
            forall|i: int, j: int|
                0 <= i < self.n_rows && 0 <= j < self.n_cols ==> (#[trigger] r@[i][j]).value()
                    == self@[i][j].value() - other@[i][j].value(),
    {
        self.entrywise(other, false)
    }

    /// Adds `other` to `self` entry by entry.
    pub fn plus_assign(&mut self, other: &Self)
        requires
            old(self).wf(),
            other.wf(),
            old(self).n_rows == other.n_rows,
            old(self).n_cols == other.n_cols,
            entries_fit(old(self)@, other@, other.n_rows as int, other.n_cols as int, true),
        ensures
            final(self).wf(),
            final(self).n_rows == old(self).n_rows,
            final(self).n_cols == old(self).n_cols,
            forall|i: int, j: int|
                0 <= i < other.n_rows && 0 <= j < other.n_cols ==> (#[trigger] final(self)@[i][j]).value()
                    == old(self)@[i][j].value() + other@[i][j].value(),
    {
        self.entrywise_assign(other, true)
    }

    /// Subtracts `other` from `self` entry by entry.
    pub fn minus_assign(&mut self, other: &Self)
        requires
            old(self).wf(),
            other.wf(),
            old(self).n_rows == other.n_rows,
            old(self).n_cols == other.n_cols,
            entries_fit(old(self)@, other@, other.n_rows as int, other.n_cols as int, false),
        ensures
            final(self).wf(),
            final(self).n_rows == old(self).n_rows,
            final(self).n_cols == old(self).n_cols,
            forall|i: int, j: int|
                0 <= i < other.n_rows && 0 <= j < other.n_cols ==> (#[trigger] final(self)@[i][j]).value()
                    == old(self)@[i][j].value() - other@[i][j].value(),
    {
        self.entrywise_assign(other, false)
    }
}

impl<'a, 'b, T: Scalar> vstd::std_specs::ops::AddSpecImpl<&'b Matrix<T>> for &'a Matrix<T> {
    open spec fn obeys_add_spec() -> bool {
        false
    }

    open spec fn add_req(self, rhs: &'b Matrix<T>) -> bool {
        &&& self.wf()
        &&& rhs.wf()
        &&& self.n_rows == rhs.n_rows
        &&& self.n_cols == rhs.n_cols
        &&& entries_fit(self@, rhs@, self.n_rows as int, self.n_cols as int, true)
    }

    open spec fn add_spec(self, rhs: &'b Matrix<T>) -> Matrix<T> {
        arbitrary()
    }
}

/// `&a + &b` is `a.plus(&b)`.
impl<'a, 'b, T: Scalar> std::ops::Add<&'b Matrix<T>> for &'a Matrix<T> {
    type Output = Matrix<T>;

    fn add(self, rhs: &'b Matrix<T>) -> (r: Matrix<T>)
        ensures
            r.wf(),
            r.n_rows == self.n_rows,
            r.n_cols == self.n_cols,
            forall|i: int, j: int|
                0 <= i < self.n_rows && 0 <= j < self.n_cols ==> (#[trigger] r@[i][j]).value()
                    == self@[i][j].value() + rhs@[i][j].value(),
    {
        self.plus(rhs)
    }
}

impl<'a, 'b, T: Scalar> vstd::std_specs::ops::SubSpecImpl<&'b Matrix<T>> for &'a Matrix<T> {
    open spec fn obeys_sub_spec() -> bool {
        false
    }

    open spec fn sub_req(self, rhs: &'b Matrix<T>) -> bool {
        &&& self.wf()
        &&& rhs.wf()
        &&& self.n_rows == rhs.n_rows
        &&& self.n_cols == rhs.n_cols
        &&& entries_fit(self@, rhs@, self.n_rows as int, self.n_cols as int, false)
    }

    open spec fn sub_spec(self, rhs: &'b Matrix<T>) -> Matrix<T> {
        arbitrary()
    }
}

/// `&a - &b` is `a.minus(&b)`.
impl<'a, 'b, T: Scalar> std::ops::Sub<&'b Matrix<T>> for &'a Matrix<T> {
    type Output = Matrix<T>;

    fn sub(self, rhs: &'b Matrix<T>) -> (r: Matrix<T>)
        ensures
            r.wf(),
            r.n_rows == self.n_rows,
            r.n_cols == self.n_cols,
            forall|i: int, j: int|
                0 <= i < self.n_rows && 0 <= j < self.n_cols ==> (#[trigger] r@[i][j]).value()
                    == self@[i][j].value() - rhs@[i][j].value(),
    {
        self.minus(rhs)
    }
}

impl<T: Scalar> Vector<T> {
    /// The entrywise sum (when `plus`) or difference of two vectors of one length.
    fn entrywise(&self, other: &Self, plus: bool) -> (r: Self)
        requires
            self.wf(),
            other.wf(),
            self.n == other.n,
            forall|i: int| 0 <= i < self.n ==> #[trigger] item_fits(self@, other@, i, plus),
        ensures
            r.wf(),
            r.n == self.n,
            forall|i: int| 0 <= i < self.n ==> (#[trigger] r@[i]).value() == item_value(self@, other@, i, plus),
    {
        let mut data: Vec<T> = Vec::new();
        let mut k: usize = 0;
        while k < self.n
            invariant
                self.wf(),
                other.wf(),
                self.n == other.n,
                forall|i: int| 0 <= i < self.n ==> #[trigger] item_fits(self@, other@, i, plus),
                k <= self.n,
                data@.len() == k,
                forall|i: int| 0 <= i < k ==> (#[trigger] data@[i]).value() == item_value(self@, other@, i, plus),
            decreases self.n - k,
        {
            assert(item_fits(self@, other@, k as int, plus));
            let v = combine(self.at(k), other.at(k), plus);
            data.push(v);
            k += 1;
        }
        Vector { n: self.n, data }
    }

    /// Replaces each entry by its sum with (when `plus`) or difference from
    /// the matching entry of `other`.
    fn entrywise_assign(&mut self, other: &Self, plus: bool)
        requires
            old(self).wf(),
            other.wf(),
            old(self).n == other.n,
            forall|i: int| 0 <= i < other.n ==> #[trigger] item_fits(old(self)@, other@, i, plus),
        ensures
            final(self).wf(),
            final(self).n == old(self).n,
            forall|i: int| 0 <= i < other.n ==> (#[trigger] final(self)@[i]).value() == item_value(old(self)@, other@, i, plus),
    {
        let ghost v0 = self@;
        let mut k: usize = 0;
        while k < other.n
            invariant
                self.wf(),
                other.wf(),
                self.n == other.n,
                v0.len() == other.n,
                forall|i: int| 0 <= i < other.n ==> #[trigger] item_fits(v0, other@, i, plus),
                k <= other.n,
                forall|i: int|
                    0 <= i < other.n ==> (#[trigger] self@[i]).value() == if i < k {
                        item_value(v0, other@, i, plus)
                    } else {
                        v0[i].value()
                    },
            decreases other.n - k,
        {
            assert(item_fits(v0, other@, k as int, plus));
            let v = combine(self.at(k), other.at(k), plus);
            self.set(k, v);
            k += 1;
        }
    }

    /// The entrywise sum of two vectors of one length.
    pub fn plus(&self, other: &Self) -> (r: Self)
        requires
            self.wf(),
            other.wf(),
            self.n == other.n,
            forall|i: int| 0 <= i < self.n ==> #[trigger] item_fits(self@, other@, i, true),
        ensures
            r.wf(),
            r.n == self.n,
            forall|i: int| 0 <= i < self.n ==> (#[trigger] r@[i]).value() == self@[i].value() + other@[i].value(),
    {
        self.entrywise(other, true)
    }

    /// The entrywise difference of two vectors of one length.
    pub fn minus(&self, other: &Self) -> (r: Self)
        requires
            self.wf(),
            other.wf(),
            self.n == other.n,
            forall|i: int| 0 <= i < self.n ==> #[trigger] item_fits(self@, other@, i, false),
        ensures
            r.wf(),
            r.n == self.n,
            forall|i: int| 0 <= i < self.n ==> (#[trigger] r@[i]).value() == self@[i].value() - other@[i].value(),
    {
        self.entrywise(other, false)
    }

    /// Adds `other` to `self` entry by entry.
    pub fn plus_assign(&mut self, other: &Self)
        requires
            old(self).wf(),
            other.wf(),
            old(self).n == other.n,
            forall|i: int| 0 <= i < other.n ==> #[trigger] item_fits(old(self)@, other@, i, true),
        ensures
            final(self).wf(),
            final(self).n == old(self).n,
            forall|i: int| 0 <= i < other.n ==> (#[trigger] final(self)@[i]).value() == old(self)@[i].value() + other@[i].value(),
    {
        self.entrywise_assign(other, true)
    }

    /// Subtracts `other` from `self` entry by entry.
    pub fn minus_assign(&mut self, other: &Self)
        requires
            old(self).wf(),
            other.wf(),
            old(self).n == other.n,
            forall|i: int| 0 <= i < other.n ==> #[trigger] item_fits(old(self)@, other@, i, false),
        ensures
            final(self).wf(),
            final(self).n == old(self).n,
            forall|i: int| 0 <= i < other.n ==> (#[trigger] final(self)@[i]).value() == old(self)@[i].value() - other@[i].value(),
    {
        self.entrywise_assign(other, false)
    }
}

impl<'a, 'b, T: Scalar> vstd::std_specs::ops::AddSpecImpl<&'b Vector<T>> for &'a Vector<T> {
    open spec fn obeys_add_spec() -> bool {
        false
    }

    open spec fn add_req(self, rhs: &'b Vector<T>) -> bool {
        &&& self.wf()
        &&& rhs.wf()
        &&& self.n == rhs.n
        &&& forall|i: int| 0 <= i < self.n ==> #[trigger] item_fits(self@, rhs@, i, true)
    }

    open spec fn add_spec(self, rhs: &'b Vector<T>) -> Vector<T> {
        arbitrary()
    }
}

/// `&u + &v` is `u.plus(&v)`.
impl<'a, 'b, T: Scalar> std::ops::Add<&'b Vector<T>> for &'a Vector<T> {
    type Output = Vector<T>;

    fn add(self, rhs: &'b Vector<T>) -> (r: Vector<T>)
        ensures
            r.wf(),
            r.n == self.n,
            forall|i: int| 0 <= i < self.n ==> (#[trigger] r@[i]).value() == self@[i].value() + rhs@[i].value(),
    {
        self.plus(rhs)
    }
}

impl<'a, 'b, T: Scalar> vstd::std_specs::ops::SubSpecImpl<&'b Vector<T>> for &'a Vector<T> {
    open spec fn obeys_sub_spec() -> bool {
        false
    }

    open spec fn sub_req(self, rhs: &'b Vector<T>) -> bool {
        &&& self.wf()
        &&& rhs.wf()
        &&& self.n == rhs.n
        &&& forall|i: int| 0 <= i < self.n ==> #[trigger] item_fits(self@, rhs@, i, false)
    }

    open spec fn sub_spec(self, rhs: &'b Vector<T>) -> Vector<T> {
        arbitrary()
    }
}

/// `&u - &v` is `u.minus(&v)`.
impl<'a, 'b, T: Scalar> std::ops::Sub<&'b Vector<T>> for &'a Vector<T> {
    type Output = Vector<T>;

    fn sub(self, rhs: &'b Vector<T>) -> (r: Vector<T>)
        ensures
            r.wf(),
            r.n == self.n,
            forall|i: int| 0 <= i < self.n ==> (#[trigger] r@[i]).value() == self@[i].value() - rhs@[i].value(),
    {
        self.minus(rhs)
    }
}

} // verus!
