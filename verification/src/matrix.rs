//! Dense matrices and their products.
//!
//! The model of a matrix is the sequence of its rows.
use crate::scalar::Scalar;
use crate::vector::{
    accumulate, copied, difference, dot, minus_scaled, spec_dot, spec_sum, spec_zeros,
    subtract, subtract_scaled, zeros,
};
use vstd::prelude::*;

verus! {

/// Every row of `m` has `cols` elements.
pub open spec fn has_width<S>(m: Seq<Seq<S>>, cols: nat) -> bool {
    forall|i: int| 0 <= i < m.len() ==> (#[trigger] m[i]).len() == cols
}

/// The models of several vectors.
pub open spec fn vectors<S>(v: Seq<Vec<S>>) -> Seq<Seq<S>> {
    Seq::new(v.len(), |i: int| v[i]@)
}

/// Column `j` of `m`.
pub open spec fn spec_column<S>(m: Seq<Seq<S>>, j: int) -> Seq<S> {
    Seq::new(m.len(), |i: int| m[i][j])
}

/// The transpose of `m`, a matrix with `cols` columns: row `j` is column `j` of `m`.
pub open spec fn transposed<S>(m: Seq<Seq<S>>, cols: nat) -> Seq<Seq<S>> {
    Seq::new(cols, |j: int| spec_column(m, j))
}

/// The product of a matrix and a vector.
pub open spec fn spec_dot_mv<S: Scalar>(m: Seq<Seq<S>>, v: Seq<S>) -> Seq<S> {
    Seq::new(m.len(), |i: int| spec_dot(m[i], v))
}

/// The product of the transpose of `m`, a matrix with `cols` columns, and a vector.
pub open spec fn spec_dot_mtv<S: Scalar>(m: Seq<Seq<S>>, v: Seq<S>, cols: nat) -> Seq<S> {
    Seq::new(cols, |j: int| spec_dot(spec_column(m, j), v))
}

/// The product of a row vector and `m`, a matrix with `cols` columns.
pub open spec fn row_times<S: Scalar>(v: Seq<S>, m: Seq<Seq<S>>, cols: nat) -> Seq<S> {
    Seq::new(cols, |j: int| spec_dot(v, spec_column(m, j)))
}

/// The product of `a` and `b`, where `b` has `cols` columns.
pub open spec fn spec_product<S: Scalar>(a: Seq<Seq<S>>, b: Seq<Seq<S>>, cols: nat) -> Seq<
    Seq<S>,
> {
    Seq::new(a.len(), |i: int| row_times(a[i], b, cols))
}

/// `m` with the outer product of `t` and `p` subtracted.
pub open spec fn deflated<S: Scalar>(m: Seq<Seq<S>>, t: Seq<S>, p: Seq<S>) -> Seq<Seq<S>> {
    Seq::new(m.len(), |i: int| minus_scaled(m[i], t[i], p))
}

/// `m` with `v` subtracted from every row.
pub open spec fn rows_minus<S: Scalar>(m: Seq<Seq<S>>, v: Seq<S>) -> Seq<Seq<S>> {
    Seq::new(m.len(), |i: int| difference(m[i], v))
}

/// `m` with `v` added to every row.
pub open spec fn rows_plus<S: Scalar>(m: Seq<Seq<S>>, v: Seq<S>) -> Seq<Seq<S>> {
    Seq::new(m.len(), |i: int| spec_sum(m[i], v))
}

/// A dense matrix, stored by rows.
pub struct Matrix<S> {
    cols: usize,
    data: Vec<Vec<S>>,
}

impl<S> View for Matrix<S> {
    type V = Seq<Seq<S>>;

    closed spec fn view(&self) -> Seq<Seq<S>> {
        Seq::new(self.data@.len(), |i: int| self.data@[i]@)
    }
}

impl<S> Matrix<S> {
    /// The number of columns.
    pub closed spec fn width(&self) -> nat {
        self.cols as nat
    }

    /// Every row has as many elements as the matrix has columns.
    pub open spec fn wf(&self) -> bool {
        has_width(self@, self.width())
    }
}

impl<S: Scalar> Matrix<S> {
    /// The number of rows.
    pub fn nrows(&self) -> (r: usize)
        ensures
            r == self@.len(),
    {
        self.data.len()
    }

    /// The number of columns.
    pub fn ncols(&self) -> (r: usize)
        ensures
            r == self.width(),
    {
        self.cols
    }

    /// The element in row `i` and column `j`.
    pub fn get(&self, i: usize, j: usize) -> (r: S)
        requires
            self.wf(),
            i < self@.len(),
            j < self.width(),
        ensures
            r == self@[i as int][j as int],
    {
        assert(self@[i as int] == self.data@[i as int]@);
        self.data[i][j]
    }

    /// Row `i`.
    pub fn row(&self, i: usize) -> (r: &Vec<S>)
        requires
            i < self@.len(),
        ensures
            r@ == self@[i as int],
    {
        &self.data[i]
    }

    /// Row `i`, to be changed in place.
    pub(crate) fn row_mut(&mut self, i: usize) -> (r: &mut Vec<S>)
        requires
            i < old(self)@.len(),
        ensures
            r@ == old(self)@[i as int],
            final(self)@ == old(self)@.update(i as int, final(r)@),
            final(self).width() == old(self).width(),
    {
        &mut self.data[i]
    }
}

/// A matrix of zeros.
pub open spec fn spec_zero_matrix<S: Scalar>(rows: nat, cols: nat) -> Seq<Seq<S>> {
    Seq::new(rows, |i: int| spec_zeros::<S>(cols))
}

impl<S: Scalar> Matrix<S> {
    /// A matrix of zeros.
    pub fn zeros(rows: usize, cols: usize) -> (r: Self)
        ensures
            r.wf(),
            r.width() == cols,
            r@ == spec_zero_matrix::<S>(rows as nat, cols as nat),
    {
        let mut data: Vec<Vec<S>> = Vec::new();
        let mut i: usize = 0;
        while i < rows
            invariant
                i <= rows,
                data@.len() == i,
                forall|k: int| 0 <= k < i ==> (#[trigger] data@[k])@ == spec_zeros::<S>(cols as nat),
            decreases rows - i,
        {
            data.push(zeros(cols));
            i += 1;
        }
        let r = Matrix { cols, data };
        assert(r@ =~= spec_zero_matrix::<S>(rows as nat, cols as nat));
        r
    }

    /// The matrix with the given number of columns and the given rows; `None` where a row
    /// has another length.
    pub fn from_rows(cols: usize, rows: Vec<Vec<S>>) -> (r: Option<Self>)
        ensures
            r is Some <==> (forall|i: int|
                0 <= i < rows@.len() ==> (#[trigger] rows@[i])@.len() == cols),
            r matches Some(m) ==> m.wf() && m.width() == cols && m@ == vectors(rows@),
    {
        let mut i: usize = 0;
        while i < rows.len()
            invariant
                i <= rows.len(),
                forall|k: int| 0 <= k < i ==> (#[trigger] rows@[k])@.len() == cols,
            decreases rows.len() - i,
        {
            if rows[i].len() != cols {
                return None;
            }
            i += 1;
        }
        Some(Matrix { cols, data: rows })
    }

    /// The matrix of `rows` rows whose columns are given.
    pub fn from_columns(rows: usize, columns: &Vec<Vec<S>>) -> (r: Self)
        requires
            forall|a: int| 0 <= a < columns@.len() ==> (#[trigger] columns@[a])@.len() == rows,
        ensures
            r.wf(),
            r.width() == columns@.len(),
            r@ == transposed(vectors(columns@), rows as nat),
    {
        let ghost model = vectors(columns@);
        let mut data: Vec<Vec<S>> = Vec::new();
        let mut i: usize = 0;
        while i < rows
            invariant
                i <= rows,
                data@.len() == i,
                model == vectors(columns@),
                forall|a: int| 0 <= a < columns@.len() ==> (#[trigger] columns@[a])@.len() == rows,
                forall|k: int| 0 <= k < i ==> (#[trigger] data@[k])@ == spec_column(model, k),
            decreases rows - i,
        {
            let mut row: Vec<S> = Vec::new();
            let mut a: usize = 0;
            while a < columns.len()
                invariant
                    a <= columns.len(),
                    i < rows,
                    row@.len() == a,
                    forall|b: int|
                        0 <= b < columns@.len() ==> (#[trigger] columns@[b])@.len() == rows,
                    forall|b: int| 0 <= b < a ==> row@[b] == columns@[b]@[i as int],
                decreases columns.len() - a,
            {
                row.push(columns[a][i]);
                a += 1;
            }
            assert(row@ =~= spec_column(model, i as int));
            data.push(row);
            i += 1;
        }
        let r = Matrix { cols: columns.len(), data };
        assert(r@ =~= transposed(model, rows as nat));
        r
    }

    /// A copy of column `j`.
    pub fn column(&self, j: usize) -> (r: Vec<S>)
        requires
            self.wf(),
            j < self.width(),
        ensures
            r@ == spec_column(self@, j as int),
    {
        let mut r: Vec<S> = Vec::new();
        let mut i: usize = 0;
        while i < self.data.len()
            invariant
                i <= self.data.len(),
                self.wf(),
                j < self.width(),
                r@.len() == i,
                forall|k: int| 0 <= k < i ==> r@[k] == self@[k][j as int],
            decreases self.data.len() - i,
        {
            r.push(self.get(i, j));
            i += 1;
        }
        assert(r@ =~= spec_column(self@, j as int));
        r
    }

    /// The transpose.
    pub fn transpose(&self) -> (r: Self)
        requires
            self.wf(),
        ensures
            r.wf(),
            r.width() == self@.len(),
            r@ == transposed(self@, self.width()),
    {
        let mut data: Vec<Vec<S>> = Vec::new();
        let mut j: usize = 0;
        while j < self.cols
            invariant
                j <= self.cols,
                self.wf(),
                data@.len() == j,
                forall|k: int| 0 <= k < j ==> (#[trigger] data@[k])@ == spec_column(self@, k),
            decreases self.cols - j,
        {
            data.push(self.column(j));
            j += 1;
        }
        let r = Matrix { cols: self.data.len(), data };
        assert(r@ =~= transposed(self@, self.width()));
        r
    }

    /// A copy.
    pub fn copy(&self) -> (r: Self)
        requires
            self.wf(),
        ensures
            r.wf(),
            r.width() == self.width(),
            r@ == self@,
    {
        let mut data: Vec<Vec<S>> = Vec::new();
        let mut i: usize = 0;
        while i < self.data.len()
            invariant
                i <= self.data.len(),
                data@.len() == i,
                forall|k: int| 0 <= k < i ==> (#[trigger] data@[k])@ == self@[k],
            decreases self.data.len() - i,
        {
            data.push(copied(&self.data[i]));
            i += 1;
        }
        let r = Matrix { cols: self.cols, data };
        assert(r@ =~= self@);
        r
    }

    /// Stores `v` in row `i` and column `j`.
    pub fn set(&mut self, i: usize, j: usize, v: S)
        requires
            old(self).wf(),
            i < old(self)@.len(),
            j < old(self).width(),
        ensures
            final(self).wf(),
            final(self).width() == old(self).width(),
            final(self)@ == old(self)@.update(i as int, old(self)@[i as int].update(j as int, v)),
    {
        assert(self@[i as int] == self.data@[i as int]@);
        self.data[i][j] = v;
        assert(self@ =~= old(self)@.update(i as int, old(self)@[i as int].update(j as int, v)));
    }

    /// Exchanges the rows `i` and `j`.
    pub fn swap_rows(&mut self, i: usize, j: usize)
        requires
            old(self).wf(),
            i < old(self)@.len(),
            j < old(self)@.len(),
        ensures
            final(self).wf(),
            final(self).width() == old(self).width(),
            final(self)@ == old(self)@.update(i as int, old(self)@[j as int]).update(
                j as int,
                old(self)@[i as int],
            ),
    {
        let a: Vec<S> = copied(&self.data[i]);
        let b: Vec<S> = copied(&self.data[j]);
        self.data[i] = b;
        self.data[j] = a;
        assert(self@ =~= old(self)@.update(i as int, old(self)@[j as int]).update(
            j as int,
            old(self)@[i as int],
        ));
    }

    /// Subtracts the outer product of `t` and `p`, of which as many elements are read as the
    /// matrix has rows and columns.
    pub fn deflate(&mut self, t: &Vec<S>, p: &Vec<S>)
        requires
            old(self).wf(),
            old(self)@.len() <= t@.len(),
            old(self).width() <= p@.len(),
        ensures
            final(self).wf(),
            final(self).width() == old(self).width(),
            final(self)@ == deflated(old(self)@, t@, p@),
    {
        let ghost before = self@;
        let n: usize = self.data.len();
        let mut i: usize = 0;
        while i < n
            invariant
                i <= n,
                n == self@.len(),
                n == before.len(),
                n <= t@.len(),
                self.width() <= p@.len(),
                self.width() == old(self).width(),
                has_width(before, self.width()),
                forall|k: int| 0 <= k < i ==> self@[k] == minus_scaled(before[k], t@[k], p@),
                forall|k: int| i <= k < n ==> self@[k] == before[k],
            decreases n - i,
        {
            assert(self@[i as int] == before[i as int]);
            subtract_scaled(self.row_mut(i), t[i], p);
            i += 1;
        }
        assert(self@ =~= deflated(before, t@, p@));
    }

    /// Subtracts `v` from every row.
    pub fn subtract_from_rows(&mut self, v: &Vec<S>)
        requires
            old(self).wf(),
            v@.len() == old(self).width(),
        ensures
            final(self).wf(),
            final(self).width() == old(self).width(),
            final(self)@ == rows_minus(old(self)@, v@),
    {
        let ghost before = self@;
        let n: usize = self.data.len();
        let mut i: usize = 0;
        while i < n
            invariant
                i <= n,
                n == self@.len(),
                n == before.len(),
                v@.len() == self.width(),
                self.width() == old(self).width(),
                has_width(before, self.width()),
                forall|k: int| 0 <= k < i ==> self@[k] == difference(before[k], v@),
                forall|k: int| i <= k < n ==> self@[k] == before[k],
            decreases n - i,
        {
            assert(self@[i as int] == before[i as int]);
            subtract(self.row_mut(i), v);
            i += 1;
        }
        assert(self@ =~= rows_minus(before, v@));
    }

    /// Adds `v` to every row.
    pub fn add_to_rows(&mut self, v: &Vec<S>)
        requires
            old(self).wf(),
            v@.len() == old(self).width(),
        ensures
            final(self).wf(),
            final(self).width() == old(self).width(),
            final(self)@ == rows_plus(old(self)@, v@),
    {
        let ghost before = self@;
        let n: usize = self.data.len();
        let mut i: usize = 0;
        while i < n
            invariant
                i <= n,
                n == self@.len(),
                n == before.len(),
                v@.len() == self.width(),
                self.width() == old(self).width(),
                has_width(before, self.width()),
                forall|k: int| 0 <= k < i ==> self@[k] == spec_sum(before[k], v@),
                forall|k: int| i <= k < n ==> self@[k] == before[k],
            decreases n - i,
        {
            assert(self@[i as int] == before[i as int]);
            accumulate(self.row_mut(i), v);
            i += 1;
        }
        assert(self@ =~= rows_plus(before, v@));
    }
}

/// The product of a matrix and a vector.
pub fn dot_mv<S: Scalar>(a: &Matrix<S>, v: &Vec<S>) -> (r: Vec<S>)
    requires
        a.wf(),
        v@.len() == a.width(),
    ensures
        r@ == spec_dot_mv(a@, v@),
{
    let mut r: Vec<S> = Vec::new();
    let n: usize = a.nrows();
    let mut i: usize = 0;
    while i < n
        invariant
            i <= n,
            n == a@.len(),
            a.wf(),
            v@.len() == a.width(),
            r@.len() == i,
            forall|k: int| 0 <= k < i ==> r@[k] == spec_dot(a@[k], v@),
        decreases n - i,
    {
        r.push(dot(a.row(i), v));
        i += 1;
    }
    assert(r@ =~= spec_dot_mv(a@, v@));
    r
}

/// The product of the transpose of a matrix and a vector.
pub fn dot_mtv<S: Scalar>(a: &Matrix<S>, v: &Vec<S>) -> (r: Vec<S>)
    requires
        a.wf(),
        v@.len() == a@.len(),
    ensures
        r@ == spec_dot_mtv(a@, v@, a.width()),
{
    let mut r: Vec<S> = Vec::new();
    let p: usize = a.ncols();
    let mut j: usize = 0;
    while j < p
        invariant
            j <= p,
            p == a.width(),
            a.wf(),
            v@.len() == a@.len(),
            r@.len() == j,
            forall|k: int| 0 <= k < j ==> r@[k] == spec_dot(spec_column(a@, k), v@),
        decreases p - j,
    {
        let c: Vec<S> = a.column(j);
        r.push(dot(&c, v));
        j += 1;
    }
    assert(r@ =~= spec_dot_mtv(a@, v@, a.width()));
    r
}

/// The product of two matrices.
pub fn product<S: Scalar>(a: &Matrix<S>, b: &Matrix<S>) -> (r: Matrix<S>)
    requires
        a.wf(),
        b.wf(),
        a.width() == b@.len(),
    ensures
        r.wf(),
        r.width() == b.width(),
        r@ == spec_product(a@, b@, b.width()),
{
    let columns: Matrix<S> = b.transpose();
    let n: usize = a.nrows();
    let mut data: Vec<Vec<S>> = Vec::new();
    let mut i: usize = 0;
    while i < n
        invariant
            i <= n,
            n == a@.len(),
            a.wf(),
            a.width() == b@.len(),
            columns.wf(),
            columns.width() == b@.len(),
            columns@ == transposed(b@, b.width()),
            data@.len() == i,
            forall|k: int|
                0 <= k < i ==> (#[trigger] data@[k])@ == row_times(a@[k], b@, b.width()),
        decreases n - i,
    {
        let mut row: Vec<S> = Vec::new();
        let mut j: usize = 0;
        while j < columns.nrows()
            invariant
                j <= columns@.len(),
                i < a@.len(),
                a.wf(),
                a.width() == b@.len(),
                columns.wf(),
                columns.width() == b@.len(),
                columns@ == transposed(b@, b.width()),
                row@.len() == j,
                forall|k: int|
                    0 <= k < j ==> row@[k] == spec_dot(a@[i as int], spec_column(b@, k)),
            decreases columns@.len() - j,
        {
            row.push(dot(a.row(i), columns.row(j)));
            j += 1;
        }
        assert(row@ =~= row_times(a@[i as int], b@, b.width()));
        data.push(row);
        i += 1;
    }
    let r = Matrix { cols: b.cols, data };
    assert(r@ =~= spec_product(a@, b@, b.width()));
    r
}

} // verus!
