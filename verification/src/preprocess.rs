//! Preprocessing: row normalization, the pseudolog transform, and centering.
use crate::matrix::{rows_minus, spec_column, Matrix};
use crate::scalar::Scalar;
use crate::sparse::{
    columns_below, lemma_rows_wf, lemma_stored, row_values, row_wf, rows_wf, stored, CsrMatrix,
    Entry,
};
use crate::vector::{spec_total, spec_zeros, total, total_prefix};
use vstd::prelude::*;

verus! {

/// The sum of the values that a row stores.
pub open spec fn row_total<S: Scalar>(row: Seq<Entry<S>>) -> S {
    spec_total(row_values(row))
}

/// The pseudolog of a value's share in its row: `ln(value / total + 1)`.
pub open spec fn pseudolog<S: Scalar>(value: S, total: S) -> S {
    value.spec_div(total).spec_add(S::spec_one()).spec_ln()
}

/// A row of `p` columns after normalization and pseudolog: zero where nothing is stored,
/// and throughout where the row's sum is not positive.
pub open spec fn preprocessed_row<S: Scalar>(row: Seq<Entry<S>>, p: nat) -> Seq<S> {
    Seq::new(
        p,
        |c: int|
            match stored(row, c) {
                Some(v) => if row_total(row).spec_exceeds(S::spec_zero()) {
                    pseudolog(v, row_total(row))
                } else {
                    S::spec_zero()
                },
                None => S::spec_zero(),
            },
    )
}

/// Row `r`, empty below the last.
pub open spec fn row_or_empty<S>(x: Seq<Seq<Entry<S>>>, r: int) -> Seq<Entry<S>> {
    if r < x.len() {
        x[r]
    } else {
        Seq::empty()
    }
}

/// The dense matrix of `n` rows and `p` columns after normalization and pseudolog.
pub open spec fn preprocessed<S: Scalar>(x: Seq<Seq<Entry<S>>>, n: nat, p: nat) -> Seq<Seq<S>> {
    Seq::new(n, |r: int| preprocessed_row(row_or_empty(x, r), p))
}

/// Every stored entry lies in the first `n` rows and the first `p` columns.
pub open spec fn fits<S>(x: Seq<Seq<Entry<S>>>, n: nat, p: nat) -> bool {
    &&& forall|r: int| n <= r < x.len() ==> (#[trigger] x[r]).len() == 0
    &&& columns_below(x, 0, x.len() as int, p)
}

/// The means of the columns of `m`, a matrix with `cols` columns.
pub open spec fn column_means<S: Scalar>(m: Seq<Seq<S>>, cols: nat) -> Seq<S> {
    Seq::new(
        cols,
        |j: int| spec_total(spec_column(m, j)).spec_div(S::spec_from_u64(m.len() as u64)),
    )
}

/// The sum of the values that row `r` stores.
fn row_sum<S: Scalar>(x: &CsrMatrix<S>, r: usize) -> (s: S)
    requires
        x.wf(),
        r < x@.len(),
    ensures
        s == row_total(x@[r as int]),
{
    let indptr: &Vec<usize> = x.indptr();
    assert(r + 1 < indptr.len());
    let start: usize = indptr[r];
    let end: usize = indptr[r + 1];
    let data: &Vec<S> = x.data();
    let ghost values = row_values(x@[r as int]);
    let mut sum: S = S::zero();
    let mut i: usize = start;
    assert(x.offsets()[r as int] <= x.offsets()[r + 1] <= x.offsets()[x.offsets().len() - 1]);
    while i < end
        invariant
            start <= i <= end,
            end <= data@.len(),
            data@ == x.values(),
            start == x.offsets()[r as int],
            end == x.offsets()[r + 1],
            r < x@.len(),
            values == row_values(x@[r as int]),
            sum == total_prefix(values, i - start),
        decreases end - i,
    {
        assert(values[i - start] == data@[i as int]);
        sum = sum.add(data[i]);
        i += 1;
    }
    sum
}

/// Row-normalizes `x` (divides each row by its sum), applies the pseudolog, and returns
/// the dense result, of `n` rows and `p` columns.
pub fn preprocess_x<S: Scalar>(x: &CsrMatrix<S>, n: usize, p: usize) -> (dense: Matrix<S>)
    requires
        x.wf(),
        fits(x@, n as nat, p as nat),
    ensures
        dense.wf(),
        dense.width() == p,
        dense@ == preprocessed(x@, n as nat, p as nat),
{
    let mut dense: Matrix<S> = Matrix::zeros(n, p);
    let rows: usize = x.rows();
    let mut r: usize = 0;
    proof {
        lemma_rows_wf(x);
    }
    while r < rows && r < n
        invariant
            r <= rows,
            r <= n,
            rows == x@.len(),
            x.wf(),
            rows_wf(x@, x.width()),
            fits(x@, n as nat, p as nat),
            dense.wf(),
            dense.width() == p,
            dense@.len() == n,
            forall|q: int| 0 <= q < r ==> dense@[q] == preprocessed_row(x@[q], p as nat),
            forall|q: int| r <= q < n ==> dense@[q] == spec_zeros::<S>(p as nat),
        decreases rows - r,
    {
        let ghost row = x@[r as int];
        let rs: S = row_sum(x, r);
        let start: usize = x.indptr()[r];
        let end: usize = x.indptr()[r + 1];
        assert(x.offsets()[r as int] <= x.offsets()[r + 1] <= x.offsets()[x.offsets().len() - 1]);
        if rs.exceeds(S::zero()) {
            let mut i: usize = start;
            while i < end
                invariant
                    start <= i <= end,
                    start == x.offsets()[r as int],
                    end == x.offsets()[r + 1],
                    end <= x.values().len(),
                    x.wf(),
                    r < x@.len(),
                    r < n,
                    row == x@[r as int],
                    row_wf(row, x.width()),
                    fits(x@, n as nat, p as nat),
                    rs == row_total(row),
                    dense.wf(),
                    dense.width() == p,
                    dense@.len() == n,
                    forall|q: int| 0 <= q < r ==> dense@[q] == preprocessed_row(x@[q], p as nat),
                    forall|q: int| r < q < n ==> dense@[q] == spec_zeros::<S>(p as nat),
                    forall|k: int|
                        0 <= k < i - start ==> dense@[r as int][(#[trigger] row[k]).0 as int]
                            == pseudolog(row[k].1, rs),
                    forall|c: int|
                        0 <= c < p && (forall|k: int|
                            0 <= k < i - start ==> (#[trigger] row[k]).0 != c)
                            ==> #[trigger] dense@[r as int][c] == S::spec_zero(),
                decreases end - i,
            {
                let c: usize = x.indices()[i];
                let v: S = x.data()[i];
                let ghost k = i - start;
                assert(row[k] == (c, v));
                assert(x@[r as int][k].0 < p);
                let ghost before = dense@[r as int];
                dense.set(r, c, v.div(rs).add(S::one()).ln());
                assert(dense@[r as int] == before.update(c as int, pseudolog(v, rs)));
                i += 1;
                assert forall|j: int| 0 <= j < k implies dense@[r as int][(
                #[trigger] row[j]).0 as int] == pseudolog(row[j].1, rs) by {
                    assert(row[j].0 < row[k].0);
                }
                assert forall|d: int|
                    0 <= d < p && (forall|j: int|
                        0 <= j < i - start ==> (#[trigger] row[j]).0
                            != d) implies #[trigger] dense@[r as int][d] == S::spec_zero() by {
                    assert(row[k].0 != d);
                    assert(before[d] == S::spec_zero());
                }
            }
            assert(dense@[r as int] =~= preprocessed_row(row, p as nat)) by {
                assert forall|c: int| 0 <= c < p implies dense@[r as int][c] == preprocessed_row(
                    row,
                    p as nat,
                )[c] by {
                    if exists|k: int| 0 <= k < row.len() && (#[trigger] row[k]).0 == c {
                        let k = choose|k: int| 0 <= k < row.len() && (#[trigger] row[k]).0 == c;
                        lemma_stored(row, x.width(), k);
                    }
                }
            }
        } else {
            assert(dense@[r as int] =~= preprocessed_row(row, p as nat));
        }
        r += 1;
    }
    assert forall|q: int| r <= q < n implies dense@[q] == #[trigger] preprocessed_row(
        row_or_empty(x@, q),
        p as nat,
    ) by {
        assert(dense@[q] =~= preprocessed_row(row_or_empty(x@, q), p as nat));
    }
    assert(dense@ =~= preprocessed(x@, n as nat, p as nat));
    dense
}

/// Centers the columns in place, and returns their means.
pub fn center_columns<S: Scalar>(mat: &mut Matrix<S>) -> (means: Vec<S>)
    requires
        old(mat).wf(),
        old(mat)@.len() > 0,
    ensures
        means@ == column_means(old(mat)@, old(mat).width()),
        final(mat).wf(),
        final(mat).width() == old(mat).width(),
        final(mat)@ == rows_minus(old(mat)@, means@),
{
    let n: usize = mat.nrows();
    let p: usize = mat.ncols();
    let count: S = S::from_u64(n as u64);
    let mut means: Vec<S> = Vec::new();
    let mut j: usize = 0;
    while j < p
        invariant
            j <= p,
            mat.wf(),
            *mat == *old(mat),
            p == mat.width(),
            n == mat@.len(),
            count == S::spec_from_u64(n as u64),
            means@.len() == j,
            forall|k: int|
                0 <= k < j ==> means@[k] == spec_total(spec_column(mat@, k)).spec_div(count),
        decreases p - j,
    {
        let c: Vec<S> = mat.column(j);
        means.push(total(&c).div(count));
        j += 1;
    }
    assert(means@ =~= column_means(mat@, p as nat));
    mat.subtract_from_rows(&means);
    means
}

} // verus!
