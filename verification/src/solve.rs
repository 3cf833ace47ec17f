//! Regression coefficients, by inverting a small square matrix.
//!
//! The inverse is found by Gauss-Jordan elimination with partial pivoting, on the matrix
//! with the identity beside it.
use crate::matrix::{has_width, product, spec_product, transposed, Matrix};
use crate::scalar::{reciprocal, spec_reciprocal, Scalar};
use crate::vector::{copied, divide, divided, minus_scaled, spec_zeros, subtract_scaled};
use vstd::prelude::*;

verus! {

/// A pivot is accepted where its magnitude exceeds the reciprocal of this number.
pub const PIVOT_SCALE: u64 = 1_000_000_000_000_000;

/// Among the rows from `col` up to `k`, the first whose element in column `col` has the
/// greatest magnitude.
pub open spec fn pivot_row_prefix<S: Scalar>(m: Seq<Seq<S>>, col: int, k: int) -> int
    decreases k - col,
{
    if k <= col + 1 {
        col
    } else {
        let best = pivot_row_prefix(m, col, k - 1);
        if m[k - 1][col].spec_abs().spec_exceeds(m[best][col].spec_abs()) {
            k - 1
        } else {
            best
        }
    }
}

/// The row that holds the pivot of column `col`.
pub open spec fn spec_pivot_row<S: Scalar>(m: Seq<Seq<S>>, col: int) -> int {
    pivot_row_prefix(m, col, m.len() as int)
}

/// `m` with the rows `i` and `j` exchanged.
pub open spec fn exchanged<S>(m: Seq<Seq<S>>, i: int, j: int) -> Seq<Seq<S>> {
    m.update(i, m[j]).update(j, m[i])
}

/// `m` with the pivot of column `col` moved to the diagonal.
pub open spec fn pivoted<S: Scalar>(m: Seq<Seq<S>>, col: int) -> Seq<Seq<S>> {
    exchanged(m, col, spec_pivot_row(m, col))
}

/// The pivot of column `col`.
pub open spec fn spec_pivot<S: Scalar>(m: Seq<Seq<S>>, col: int) -> S {
    pivoted(m, col)[col][col]
}

/// `m` with row `col` divided by its element in column `col`, and with that row, times
/// the element in column `col`, subtracted from every other row.
pub open spec fn cleared<S: Scalar>(m: Seq<Seq<S>>, col: int) -> Seq<Seq<S>> {
    let lead = divided(m[col], m[col][col]);
    Seq::new(
        m.len(),
        |r: int|
            if r == col {
                lead
            } else {
                minus_scaled(m[r], m[r][col], lead)
            },
    )
}

/// `m` after the elimination of its first `k` columns.
pub open spec fn eliminated<S: Scalar>(m: Seq<Seq<S>>, k: int) -> Seq<Seq<S>>
    decreases k,
{
    if k <= 0 {
        m
    } else {
        cleared(pivoted(eliminated(m, k - 1), k - 1), k - 1)
    }
}

/// A pivot is accepted.
pub open spec fn acceptable<S: Scalar>(pivot: S) -> bool {
    pivot.spec_abs().spec_exceeds(spec_reciprocal::<S>(PIVOT_SCALE))
}

/// The pivots of the first `k` columns are accepted.
pub open spec fn accepted_upto<S: Scalar>(m: Seq<Seq<S>>, k: int) -> bool {
    forall|c: int|
        0 <= c < k ==> acceptable(#[trigger] spec_pivot(eliminated(m, c), c))
}

/// Row `i` of the identity of size `n`.
pub open spec fn unit<S: Scalar>(i: int, n: nat) -> Seq<S> {
    Seq::new(
        n,
        |j: int|
            if i == j {
                S::spec_one()
            } else {
                S::spec_zero()
            },
    )
}

/// The identity of size `n`.
pub open spec fn identity<S: Scalar>(n: nat) -> Seq<Seq<S>> {
    Seq::new(n, |i: int| unit(i, n))
}

/// `m`, a square matrix, with the identity beside it.
pub open spec fn augmented<S: Scalar>(m: Seq<Seq<S>>) -> Seq<Seq<S>> {
    Seq::new(m.len(), |i: int| m[i] + unit(i, m.len()))
}

/// The last `n` columns of a matrix of `n` rows.
pub open spec fn right_half<S>(m: Seq<Seq<S>>) -> Seq<Seq<S>> {
    Seq::new(m.len(), |i: int| m[i].subrange(m.len() as int, 2 * m.len() as int))
}

/// No pivot of `m` is rejected.
pub open spec fn nonsingular<S: Scalar>(m: Seq<Seq<S>>) -> bool {
    accepted_upto(augmented(m), m.len() as int)
}

/// What elimination leaves beside the identity.
pub open spec fn spec_inverse<S: Scalar>(m: Seq<Seq<S>>) -> Seq<Seq<S>> {
    right_half(eliminated(augmented(m), m.len() as int))
}

/// `P^T W`, where both have `a` columns.
pub open spec fn loadings_by_weights<S: Scalar>(p: Seq<Seq<S>>, w: Seq<Seq<S>>, a: nat) -> Seq<
    Seq<S>,
> {
    spec_product(transposed(p, a), w, a)
}

/// `W (P^T W)^{-1} C^T`, where `W`, `P` and `C` have `a` columns.
pub open spec fn spec_coefficients<S: Scalar>(
    w: Seq<Seq<S>>,
    p: Seq<Seq<S>>,
    c: Seq<Seq<S>>,
    a: nat,
) -> Seq<Seq<S>> {
    spec_product(
        spec_product(w, spec_inverse(loadings_by_weights(p, w, a)), a),
        transposed(c, a),
        c.len(),
    )
}

/// The pivot row is one of the rows that are looked at.
pub proof fn lemma_pivot_row_range<S: Scalar>(m: Seq<Seq<S>>, col: int, k: int)
    requires
        col < k,
    ensures
        col <= pivot_row_prefix(m, col, k) < k,
    decreases k - col,
{
    if k > col + 1 {
        lemma_pivot_row_range(m, col, k - 1);
    }
}

/// Elimination keeps the shape of the matrix.
pub proof fn lemma_eliminated_shape<S: Scalar>(m: Seq<Seq<S>>, k: int, width: nat)
    requires
        has_width(m, width),
        0 <= k <= m.len(),
    ensures
        eliminated(m, k).len() == m.len(),
        has_width(eliminated(m, k), width),
    decreases k,
{
    if k > 0 {
        lemma_eliminated_shape(m, k - 1, width);
        let e = eliminated(m, k - 1);
        lemma_pivot_row_range(e, k - 1, m.len() as int);
        let s = pivoted(e, k - 1);
        assert(has_width(s, width));
        assert forall|i: int| 0 <= i < m.len() implies (#[trigger] eliminated(m, k)[i]).len()
            == width by {
            assert(s[i].len() == width);
            assert(s[k - 1].len() == width);
        }
    }
}

/// The row that holds the pivot of column `col`.
fn pivot_row<S: Scalar>(m: &Matrix<S>, col: usize) -> (r: usize)
    requires
        m.wf(),
        col < m@.len(),
        col < m.width(),
    ensures
        r == spec_pivot_row(m@, col as int),
        col <= r < m@.len(),
{
    let n: usize = m.nrows();
    let mut max_row: usize = col;
    let mut max_val: S = m.get(col, col).abs();
    let mut row: usize = col + 1;
    while row < n
        invariant
            col < row <= n,
            n == m@.len(),
            m.wf(),
            col < m.width(),
            col <= max_row < row,
            max_row == pivot_row_prefix(m@, col as int, row as int),
            max_val == m@[max_row as int][col as int].spec_abs(),
        decreases n - row,
    {
        let v: S = m.get(row, col).abs();
        if v.exceeds(max_val) {
            max_val = v;
            max_row = row;
        }
        row += 1;
    }
    max_row
}

/// Divides row `col` by its pivot, and clears column `col` in the other rows.
fn clear<S: Scalar>(m: &mut Matrix<S>, col: usize)
    requires
        old(m).wf(),
        col < old(m)@.len(),
        col < old(m).width(),
    ensures
        final(m).wf(),
        final(m).width() == old(m).width(),
        final(m)@ == cleared(old(m)@, col as int),
{
    let ghost before = m@;
    let n: usize = m.nrows();
    let pivot: S = m.get(col, col);
    assert(before[col as int].len() == m.width());
    divide(m.row_mut(col), pivot);
    let lead: Vec<S> = copied(m.row(col));
    let mut row: usize = 0;
    while row < n
        invariant
            row <= n,
            n == m@.len(),
            n == before.len(),
            col < n,
            col < m.width(),
            m.width() == old(m).width(),
            has_width(before, m.width()),
            lead@ == divided(before[col as int], before[col as int][col as int]),
            lead@.len() == m.width(),
            m@[col as int] == lead@,
            forall|r: int|
                0 <= r < row && r != col ==> m@[r] == minus_scaled(
                    before[r],
                    before[r][col as int],
                    lead@,
                ),
            forall|r: int| row <= r < n && r != col ==> m@[r] == before[r],
        decreases n - row,
    {
        if row != col {
            assert(m@[row as int] == before[row as int]);
            assert(before[row as int].len() == m.width());
            let factor: S = m.row(row)[col];
            subtract_scaled(m.row_mut(row), factor, &lead);
        }
        row += 1;
    }
    assert(m@ =~= cleared(before, col as int));
    assert forall|i: int| 0 <= i < n implies (#[trigger] m@[i]).len() == m.width() by {
        assert(before[i].len() == m.width());
    }
}

/// `m` with the identity beside it.
fn augment<S: Scalar>(m: &Matrix<S>) -> (r: Matrix<S>)
    requires
        m.wf(),
        m.width() == m@.len(),
        2 * m@.len() <= usize::MAX,
    ensures
        r.wf(),
        r.width() == 2 * m@.len(),
        r@ == augmented(m@),
{
    let a: usize = m.nrows();
    let mut aug: Matrix<S> = Matrix::zeros(a, 2 * a);
    let mut i: usize = 0;
    while i < a
        invariant
            i <= a,
            a == m@.len(),
            m.wf(),
            m.width() == a,
            2 * a <= usize::MAX,
            aug.wf(),
            aug.width() == 2 * a,
            aug@.len() == a,
            forall|k: int| 0 <= k < i ==> aug@[k] == augmented(m@)[k],
            forall|k: int| i <= k < a ==> aug@[k] == spec_zeros::<S>((2 * a) as nat),
        decreases a - i,
    {
        let mut j: usize = 0;
        while j < a
            invariant
                j <= a,
                i < a,
                a == m@.len(),
                m.wf(),
                m.width() == a,
                2 * a <= usize::MAX,
                aug.wf(),
                aug.width() == 2 * a,
                aug@.len() == a,
                forall|k: int| 0 <= k < i ==> aug@[k] == augmented(m@)[k],
                forall|k: int| i < k < a ==> aug@[k] == spec_zeros::<S>((2 * a) as nat),
                forall|l: int| 0 <= l < j ==> aug@[i as int][l] == m@[i as int][l],
                forall|l: int| j <= l < 2 * a ==> aug@[i as int][l] == S::spec_zero(),
            decreases a - j,
        {
            aug.set(i, j, m.get(i, j));
            j += 1;
        }
        aug.set(i, a + i, S::one());
        assert(m@[i as int].len() == a);
        assert(aug@[i as int] =~= augmented(m@)[i as int]);
        i += 1;
    }
    assert(aug@ =~= augmented(m@));
    aug
}

/// The inverse of a square matrix; `None` where a pivot is rejected.
pub fn invert<S: Scalar>(m: &Matrix<S>) -> (r: Option<Matrix<S>>)
    requires
        m.wf(),
        m.width() == m@.len(),
        2 * m@.len() <= usize::MAX,
    ensures
        r is Some <==> nonsingular(m@),
        r matches Some(inv) ==> inv.wf() && inv.width() == m@.len() && inv@.len() == m@.len()
            && inv@ == spec_inverse(m@),
{
    let a: usize = m.nrows();
    let mut aug: Matrix<S> = augment(m);
    let ghost start = aug@;
    let floor: S = reciprocal(PIVOT_SCALE);
    let mut col: usize = 0;
    while col < a
        invariant
            col <= a,
            a == m@.len(),
            start == augmented(m@),
            start.len() == a,
            floor == spec_reciprocal::<S>(PIVOT_SCALE),
            2 * a <= usize::MAX,
            aug.wf(),
            aug.width() == 2 * a,
            aug@.len() == a,
            aug@ == eliminated(start, col as int),
            accepted_upto(start, col as int),
        decreases a - col,
    {
        let max_row: usize = pivot_row(&aug, col);
        let ghost before = aug@;
        if max_row != col {
            aug.swap_rows(col, max_row);
        }
        assert(aug@ =~= pivoted(before, col as int));
        let pivot: S = aug.get(col, col);
        assert(pivot == spec_pivot(eliminated(start, col as int), col as int));
        if !pivot.abs().exceeds(floor) {
            assert(!acceptable(spec_pivot(eliminated(start, col as int), col as int)));
            return None;
        }
        clear(&mut aug, col);
        col += 1;
        assert(aug@ == eliminated(start, col as int));
        assert(accepted_upto(start, col as int));
    }
    let mut rows: Vec<Vec<S>> = Vec::new();
    let mut i: usize = 0;
    while i < a
        invariant
            i <= a,
            a == aug@.len(),
            aug.wf(),
            aug.width() == 2 * a,
            2 * a <= usize::MAX,
            rows@.len() == i,
            forall|k: int| 0 <= k < i ==> (#[trigger] rows@[k])@ == right_half(aug@)[k],
        decreases a - i,
    {
        let mut row: Vec<S> = Vec::new();
        let mut j: usize = a;
        while j < 2 * a
            invariant
                a <= j <= 2 * a,
                i < a,
                a == aug@.len(),
                aug.wf(),
                aug.width() == 2 * a,
                2 * a <= usize::MAX,
                row@.len() == j - a,
                forall|l: int| 0 <= l < j - a ==> row@[l] == aug@[i as int][a + l],
            decreases 2 * a - j,
        {
            row.push(aug.get(i, j));
            j += 1;
        }
        assert(aug@[i as int].len() == 2 * a);
        assert(row@ =~= right_half(aug@)[i as int]);
        rows.push(row);
        i += 1;
    }
    assert forall|k: int| 0 <= k < rows@.len() implies (#[trigger] rows@[k])@.len() == a by {
        assert(aug@[k].len() == 2 * a);
    }
    let inv: Option<Matrix<S>> = Matrix::from_rows(a, rows);
    assert(inv is Some && inv->0@ =~= spec_inverse(m@));
    inv
}

/// Solves `B = W (P^T W)^{-1} C^T`; `None` where `P^T W` is singular.
pub fn try_solve_coefficients<S: Scalar>(w: &Matrix<S>, p: &Matrix<S>, c: &Matrix<S>) -> (r: Option<
    Matrix<S>,
>)
    requires
        w.wf(),
        p.wf(),
        c.wf(),
        w@.len() == p@.len(),
        w.width() == p.width(),
        w.width() == c.width(),
        2 * w.width() <= usize::MAX,
    ensures
        r is Some <==> nonsingular(loadings_by_weights(p@, w@, w.width())),
        r matches Some(b) ==> b.wf() && b.width() == c@.len() && b@ == spec_coefficients(
            w@,
            p@,
            c@,
            w.width(),
        ),
{
    let ptw: Matrix<S> = product(&p.transpose(), w);
    match invert(&ptw) {
        Some(inv) => {
            Some(product(&product(w, &inv), &c.transpose()))
        },
        None => None,
    }
}

/// Solves `B = W (P^T W)^{-1} C^T`, for a nonsingular `P^T W`.
pub fn solve_coefficients<S: Scalar>(w: &Matrix<S>, p: &Matrix<S>, c: &Matrix<S>) -> (b: Matrix<S>)
    requires
        w.wf(),
        p.wf(),
        c.wf(),
        w@.len() == p@.len(),
        w.width() == p.width(),
        w.width() == c.width(),
        2 * w.width() <= usize::MAX,
        nonsingular(loadings_by_weights(p@, w@, w.width())),
    ensures
        b.wf(),
        b.width() == c@.len(),
        b@ == spec_coefficients(w@, p@, c@, w.width()),
{
    try_solve_coefficients(w, p, c).unwrap()
}

} // verus!
