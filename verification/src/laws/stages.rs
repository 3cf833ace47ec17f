//! The stages of the elimination that inverts a matrix, for every number type.
use crate::matrix::{has_width, spec_column, spec_product, transposed};
use crate::scalar::Scalar;
use crate::solve::{
    accepted_upto, augmented, eliminated, lemma_eliminated_shape, lemma_pivot_row_range,
    loadings_by_weights, nonsingular, pivot_row_prefix, pivoted, spec_coefficients, spec_inverse,
    spec_pivot, spec_pivot_row,
};
use crate::vector::spec_dot;
use vstd::prelude::*;

verus! {

proof fn pivot_row_ext<S: Scalar>(a: Seq<Seq<S>>, b: Seq<Seq<S>>, col: int, k: int)
    requires
        0 <= col,
        forall|i: int| 0 <= i < k ==> a[i] == b[i],
    ensures
        pivot_row_prefix(a, col, k) == pivot_row_prefix(b, col, k),
    decreases k - col,
{
    if k > col + 1 {
        pivot_row_ext(a, b, col, k - 1);
        lemma_pivot_row_range(b, col, k - 1);
    }
}

/// The pivot row is found by going through the rows: where only row `col` is left it is that
/// row, and a further row takes its place where its element in column `col` has a greater
/// magnitude.
pub proof fn pivot_row_moves_to_greater<S: Scalar>(m: Seq<Seq<S>>, row: Seq<S>, col: int)
    requires
        0 <= col < m.len(),
    ensures
        m.len() == col + 1 ==> spec_pivot_row(m, col) == col,
        spec_pivot_row(m.push(row), col) == (if row[col].spec_abs().spec_exceeds(
            m[spec_pivot_row(m, col)][col].spec_abs(),
        ) {
            m.len() as int
        } else {
            spec_pivot_row(m, col)
        }),
{
    let n = m.len() as int;
    pivot_row_ext(m.push(row), m, col, n);
    lemma_pivot_row_range(m, col, n);
}

/// What does not exceed is transitive, and nothing exceeds itself.
pub open spec fn magnitudes_are_ordered<S: Scalar>() -> bool {
    &&& forall|a: S| !#[trigger] a.spec_exceeds(a)
    &&& forall|a: S, b: S, c: S|
        !#[trigger] a.spec_exceeds(b) && !#[trigger] b.spec_exceeds(c) ==> !a.spec_exceeds(c)
    &&& forall|a: S, b: S| #[trigger] a.spec_exceeds(b) ==> !b.spec_exceeds(a)
}

/// Where magnitudes are ordered, none in column `col` from row `col` on exceeds that of the
/// pivot row, and it exceeds those of all the rows above it.
pub proof fn pivot_is_greatest<S: Scalar>(m: Seq<Seq<S>>, col: int, i: int)
    requires
        magnitudes_are_ordered::<S>(),
        0 <= col <= i < m.len(),
    ensures
        col <= spec_pivot_row(m, col) < m.len(),
        !m[i][col].spec_abs().spec_exceeds(m[spec_pivot_row(m, col)][col].spec_abs()),
        i < spec_pivot_row(m, col) ==> m[spec_pivot_row(m, col)][col].spec_abs().spec_exceeds(
            m[i][col].spec_abs(),
        ),
{
    pivot_is_greatest_upto(m, col, m.len() as int, i);
}

proof fn pivot_is_greatest_upto<S: Scalar>(m: Seq<Seq<S>>, col: int, k: int, i: int)
    requires
        magnitudes_are_ordered::<S>(),
        0 <= col <= i < k <= m.len(),
    ensures
        ({
            let r = pivot_row_prefix(m, col, k);
            &&& col <= r < k
            &&& !m[i][col].spec_abs().spec_exceeds(m[r][col].spec_abs())
            &&& i < r ==> m[r][col].spec_abs().spec_exceeds(m[i][col].spec_abs())
        }),
    decreases k,
{
    lemma_pivot_row_range(m, col, k);
    if k > col + 1 {
        let best = pivot_row_prefix(m, col, k - 1);
        lemma_pivot_row_range(m, col, k - 1);
        let (a, b) = (m[i][col].spec_abs(), m[best][col].spec_abs());
        let c = m[k - 1][col].spec_abs();
        if i < k - 1 {
            pivot_is_greatest_upto(m, col, k - 1, i);
            if c.spec_exceeds(b) {
                // a does not exceed b, nor b c; were c not above a, nor would it be above b
                if !c.spec_exceeds(a) {
                    assert(!a.spec_exceeds(b));
                    assert(!c.spec_exceeds(b));
                }
                assert(!b.spec_exceeds(c));
                assert(!a.spec_exceeds(c));
            }
        }
    }
}

/// Row `i` before column `col` is cleared: the rows `col` and `pivot` have changed places.
pub open spec fn row_before<S>(stage: Seq<Seq<S>>, col: int, pivot: int, i: int) -> Seq<S> {
    if i == col {
        stage[pivot]
    } else if i == pivot {
        stage[col]
    } else {
        stage[i]
    }
}

/// The element in row `i` and column `j` after column `col` was cleared: the row that moved
/// to `col` is divided by its element in that column, and every other row loses the result
/// times its own element in that column.
pub open spec fn element_after<S: Scalar>(
    stage: Seq<Seq<S>>,
    col: int,
    pivot: int,
    i: int,
    j: int,
) -> S {
    let lead = stage[pivot][j].spec_div(stage[pivot][col]);
    if i == col {
        lead
    } else {
        let row = row_before(stage, col, pivot, i);
        row[j].spec_sub(row[col].spec_mul(lead))
    }
}

/// Inversion goes through one stage per column.  It begins with the matrix and the identity
/// beside it, clears one column after the other, and ends with the inverse on the right.
/// The matrix is accepted where the magnitude of every pivot exceeds one over ten to the
/// fifteenth.
pub proof fn inversion_goes_through_stages<S: Scalar>(m: Seq<Seq<S>>) -> (stages: Seq<
    Seq<Seq<S>>,
>)
    requires
        has_width(m, m.len()),
    ensures
        stages.len() == m.len() + 1,
        forall|i: int, j: int|
            0 <= i < m.len() && 0 <= j < m.len() ==> {
                &&& #[trigger] stages[0][i][j] == m[i][j]
                &&& stages[0][i][m.len() + j] == (if i == j {
                    S::spec_one()
                } else {
                    S::spec_zero()
                })
            },
        forall|c: int, i: int, j: int|
            0 <= c < m.len() && 0 <= i < m.len() && 0 <= j < 2 * m.len()
                ==> #[trigger] stages[c + 1][i][j] == element_after(
                stages[c],
                c,
                spec_pivot_row(stages[c], c),
                i,
                j,
            ),
        forall|c: int|
            0 <= c < m.len() ==> c <= spec_pivot_row(#[trigger] stages[c], c) < m.len(),
        nonsingular(m) <==> forall|c: int|
            0 <= c < m.len() ==> (#[trigger] stages[c])[spec_pivot_row(
                stages[c],
                c,
            )][c].spec_abs().spec_exceeds(
                S::spec_one().spec_div(S::spec_from_u64(1_000_000_000_000_000)),
            ),
        spec_inverse(m).len() == m.len(),
        forall|i: int, j: int|
            0 <= i < m.len() && 0 <= j < m.len() ==> #[trigger] spec_inverse(m)[i][j]
                == stages[m.len() as int][i][m.len() + j],
{
    let n = m.len() as int;
    let start = augmented(m);
    let stages = Seq::new(m.len() + 1, |c: int| eliminated(start, c));
    assert(has_width(start, 2 * m.len())) by {
        assert forall|i: int| 0 <= i < n implies (#[trigger] start[i]).len() == 2 * n by {
            assert(m[i].len() == m.len());
        }
    }
    assert forall|i: int, j: int| 0 <= i < n && 0 <= j < n implies {
        &&& #[trigger] stages[0][i][j] == m[i][j]
        &&& stages[0][i][n + j] == (if i == j {
            S::spec_one()
        } else {
            S::spec_zero()
        })
    } by {
        assert(m[i].len() == m.len());
    }
    assert forall|c: int| 0 <= c < n implies c <= spec_pivot_row(#[trigger] stages[c], c) < n by {
        lemma_eliminated_shape(start, c, 2 * m.len());
        lemma_pivot_row_range(stages[c], c, n);
    }
    assert forall|c: int, i: int, j: int|
        0 <= c < n && 0 <= i < n && 0 <= j < 2 * n implies #[trigger] stages[c + 1][i][j]
        == element_after(stages[c], c, spec_pivot_row(stages[c], c), i, j) by {
        lemma_eliminated_shape(start, c, 2 * m.len());
        let e = stages[c];
        let r = spec_pivot_row(e, c);
        lemma_pivot_row_range(e, c, n);
        let s = pivoted(e, c);
        assert(e[i].len() == 2 * n && e[c].len() == 2 * n && e[r].len() == 2 * n);
        assert(s[c] == e[r]);
        assert(s[i] == row_before(e, c, r, i));
    }
    assert forall|c: int| 0 <= c < n implies spec_pivot(#[trigger] stages[c], c)
        == stages[c][spec_pivot_row(stages[c], c)][c] by {
        lemma_eliminated_shape(start, c, 2 * m.len());
        lemma_pivot_row_range(stages[c], c, n);
    }
    let floor = S::spec_one().spec_div(S::spec_from_u64(1_000_000_000_000_000));
    if nonsingular(m) {
        assert forall|c: int| 0 <= c < n implies (#[trigger] stages[c])[spec_pivot_row(
            stages[c],
            c,
        )][c].spec_abs().spec_exceeds(floor) by {
            assert(stages[c] == eliminated(start, c));
            assert(spec_pivot(eliminated(start, c), c).spec_abs().spec_exceeds(floor));
        }
    } else {
        let c = choose|c: int|
            0 <= c < n && !(#[trigger] spec_pivot(
                eliminated(start, c),
                c,
            )).spec_abs().spec_exceeds(floor);
        assert(!accepted_upto(start, n));
        assert(stages[c] == eliminated(start, c));
    }
    lemma_eliminated_shape(start, n, 2 * m.len());
    assert forall|i: int, j: int| 0 <= i < n && 0 <= j < n implies #[trigger] spec_inverse(
        m,
    )[i][j] == stages[n][i][n + j] by {
        assert(stages[n][i].len() == 2 * n);
    }
    stages
}

/// The element of the coefficients for variable `i` and response `j` is the inner product of
/// row `i` of `W (P^T W)^{-1}` and row `j` of `C`.  The element of `P^T W` in row `a` and
/// column `b` is the inner product of column `a` of `P` and column `b` of `W`.
pub proof fn coefficients_multiply_out<S: Scalar>(
    w: Seq<Seq<S>>,
    p: Seq<Seq<S>>,
    c: Seq<Seq<S>>,
    k: nat,
) -> (r: (Seq<Seq<S>>, Seq<Seq<S>>))
    requires
        has_width(w, k),
        has_width(p, k),
        has_width(c, k),
        w.len() == p.len(),
    ensures
        ({
            let (ptw, left) = r;
            let inverse = spec_inverse(ptw);
            let b = spec_coefficients(w, p, c, k);
            &&& ptw == loadings_by_weights(p, w, k)
            &&& ptw.len() == k
            &&& has_width(ptw, k)
            &&& forall|d: int, e: int|
                0 <= d < k && 0 <= e < k ==> #[trigger] ptw[d][e] == spec_dot(
                    spec_column(p, d),
                    spec_column(w, e),
                )
            &&& left.len() == w.len()
            &&& has_width(left, k)
            &&& forall|i: int, e: int|
                0 <= i < w.len() && 0 <= e < k ==> #[trigger] left[i][e] == spec_dot(
                    w[i],
                    spec_column(inverse, e),
                )
            &&& b.len() == w.len()
            &&& has_width(b, c.len())
            &&& forall|i: int, j: int|
                0 <= i < w.len() && 0 <= j < c.len() ==> #[trigger] b[i][j] == spec_dot(
                    left[i],
                    c[j],
                )
        }),
{
    let ptw = loadings_by_weights(p, w, k);
    let left = spec_product(w, spec_inverse(ptw), k);
    let b = spec_coefficients(w, p, c, k);
    assert forall|i: int, j: int| 0 <= i < w.len() && 0 <= j < c.len() implies #[trigger] b[i][j]
        == spec_dot(left[i], c[j]) by {
        assert(c[j].len() == k);
        assert(spec_column(transposed(c, k), j) =~= c[j]);
    }
    (ptw, left)
}

} // verus!
