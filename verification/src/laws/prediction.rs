//! What a model predicts for new data.
use crate::laws::algebra::{dot_linear, dot_linear_right, sub_add, sub_mul};
use crate::laws::products::{dot_unit, row_times_associates, row_times_dot, row_times_identity};
use crate::matrix::{
    has_width, row_times, rows_minus, rows_plus, spec_column, spec_dot_mv, spec_product,
};
use crate::model::{filtered, predicted, ModelView};
use crate::scalar::{ExactScalar, Scalar};
use crate::solve::{identity, unit};
use crate::vector::{difference, minus_scaled, spec_dot};
use vstd::prelude::*;

verus! {

/// What is predicted for a row, by every model and for every row, whatever the data on which
/// the model was fitted.  The means are subtracted; every orthogonal component takes its
/// loading, times the inner product of the row and its weight vector, off the row; the
/// prediction is the inner product of the row that is left and the coefficients, plus the
/// mean.  The row before and after each component is returned.
pub proof fn prediction_removes_every_component<S: Scalar>(
    model: ModelView<S>,
    n_orth: nat,
    m: nat,
    p: nat,
    z: Seq<Seq<S>>,
    i: int,
) -> (rows: Seq<Seq<S>>)
    requires
        0 <= i < z.len(),
        z[i].len() == p,
        n_orth > 0 ==> p <= model.loadings_orth.len(),
    ensures
        rows.len() == n_orth + 1,
        forall|a: int| 0 <= a <= n_orth ==> (#[trigger] rows[a]).len() == p,
        forall|j: int|
            0 <= j < p ==> #[trigger] rows[0][j] == z[i][j].spec_sub(model.x_mean[j]),
        forall|a: int, j: int|
            0 <= a < n_orth && 0 <= j < p ==> #[trigger] rows[a + 1][j] == rows[a][j].spec_sub(
                spec_dot(rows[a], spec_column(model.weights_orth, a)).spec_mul(
                    model.loadings_orth[j][a],
                ),
            ),
        predicted(model, n_orth, m, z).len() == z.len(),
        predicted(model, n_orth, m, z)[i].len() == m,
        forall|j: int|
            0 <= j < m ==> #[trigger] predicted(model, n_orth, m, z)[i][j] == spec_dot(
                rows[n_orth as int],
                spec_column(model.coefficients, j),
            ).spec_add(model.y_mean[j]),
{
    let start = rows_minus(z, model.x_mean);
    let rows = Seq::new(
        n_orth + 1,
        |a: int| filtered(start, model.weights_orth, model.loadings_orth, a as nat)[i],
    );
    assert forall|a: int| 0 <= a <= n_orth implies (#[trigger] rows[a]).len() == p by {
        filter_keeps_rows(start, model.weights_orth, model.loadings_orth, a as nat, i);
    }
    assert forall|a: int, j: int| 0 <= a < n_orth && 0 <= j < p implies #[trigger] rows[a + 1][j]
        == rows[a][j].spec_sub(
        spec_dot(rows[a], spec_column(model.weights_orth, a)).spec_mul(model.loadings_orth[j][a]),
    ) by {
        filter_keeps_rows(start, model.weights_orth, model.loadings_orth, a as nat, i);
        assert(rows[a].len() == p);
    }
    filter_keeps_rows(start, model.weights_orth, model.loadings_orth, n_orth, i);
    rows
}

proof fn filter_keeps_rows<S: Scalar>(
    z: Seq<Seq<S>>,
    weights_orth: Seq<Seq<S>>,
    loadings_orth: Seq<Seq<S>>,
    k: nat,
    i: int,
)
    requires
        0 <= i < z.len(),
    ensures
        filtered(z, weights_orth, loadings_orth, k).len() == z.len(),
        filtered(z, weights_orth, loadings_orth, k)[i].len() == z[i].len(),
    decreases k,
{
    if k > 0 {
        filter_keeps_rows(z, weights_orth, loadings_orth, (k - 1) as nat, i);
    }
}

/// `I - w l^T`, the matrix that removes the component with the weight vector `w` and the
/// loading `l` from a row of `p` elements.
pub open spec fn remover<S: Scalar>(w: Seq<S>, l: Seq<S>, p: nat) -> Seq<Seq<S>> {
    Seq::new(
        p,
        |i: int| Seq::new(p, |j: int| unit::<S>(i, p)[j].spec_sub(w[i].spec_mul(l[j]))),
    )
}

/// The product of the matrices that remove the first `k` orthogonal components.
pub open spec fn filter_matrix<S: Scalar>(
    weights_orth: Seq<Seq<S>>,
    loadings_orth: Seq<Seq<S>>,
    p: nat,
    k: nat,
) -> Seq<Seq<S>>
    decreases k,
{
    if k == 0 {
        identity::<S>(p)
    } else {
        spec_product(
            filter_matrix(weights_orth, loadings_orth, p, (k - 1) as nat),
            remover(spec_column(weights_orth, k - 1), spec_column(loadings_orth, k - 1), p),
            p,
        )
    }
}

proof fn filter_matrix_shape<S: Scalar>(
    weights_orth: Seq<Seq<S>>,
    loadings_orth: Seq<Seq<S>>,
    p: nat,
    k: nat,
)
    ensures
        filter_matrix(weights_orth, loadings_orth, p, k).len() == p,
        has_width(filter_matrix(weights_orth, loadings_orth, p, k), p),
    decreases k,
{
    if k > 0 {
        filter_matrix_shape(weights_orth, loadings_orth, p, (k - 1) as nat);
    }
}

/// Multiplying a row by the remover of a component takes the component off.
proof fn remover_removes<S: ExactScalar>(v: Seq<S>, w: Seq<S>, l: Seq<S>, p: nat)
    requires
        v.len() == p,
        w.len() == p,
        p <= l.len(),
    ensures
        row_times(v, remover(w, l, p), p) == minus_scaled(v, spec_dot(v, w), l),
{
    let r = remover(w, l, p);
    let s = spec_dot(v, w);
    let (left, right) = (row_times(v, r, p), minus_scaled(v, s, l));
    assert forall|j: int| 0 <= j < p implies left[j] == right[j] by {
        let e = unit::<S>(j, p);
        let c = spec_column(r, j);
        let f = l[j].spec_neg();
        assert forall|i: int| 0 <= i < p implies #[trigger] c[i] == e[i].spec_add(
            f.spec_mul(w[i]),
        ) by {
            // e - w l == e - l w == e + (-l) w
            S::mul_commutes(w[i], l[j]);
            sub_mul(e[i], l[j], w[i]);
        }
        dot_linear_right(v, c, e, f, w, p as int);
        dot_unit(v, j);
        // v + (-l) s == v - l s == v - s l
        sub_mul(v[j], l[j], s);
        S::mul_commutes(l[j], s);
    }
    assert(left =~= right);
}

proof fn filter_is_a_product<S: ExactScalar>(
    z: Seq<Seq<S>>,
    weights_orth: Seq<Seq<S>>,
    loadings_orth: Seq<Seq<S>>,
    p: nat,
    k: nat,
    i: int,
)
    requires
        0 <= i < z.len(),
        z[i].len() == p,
        k > 0 ==> weights_orth.len() == p && p <= loadings_orth.len(),
    ensures
        filtered(z, weights_orth, loadings_orth, k).len() == z.len(),
        filtered(z, weights_orth, loadings_orth, k)[i] == row_times(
            z[i],
            filter_matrix(weights_orth, loadings_orth, p, k),
            p,
        ),
    decreases k,
{
    if k == 0 {
        row_times_identity(z[i]);
    } else {
        let b = (k - 1) as nat;
        filter_is_a_product(z, weights_orth, loadings_orth, p, b, i);
        filter_matrix_shape(weights_orth, loadings_orth, p, b);
        let (w, l) = (spec_column(weights_orth, k - 1), spec_column(loadings_orth, k - 1));
        let before = filtered(z, weights_orth, loadings_orth, b);
        remover_removes(before[i], w, l, p);
        row_times_associates(
            z[i],
            filter_matrix(weights_orth, loadings_orth, p, b),
            remover(w, l, p),
            p,
            p,
        );
    }
}

/// Prediction is affine: `(Z - x_mean) F B + y_mean`, with one matrix `F` for all rows, the
/// product of `I - w_orth p_orth^T` over the orthogonal components.
pub proof fn prediction_is_affine<S: ExactScalar>(
    model: ModelView<S>,
    n_orth: nat,
    m: nat,
    p: nat,
    z: Seq<Seq<S>>,
)
    requires
        has_width(z, p),
        n_orth > 0 ==> model.weights_orth.len() == p && p <= model.loadings_orth.len(),
    ensures
        ({
            let f = filter_matrix(model.weights_orth, model.loadings_orth, p, n_orth);
            predicted(model, n_orth, m, z) == rows_plus(
                spec_product(
                    spec_product(rows_minus(z, model.x_mean), f, p),
                    model.coefficients,
                    m,
                ),
                model.y_mean,
            )
        }),
{
    let f = filter_matrix(model.weights_orth, model.loadings_orth, p, n_orth);
    let start = rows_minus(z, model.x_mean);
    let left = filtered(start, model.weights_orth, model.loadings_orth, n_orth);
    let right = spec_product(start, f, p);
    if z.len() > 0 {
        assert(z[0].len() == p);
        filter_is_a_product(start, model.weights_orth, model.loadings_orth, p, n_orth, 0);
    } else {
        filter_of_nothing(start, model.weights_orth, model.loadings_orth, n_orth);
    }
    assert forall|i: int| 0 <= i < z.len() implies left[i] == right[i] by {
        assert(z[i].len() == p);
        filter_is_a_product(start, model.weights_orth, model.loadings_orth, p, n_orth, i);
    }
    assert(left =~= right);
}

proof fn filter_of_nothing<S: Scalar>(
    z: Seq<Seq<S>>,
    weights_orth: Seq<Seq<S>>,
    loadings_orth: Seq<Seq<S>>,
    k: nat,
)
    ensures
        filtered(z, weights_orth, loadings_orth, k).len() == z.len(),
    decreases k,
{
    if k > 0 {
        filter_of_nothing(z, weights_orth, loadings_orth, (k - 1) as nat);
    }
}

/// The prediction of response `j` for a row, less the mean of the response, is the inner
/// product of the row, less the means, and `F b_j`, for column `j` of the coefficients.
pub proof fn prediction_is_an_inner_product<S: ExactScalar>(
    model: ModelView<S>,
    n_orth: nat,
    m: nat,
    p: nat,
    z: Seq<Seq<S>>,
    i: int,
    j: int,
)
    requires
        has_width(z, p),
        0 <= i < z.len(),
        0 <= j < m,
        model.coefficients.len() == p,
        n_orth > 0 ==> model.weights_orth.len() == p && p <= model.loadings_orth.len(),
    ensures
        ({
            let f = filter_matrix(model.weights_orth, model.loadings_orth, p, n_orth);
            predicted(model, n_orth, m, z)[i][j].spec_sub(model.y_mean[j]) == spec_dot(
                difference(z[i], model.x_mean),
                spec_dot_mv(f, spec_column(model.coefficients, j)),
            )
        }),
{
    let f = filter_matrix(model.weights_orth, model.loadings_orth, p, n_orth);
    let row = difference(z[i], model.x_mean);
    let b = spec_column(model.coefficients, j);
    let mean = model.y_mean[j];
    assert(z[i].len() == p);
    prediction_is_affine(model, n_orth, m, p, z);
    filter_matrix_shape(model.weights_orth, model.loadings_orth, p, n_orth);
    row_times_dot(row, f, b, p);
    let d = spec_dot(row_times(row, f, p), b);
    assert(predicted(model, n_orth, m, z)[i][j] == d.spec_add(mean));
    // d + mean - mean == d
    S::sub_is_add_neg(d.spec_add(mean), mean);
    S::add_associates(d, mean, mean.spec_neg());
    S::add_neg(mean);
    S::add_zero(d);
}

/// Adding `s` times a direction `d` to a row changes every prediction by `s` times an amount
/// that depends neither on the row nor on `s`: the inner product of `d` and `F b_j`.
pub proof fn prediction_moves_along<S: ExactScalar>(
    model: ModelView<S>,
    n_orth: nat,
    m: nat,
    p: nat,
    row: Seq<S>,
    d: Seq<S>,
    s: S,
    j: int,
)
    requires
        row.len() == p,
        d.len() == p,
        0 <= j < m,
        model.coefficients.len() == p,
        n_orth > 0 ==> model.weights_orth.len() == p && p <= model.loadings_orth.len(),
    ensures
        ({
            let moved = Seq::new(p, |c: int| row[c].spec_add(s.spec_mul(d[c])));
            let f = filter_matrix(model.weights_orth, model.loadings_orth, p, n_orth);
            let amount = spec_dot(d, spec_dot_mv(f, spec_column(model.coefficients, j)));
            predicted(model, n_orth, m, seq![moved])[0][j] == predicted(
                model,
                n_orth,
                m,
                seq![row],
            )[0][j].spec_add(s.spec_mul(amount))
        }),
{
    let moved = Seq::new(p, |c: int| row[c].spec_add(s.spec_mul(d[c])));
    let f = filter_matrix(model.weights_orth, model.loadings_orth, p, n_orth);
    let g = spec_dot_mv(f, spec_column(model.coefficients, j));
    let amount = spec_dot(d, g);
    let mean = model.y_mean[j];
    let (a, b) = (difference(row, model.x_mean), difference(moved, model.x_mean));
    assert(has_width(seq![row], p) && has_width(seq![moved], p));
    prediction_is_an_inner_product(model, n_orth, m, p, seq![row], 0, j);
    prediction_is_an_inner_product(model, n_orth, m, p, seq![moved], 0, j);
    assert forall|c: int| 0 <= c < p implies #[trigger] b[c] == a[c].spec_add(
        s.spec_mul(d[c]),
    ) by {
        let (e, u) = (s.spec_mul(d[c]), model.x_mean[c]);
        // (r + e) - u == (r - u) + e
        S::sub_is_add_neg(row[c].spec_add(e), u);
        S::sub_is_add_neg(row[c], u);
        S::add_associates(row[c], e, u.spec_neg());
        S::add_commutes(e, u.spec_neg());
        S::add_associates(row[c], u.spec_neg(), e);
    }
    dot_linear(b, a, s, d, g, p as int);
    let before = predicted(model, n_orth, m, seq![row])[0][j];
    let after = predicted(model, n_orth, m, seq![moved])[0][j];
    let change = s.spec_mul(amount);
    // after == (after - mean) + mean == ((before - mean) + change) + mean == before + change
    sub_add(after, mean);
    sub_add(before, mean);
    let rest = before.spec_sub(mean);
    S::add_associates(rest, change, mean);
    S::add_commutes(change, mean);
    S::add_associates(rest, mean, change);
}

} // verus!
