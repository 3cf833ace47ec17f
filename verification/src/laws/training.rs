//! What a model says about the data on which it was fitted.
use crate::laws::algebra::{sub_add, zero_add};
use crate::laws::inverse::matrix_times_inverse;
use crate::laws::orthogonality::{orth_state_shape, orthogonal_scores};
use crate::laws::peeling::{
    data_decompose, dot_push, neg_moves, nondegenerate, nondegenerate_is_regular, peel_score,
    predictive_extraction_peels, residual_ignores_weights, scores_are_orthogonal, scores_avoid,
};
use crate::laws::products::{row_times_associates, row_times_identity};
use crate::matrix::{
    has_width, row_times, rows_minus, spec_column, spec_dot_mv, spec_product, transposed,
};
use crate::model::{
    centered, filtered, fitted, orth_fit, orth_state, pred_fit, pred_state, pred_step, predicted,
    solvable, spec_component, ModelView,
};
use crate::scalar::{ExactScalar, Scalar};
use crate::solve::{
    augmented, eliminated, lemma_eliminated_shape, loadings_by_weights, nonsingular,
    spec_coefficients, spec_inverse,
};
use crate::vector::spec_dot;
use vstd::prelude::*;

verus! {

/// Centering keeps the shape.
pub proof fn centered_shape<S: Scalar>(m: Seq<Seq<S>>, cols: nat)
    requires
        has_width(m, cols),
    ensures
        centered(m, cols).len() == m.len(),
        has_width(centered(m, cols), cols),
{
    assert forall|i: int| 0 <= i < m.len() implies (#[trigger] centered(m, cols)[i]).len()
        == cols by {
        assert(m[i].len() == cols);
    }
}

/// Transposing twice gives the matrix back.
pub proof fn transposed_twice<S>(m: Seq<Seq<S>>, cols: nat)
    requires
        has_width(m, cols),
    ensures
        transposed(transposed(m, cols), m.len()) == m,
        forall|a: int|
            0 <= a < m.len() ==> #[trigger] spec_column(transposed(m, cols), a) == m[a],
{
    assert forall|a: int| 0 <= a < m.len() implies #[trigger] spec_column(transposed(m, cols), a)
        == m[a] by {
        assert(m[a].len() == cols);
        assert(spec_column(transposed(m, cols), a) =~= m[a]);
    }
    assert(transposed(transposed(m, cols), m.len()) =~= m);
}

/// The weight vectors and Y-loadings of a component have one element per column.
pub proof fn component_shape<S: Scalar>(x: Seq<Seq<S>>, y: Seq<Seq<S>>, p: nat, m: nat)
    ensures
        spec_component(x, y, p, m).0.len() == p,
        spec_component(x, y, p, m).1.len() == m,
{
}

/// The first orthogonal components do not depend on how many follow.
pub proof fn orth_state_prefix<S: Scalar>(x: Seq<Seq<S>>, w: Seq<S>, p: nat, k: nat, n: nat)
    requires
        has_width(x, p),
        w.len() == p,
        k <= n,
    ensures
        forall|a: int|
            0 <= a < k ==> #[trigger] orth_state(x, w, p, n).weights[a] == orth_state(
                x,
                w,
                p,
                k,
            ).weights[a],
        forall|a: int|
            0 <= a < k ==> #[trigger] orth_state(x, w, p, n).loadings[a] == orth_state(
                x,
                w,
                p,
                k,
            ).loadings[a],
        forall|a: int|
            0 <= a < k ==> #[trigger] orth_state(x, w, p, n).scores[a] == orth_state(
                x,
                w,
                p,
                k,
            ).scores[a],
    decreases n,
{
    if k < n {
        orth_state_prefix(x, w, p, k, (n - 1) as nat);
        orth_state_shape(x, w, p, (n - 1) as nat);
    }
}

/// `filtered` removes from the data the components that the extraction removed.
pub proof fn filter_follows<S: Scalar>(x: Seq<Seq<S>>, w: Seq<S>, p: nat, k: nat, n: nat)
    requires
        has_width(x, p),
        w.len() == p,
        k <= n,
    ensures
        filtered(
            x,
            transposed(orth_state(x, w, p, n).weights, p),
            transposed(orth_state(x, w, p, n).loadings, p),
            k,
        ) == orth_state(x, w, p, k).x,
    decreases k,
{
    if k > 0 {
        filter_follows(x, w, p, (k - 1) as nat, n);
        orth_state_prefix(x, w, p, k, n);
        orth_state_shape(x, w, p, k);
        orth_state_shape(x, w, p, n);
        let s = orth_state(x, w, p, n);
        assert(has_width(s.weights, p));
        assert(has_width(s.loadings, p));
        transposed_twice(s.weights, p);
        transposed_twice(s.loadings, p);
        assert(spec_column(transposed(s.weights, p), k - 1) == s.weights[k - 1]);
        assert(spec_column(transposed(s.loadings, p), k - 1) == s.loadings[k - 1]);
    }
}

/// On the training data, prediction removes the very components that the fit removed:
/// it regresses on the same filtered data.
pub proof fn training_filter<S: Scalar>(
    z: Seq<Seq<S>>,
    y: Seq<Seq<S>>,
    p: nat,
    m: nat,
    n_pred: nat,
    n_orth: nat,
)
    requires
        has_width(z, p),
    ensures
        ({
            let model = fitted(z, y, p, m, n_pred, n_orth);
            filtered(
                rows_minus(z, model.x_mean),
                model.weights_orth,
                model.loadings_orth,
                n_orth,
            ) == orth_fit(z, y, p, m, n_orth).x
        }),
{
    let xc = centered(z, p);
    centered_shape(z, p);
    component_shape(xc, centered(y, m), p, m);
    filter_follows(xc, spec_component(xc, centered(y, m), p, m).0, p, n_orth, n_orth);
}

/// The shapes of the extraction of predictive components.
pub proof fn pred_state_shape<S: Scalar>(
    x: Seq<Seq<S>>,
    y: Seq<Seq<S>>,
    p: nat,
    m: nat,
    k: nat,
)
    requires
        has_width(x, p),
        has_width(y, m),
        x.len() == y.len(),
    ensures
        ({
            let s = pred_state(x, y, p, m, k);
            &&& has_width(s.x, p)
            &&& has_width(s.y, m)
            &&& s.x.len() == x.len()
            &&& s.y.len() == x.len()
            &&& s.weights.len() == k
            &&& s.loadings_x.len() == k
            &&& s.loadings_y.len() == k
            &&& s.scores.len() == k
            &&& has_width(s.weights, p)
            &&& has_width(s.loadings_x, p)
            &&& has_width(s.loadings_y, m)
            &&& has_width(s.scores, x.len())
        }),
    decreases k,
{
    if k > 0 {
        let before = pred_state(x, y, p, m, (k - 1) as nat);
        pred_state_shape(x, y, p, m, (k - 1) as nat);
        component_shape(before.x, before.y, p, m);
        let s = pred_step(before, p, m);
        assert forall|i: int| 0 <= i < s.x.len() implies (#[trigger] s.x[i]).len() == p by {
            assert(before.x[i].len() == p);
        }
        assert forall|i: int| 0 <= i < s.y.len() implies (#[trigger] s.y[i]).len() == m by {
            assert(before.y[i].len() == m);
        }
    }
}

/// The first predictive components do not depend on how many follow.
pub proof fn pred_state_prefix<S: Scalar>(
    x: Seq<Seq<S>>,
    y: Seq<Seq<S>>,
    p: nat,
    m: nat,
    k: nat,
    n: nat,
)
    requires
        has_width(x, p),
        has_width(y, m),
        x.len() == y.len(),
        k <= n,
    ensures
        forall|a: int|
            0 <= a < k ==> #[trigger] pred_state(x, y, p, m, n).weights[a] == pred_state(
                x,
                y,
                p,
                m,
                k,
            ).weights[a],
        forall|a: int|
            0 <= a < k ==> #[trigger] pred_state(x, y, p, m, n).scores[a] == pred_state(
                x,
                y,
                p,
                m,
                k,
            ).scores[a],
        forall|a: int|
            0 <= a < k ==> #[trigger] pred_state(x, y, p, m, n).loadings_x[a] == pred_state(
                x,
                y,
                p,
                m,
                k,
            ).loadings_x[a],
        forall|a: int|
            0 <= a < k ==> #[trigger] pred_state(x, y, p, m, n).loadings_y[a] == pred_state(
                x,
                y,
                p,
                m,
                k,
            ).loadings_y[a],
    decreases n,
{
    if k < n {
        pred_state_prefix(x, y, p, m, k, (n - 1) as nat);
        pred_state_shape(x, y, p, m, (n - 1) as nat);
    }
}

/// The responses are what the extraction leaves plus the scores times the Y-loadings:
/// `Y_0 == Y_k + T C^T`.
pub proof fn responses_decompose<S: ExactScalar>(
    x: Seq<Seq<S>>,
    y: Seq<Seq<S>>,
    p: nat,
    m: nat,
    k: nat,
    i: int,
    j: int,
)
    requires
        has_width(x, p),
        has_width(y, m),
        x.len() == y.len(),
        0 <= i < x.len(),
        0 <= j < m,
    ensures
        ({
            let s = pred_state(x, y, p, m, k);
            y[i][j] == s.y[i][j].spec_add(
                spec_dot(spec_column(s.scores, i), spec_column(s.loadings_y, j)),
            )
        }),
    decreases k,
{
    let after = pred_state(x, y, p, m, k);
    if k == 0 {
        S::add_zero(y[i][j]);
    } else {
        let before = pred_state(x, y, p, m, (k - 1) as nat);
        pred_state_shape(x, y, p, m, (k - 1) as nat);
        pred_state_shape(x, y, p, m, k);
        responses_decompose(x, y, p, m, (k - 1) as nat, i, j);
        let t = after.scores[k - 1];
        let c = after.loadings_y[k - 1];
        assert(before.y[i].len() == m);
        let b = t[i].spec_mul(c[j]);
        let sum = spec_dot(spec_column(before.scores, i), spec_column(before.loadings_y, j));
        dot_push(
            spec_column(before.scores, i),
            spec_column(before.loadings_y, j),
            spec_column(after.scores, i),
            spec_column(after.loadings_y, j),
        );
        S::sub_is_add_neg(before.y[i][j], b);
        neg_moves(before.y[i][j], b, sum);
    }
}

/// The inverse is square.
pub proof fn inverse_shape<S: Scalar>(m: Seq<Seq<S>>)
    requires
        has_width(m, m.len()),
    ensures
        spec_inverse(m).len() == m.len(),
        has_width(spec_inverse(m), m.len()),
{
    let g = augmented(m);
    assert(has_width(g, 2 * m.len())) by {
        assert forall|i: int| 0 <= i < g.len() implies (#[trigger] g[i]).len() == 2 * m.len() by {
            assert(m[i].len() == m.len());
        }
    }
    lemma_eliminated_shape(g, m.len() as int, 2 * m.len());
    let e = eliminated(g, m.len() as int);
    assert forall|i: int| 0 <= i < m.len() implies (#[trigger] spec_inverse(m)[i]).len()
        == m.len() by {
        assert(e[i].len() == 2 * m.len());
    }
}

/// The regression reproduces the scores times the Y-loadings: `X_0 B == T C^T`.
pub proof fn regression_reproduces<S: ExactScalar>(
    x: Seq<Seq<S>>,
    y: Seq<Seq<S>>,
    p: nat,
    m: nat,
    k: nat,
    i: int,
)
    requires
        has_width(x, p),
        has_width(y, m),
        x.len() == y.len(),
        0 <= i < x.len(),
        nondegenerate(pred_state(x, y, p, m, k).scores),
        ({
            let s = pred_state(x, y, p, m, k);
            nonsingular(
                loadings_by_weights(transposed(s.loadings_x, p), transposed(s.weights, p), k),
            )
        }),
    ensures
        ({
            let s = pred_state(x, y, p, m, k);
            row_times(
                x[i],
                spec_coefficients(
                    transposed(s.weights, p),
                    transposed(s.loadings_x, p),
                    transposed(s.loadings_y, m),
                    k,
                ),
                m,
            ) == row_times(spec_column(s.scores, i), s.loadings_y, m)
        }),
{
    let s = pred_state(x, y, p, m, k);
    pred_state_shape(x, y, p, m, k);
    let w = transposed(s.weights, p);
    let pl = transposed(s.loadings_x, p);
    let c = transposed(s.loadings_y, m);
    let mm = loadings_by_weights(pl, w, k);
    let r = spec_inverse(mm);
    let t = spec_column(s.scores, i);
    predictive_extraction_peels(x, y, p, m, k);
    nondegenerate_is_regular(x, s.weights, p, k);
    transposed_twice(s.weights, p);
    transposed_twice(s.loadings_x, p);
    transposed_twice(s.loadings_y, m);
    assert(mm.len() == k);
    assert(has_width(mm, k));
    inverse_shape(mm);
    assert(x[i].len() == p);

    // X_0 W == T M
    let xw = row_times(x[i], w, k);
    let tm = row_times(t, mm, k);
    assert forall|b: int| 0 <= b < k implies xw[b] == tm[b] by {
        let v = s.weights[b];
        assert(spec_column(w, b) == v);
        assert(v.len() == p);
        data_decompose(x, s.weights, p, k, i, v);
        residual_ignores_weights(x, s.weights, p, k, b as nat);
        assert(spec_dot_mv(s.x, v)[i] == S::spec_zero());
        zero_add(spec_dot(t, spec_dot_mv(s.loadings_x, v)));
        assert(spec_column(mm, b) =~= spec_dot_mv(s.loadings_x, v));
    }
    assert(xw =~= tm);

    // X_0 W R == T M R == T
    assert(has_width(w, k));
    row_times_associates(x[i], w, r, k, k);
    row_times_associates(t, mm, r, k, k);
    matrix_times_inverse(mm);
    row_times_identity(t);
    assert(row_times(x[i], spec_product(w, r, k), k) == t);

    // X_0 W R C^T == T C^T
    assert(has_width(spec_product(w, r, k), k));
    assert(transposed(c, k) == s.loadings_y);
    row_times_associates(x[i], spec_product(w, r, k), s.loadings_y, k, m);
}

/// On the training data, what a model predicts and what the fit left of the responses add
/// up to the responses.
pub proof fn training_prediction<S: ExactScalar>(
    z: Seq<Seq<S>>,
    y: Seq<Seq<S>>,
    p: nat,
    m: nat,
    n_pred: nat,
    n_orth: nat,
    i: int,
    j: int,
)
    requires
        has_width(z, p),
        has_width(y, m),
        z.len() == y.len(),
        0 <= i < z.len(),
        0 <= j < m,
        solvable(z, y, p, m, n_pred, n_orth),
        nondegenerate(pred_fit(z, y, p, m, n_pred, n_orth).scores),
    ensures
        predicted(fitted(z, y, p, m, n_pred, n_orth), n_orth, m, z)[i][j].spec_add(
            pred_fit(z, y, p, m, n_pred, n_orth).y[i][j],
        ) == y[i][j],
{
    let model = fitted(z, y, p, m, n_pred, n_orth);
    let (xc, yc) = (centered(z, p), centered(y, m));
    let xf = orth_fit(z, y, p, m, n_orth).x;
    let s = pred_fit(z, y, p, m, n_pred, n_orth);
    training_filter(z, y, p, m, n_pred, n_orth);
    centered_shape(z, p);
    centered_shape(y, m);
    component_shape(xc, yc, p, m);
    orth_state_shape(xc, spec_component(xc, yc, p, m).0, p, n_orth);
    regression_reproduces(xf, yc, p, m, n_pred, i);
    responses_decompose(xf, yc, p, m, n_pred, i, j);
    let xb = row_times(xf[i], model.coefficients, m)[j];
    let (rest, mean) = (s.y[i][j], model.y_mean[j]);
    assert(predicted(model, n_orth, m, z)[i][j] == xb.spec_add(mean));
    assert(y[i].len() == m);
    assert(yc[i][j] == y[i][j].spec_sub(mean));
    assert(yc[i][j] == rest.spec_add(xb));
    sub_add(y[i][j], mean);
    S::add_associates(rest, xb, mean);
    S::add_commutes(rest, xb.spec_add(mean));
}

/// All scores of a fit are orthogonal to one another: those of two predictive components,
/// of two orthogonal components, and of one of each.
pub proof fn scores_of_fit_are_orthogonal<S: ExactScalar>(
    z: Seq<Seq<S>>,
    y: Seq<Seq<S>>,
    p: nat,
    m: nat,
    n_pred: nat,
    n_orth: nat,
)
    requires
        has_width(z, p),
        has_width(y, m),
        z.len() == y.len(),
        nondegenerate(orth_fit(z, y, p, m, n_orth).scores),
        nondegenerate(pred_fit(z, y, p, m, n_pred, n_orth).scores),
    ensures
        ({
            let orth = orth_fit(z, y, p, m, n_orth).scores;
            let pred = pred_fit(z, y, p, m, n_pred, n_orth).scores;
            &&& forall|a: int, b: int|
                0 <= a < n_orth && 0 <= b < n_orth && a != b ==> spec_dot(
                    #[trigger] orth[a],
                    #[trigger] orth[b],
                ) == S::spec_zero()
            &&& forall|a: int, b: int|
                0 <= a < n_pred && 0 <= b < n_pred && a != b ==> spec_dot(
                    #[trigger] pred[a],
                    #[trigger] pred[b],
                ) == S::spec_zero()
            &&& forall|a: int, b: int|
                0 <= a < n_orth && 0 <= b < n_pred ==> spec_dot(
                    #[trigger] orth[a],
                    #[trigger] pred[b],
                ) == S::spec_zero()
        }),
{
    let (xc, yc) = (centered(z, p), centered(y, m));
    let w = spec_component(xc, yc, p, m).0;
    let o = orth_fit(z, y, p, m, n_orth);
    let s = pred_fit(z, y, p, m, n_pred, n_orth);
    centered_shape(z, p);
    centered_shape(y, m);
    component_shape(xc, yc, p, m);
    orth_state_shape(xc, w, p, n_orth);
    pred_state_shape(o.x, yc, p, m, n_pred);
    orthogonal_scores(xc, w, p, n_orth);
    predictive_extraction_peels(o.x, yc, p, m, n_pred);
    nondegenerate_is_regular(o.x, s.weights, p, n_pred);
    scores_are_orthogonal(o.x, s.weights, p, n_pred);
    assert forall|a: int| 0 <= a < n_pred implies #[trigger] s.scores[a] == peel_score(
        o.x,
        s.weights,
        p,
        a as nat,
    ) by {
    }
    assert forall|a: int, b: int| 0 <= a < n_orth && 0 <= b < n_pred implies spec_dot(
        #[trigger] o.scores[a],
        #[trigger] s.scores[b],
    ) == S::spec_zero() by {
        scores_avoid(o.x, s.weights, p, n_pred, o.scores[a]);
        assert(s.scores[b] == peel_score(o.x, s.weights, p, b as nat));
    }
}

/// Filtering treats the rows one by one.
proof fn filter_is_rowwise<S: Scalar>(
    z: Seq<Seq<S>>,
    weights_orth: Seq<Seq<S>>,
    loadings_orth: Seq<Seq<S>>,
    k: nat,
    i: int,
)
    requires
        0 <= i < z.len(),
    ensures
        filtered(z, weights_orth, loadings_orth, k).len() == z.len(),
        filtered(seq![z[i]], weights_orth, loadings_orth, k).len() == 1,
        filtered(z, weights_orth, loadings_orth, k)[i] == filtered(
            seq![z[i]],
            weights_orth,
            loadings_orth,
            k,
        )[0],
    decreases k,
{
    if k > 0 {
        filter_is_rowwise(z, weights_orth, loadings_orth, (k - 1) as nat, i);
    }
}

/// Prediction treats the rows one by one: what is predicted for a row does not depend on
/// the others.
pub proof fn prediction_is_rowwise<S: Scalar>(
    model: ModelView<S>,
    n_orth: nat,
    m: nat,
    z: Seq<Seq<S>>,
    i: int,
)
    requires
        0 <= i < z.len(),
    ensures
        predicted(model, n_orth, m, z)[i] == predicted(model, n_orth, m, seq![z[i]])[0],
{
    let (all, one) = (rows_minus(z, model.x_mean), rows_minus(seq![z[i]], model.x_mean));
    assert(one =~= seq![all[i]]);
    filter_is_rowwise(all, model.weights_orth, model.loadings_orth, n_orth, i);
}

} // verus!
