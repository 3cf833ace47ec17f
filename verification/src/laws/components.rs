//! What a fitted model holds, field by field, for every number type.
use crate::laws::inverse::matrix_times_inverse;
use crate::laws::orthogonality::orth_state_shape;
use crate::laws::products::{row_times_associates, unit_row_times};
use crate::laws::residuals::component_loading;
use crate::laws::stages::coefficients_multiply_out;
use crate::laws::training::{
    centered_shape, component_shape, inverse_shape, orth_state_prefix, pred_state_prefix,
    pred_state_shape, transposed_twice,
};
use crate::matrix::{
    has_width, row_times, spec_column, spec_dot_mtv, spec_dot_mv, spec_product, transposed,
};
use crate::model::{
    centered, fitted, orth_fit, orth_state, orthogonal_part, pred_fit, pred_state, solvable,
    spec_component, ModelView,
};
use crate::scalar::{ExactScalar, Scalar};
use crate::solve::{identity, loadings_by_weights, nonsingular, spec_inverse, unit};
use crate::vector::{divided, normalized, spec_dot, spec_total};
use vstd::prelude::*;

verus! {

/// The fields of a model of `n` samples, `p` variables and `m` responses have the right
/// shapes for `n_pred` predictive and `n_orth` orthogonal components.
pub open spec fn has_shape<S>(
    model: ModelView<S>,
    n: nat,
    p: nat,
    m: nat,
    n_pred: nat,
    n_orth: nat,
) -> bool {
    &&& model.x_mean.len() == p
    &&& model.y_mean.len() == m
    &&& model.weights.len() == p
    &&& has_width(model.weights, n_pred)
    &&& model.loadings_x.len() == p
    &&& has_width(model.loadings_x, n_pred)
    &&& model.loadings_y.len() == m
    &&& has_width(model.loadings_y, n_pred)
    &&& model.weights_orth.len() == p
    &&& has_width(model.weights_orth, n_orth)
    &&& model.loadings_orth.len() == p
    &&& has_width(model.loadings_orth, n_orth)
    &&& model.scores_orth.len() == n
    &&& has_width(model.scores_orth, n_orth)
    &&& model.coefficients.len() == p
    &&& has_width(model.coefficients, m)
}

/// The part of the loading of the score `X w` that is orthogonal to `w`, normalized.
pub open spec fn orthogonal_weight<S: Scalar>(x: Seq<Seq<S>>, w: Seq<S>, p: nat) -> Seq<S> {
    let t = spec_dot_mv(x, w);
    let l = divided(spec_dot_mtv(x, t, p), spec_dot(t, t));
    let share = spec_dot(w, l).spec_div(spec_dot(w, w));
    normalized(Seq::new(p, |j: int| l[j].spec_sub(w[j].spec_mul(share))))
}

/// Orthogonal component `a` of a model takes the data from `x` to `rest`: its score is
/// `X w_orth`, its loading `X^T t_orth / (t_orth . t_orth)`, and what is left has lost the
/// product of both.
pub open spec fn removes_orthogonal<S: Scalar>(
    model: ModelView<S>,
    w: Seq<S>,
    p: nat,
    a: int,
    x: Seq<Seq<S>>,
    rest: Seq<Seq<S>>,
) -> bool {
    let t = spec_column(model.scores_orth, a);
    &&& spec_column(model.weights_orth, a) == orthogonal_weight(x, w, p)
    &&& forall|i: int|
        0 <= i < x.len() ==> #[trigger] t[i] == spec_dot(x[i], spec_column(model.weights_orth, a))
    &&& forall|j: int|
        0 <= j < p ==> #[trigger] model.loadings_orth[j][a] == spec_dot(
            spec_column(x, j),
            t,
        ).spec_div(spec_dot(t, t))
    &&& forall|i: int, j: int|
        0 <= i < x.len() && 0 <= j < p ==> #[trigger] rest[i][j] == x[i][j].spec_sub(
            model.scores_orth[i][a].spec_mul(model.loadings_orth[j][a]),
        )
}

/// Predictive component `a` of a model takes the data from `x` to `x_rest` and the responses
/// from `y` to `y_rest`: its weight vector is that of the component of both, its loadings
/// are `X^T t / (t . t)` and `Y^T t / (t . t)` for the score `t = X w`, and what is left has
/// lost the products of score and loadings.
pub open spec fn extracts_predictive<S: Scalar>(
    model: ModelView<S>,
    p: nat,
    m: nat,
    a: int,
    x: Seq<Seq<S>>,
    y: Seq<Seq<S>>,
    x_rest: Seq<Seq<S>>,
    y_rest: Seq<Seq<S>>,
) -> bool {
    let w = spec_column(model.weights, a);
    let t = Seq::new(x.len(), |i: int| spec_dot(x[i], w));
    &&& w == spec_component(x, y, p, m).0
    &&& forall|j: int|
        0 <= j < p ==> #[trigger] model.loadings_x[j][a] == spec_dot(
            spec_column(x, j),
            t,
        ).spec_div(spec_dot(t, t))
    &&& forall|j: int|
        0 <= j < m ==> #[trigger] model.loadings_y[j][a] == spec_dot(
            spec_column(y, j),
            t,
        ).spec_div(spec_dot(t, t))
    &&& forall|i: int, j: int|
        0 <= i < x.len() && 0 <= j < p ==> #[trigger] x_rest[i][j] == x[i][j].spec_sub(
            t[i].spec_mul(model.loadings_x[j][a]),
        )
    &&& forall|i: int, j: int|
        0 <= i < y.len() && 0 <= j < m ==> #[trigger] y_rest[i][j] == y[i][j].spec_sub(
            t[i].spec_mul(model.loadings_y[j][a]),
        )
}

/// A matrix of `n` rows and `cols` columns.
pub open spec fn is_matrix<S>(a: Seq<Seq<S>>, n: nat, cols: nat) -> bool {
    a.len() == n && has_width(a, cols)
}

/// The data that a fit goes through: what each component leaves of the data and of the
/// responses, from the centered ones on.
pub struct Course<S> {
    /// What the first orthogonal components leave of the data.
    pub filtered: Seq<Seq<Seq<S>>>,
    /// What the first predictive components leave of the filtered data.
    pub x: Seq<Seq<Seq<S>>>,
    /// What the first predictive components leave of the responses.
    pub y: Seq<Seq<Seq<S>>>,
}

/// The fields of the model that a fit gives.  The means are those of the columns.  From the
/// centered data the orthogonal components are removed one after the other, for the weight
/// vector of the first component; from what they leave the predictive components are
/// extracted one after the other.  Weights, loadings and scores of each are in the model.
pub proof fn model_holds_its_components<S: Scalar>(
    z: Seq<Seq<S>>,
    y: Seq<Seq<S>>,
    p: nat,
    m: nat,
    n_pred: nat,
    n_orth: nat,
) -> (course: Course<S>)
    requires
        has_width(z, p),
        has_width(y, m),
        z.len() == y.len(),
        0 < z.len() <= u64::MAX,
    ensures
        ({
            let model = fitted(z, y, p, m, n_pred, n_orth);
            let count = S::spec_from_u64(z.len() as u64);
            let w = spec_component(course.filtered[0], course.y[0], p, m).0;
            &&& has_shape(model, z.len(), p, m, n_pred, n_orth)
            &&& forall|j: int|
                0 <= j < p ==> #[trigger] model.x_mean[j] == spec_total(
                    spec_column(z, j),
                ).spec_div(count)
            &&& forall|j: int|
                0 <= j < m ==> #[trigger] model.y_mean[j] == spec_total(
                    spec_column(y, j),
                ).spec_div(count)
            &&& course.filtered.len() == n_orth + 1
            &&& course.x.len() == n_pred + 1
            &&& course.y.len() == n_pred + 1
            &&& forall|a: int|
                0 <= a <= n_orth ==> is_matrix(#[trigger] course.filtered[a], z.len(), p)
            &&& forall|a: int| 0 <= a <= n_pred ==> is_matrix(#[trigger] course.x[a], z.len(), p)
            &&& forall|a: int| 0 <= a <= n_pred ==> is_matrix(#[trigger] course.y[a], z.len(), m)
            &&& forall|i: int, j: int|
                0 <= i < z.len() && 0 <= j < p ==> #[trigger] course.filtered[0][i][j]
                    == z[i][j].spec_sub(model.x_mean[j])
            &&& forall|i: int, j: int|
                0 <= i < y.len() && 0 <= j < m ==> #[trigger] course.y[0][i][j]
                    == y[i][j].spec_sub(model.y_mean[j])
            &&& course.x[0] == course.filtered[n_orth as int]
            &&& forall|a: int|
                0 <= a < n_orth ==> removes_orthogonal(
                    model,
                    w,
                    p,
                    a,
                    #[trigger] course.filtered[a],
                    course.filtered[a + 1],
                )
            &&& forall|a: int|
                0 <= a < n_pred ==> extracts_predictive(
                    model,
                    p,
                    m,
                    a,
                    #[trigger] course.x[a],
                    course.y[a],
                    course.x[a + 1],
                    course.y[a + 1],
                )
        }),
{
    let n = z.len();
    let model = fitted(z, y, p, m, n_pred, n_orth);
    let (xc, yc) = (centered(z, p), centered(y, m));
    let w = spec_component(xc, yc, p, m).0;
    let o = orth_fit(z, y, p, m, n_orth);
    let s = pred_fit(z, y, p, m, n_pred, n_orth);
    centered_shape(z, p);
    centered_shape(y, m);
    component_shape(xc, yc, p, m);
    orth_state_shape(xc, w, p, n_orth);
    pred_state_shape(o.x, yc, p, m, n_pred);
    let course = Course {
        filtered: Seq::new(n_orth + 1, |a: int| orth_state(xc, w, p, a as nat).x),
        x: Seq::new(n_pred + 1, |a: int| pred_state(o.x, yc, p, m, a as nat).x),
        y: Seq::new(n_pred + 1, |a: int| pred_state(o.x, yc, p, m, a as nat).y),
    };
    assert(has_width(o.weights, p) && has_width(o.loadings, p) && has_width(o.scores, n));
    transposed_twice(o.weights, p);
    transposed_twice(o.loadings, p);
    transposed_twice(o.scores, n);
    transposed_twice(s.weights, p);
    transposed_twice(s.loadings_x, p);
    transposed_twice(s.loadings_y, m);
    assert(course.filtered[0] == xc);
    assert(course.y[0] == yc);
    assert forall|i: int, j: int| 0 <= i < n && 0 <= j < p implies #[trigger] xc[i][j]
        == z[i][j].spec_sub(model.x_mean[j]) by {
        assert(z[i].len() == p);
    }
    assert forall|i: int, j: int| 0 <= i < n && 0 <= j < m implies #[trigger] yc[i][j]
        == y[i][j].spec_sub(model.y_mean[j]) by {
        assert(y[i].len() == m);
    }
    assert forall|a: int| 0 <= a <= n_orth implies is_matrix(
        #[trigger] course.filtered[a],
        n,
        p,
    ) by {
        orth_state_shape(xc, w, p, a as nat);
    }
    assert forall|a: int| 0 <= a <= n_pred implies is_matrix(#[trigger] course.x[a], n, p) by {
        pred_state_shape(o.x, yc, p, m, a as nat);
    }
    assert forall|a: int| 0 <= a <= n_pred implies is_matrix(#[trigger] course.y[a], n, m) by {
        pred_state_shape(o.x, yc, p, m, a as nat);
    }
    assert forall|a: int| 0 <= a < n_orth implies removes_orthogonal(
        model,
        w,
        p,
        a,
        #[trigger] course.filtered[a],
        course.filtered[a + 1],
    ) by {
        orthogonal_stage(z, y, p, m, n_pred, n_orth, a);
    }
    assert forall|a: int| 0 <= a < n_pred implies extracts_predictive(
        model,
        p,
        m,
        a,
        #[trigger] course.x[a],
        course.y[a],
        course.x[a + 1],
        course.y[a + 1],
    ) by {
        predictive_stage(z, y, p, m, n_pred, n_orth, a);
    }
    course
}

proof fn orthogonal_stage<S: Scalar>(
    z: Seq<Seq<S>>,
    y: Seq<Seq<S>>,
    p: nat,
    m: nat,
    n_pred: nat,
    n_orth: nat,
    a: int,
)
    requires
        has_width(z, p),
        has_width(y, m),
        z.len() == y.len(),
        0 <= a < n_orth,
    ensures
        ({
            let xc = centered(z, p);
            let w = spec_component(xc, centered(y, m), p, m).0;
            removes_orthogonal(
                fitted(z, y, p, m, n_pred, n_orth),
                w,
                p,
                a,
                orth_state(xc, w, p, a as nat).x,
                orth_state(xc, w, p, (a + 1) as nat).x,
            )
        }),
{
    let n = z.len();
    let model = fitted(z, y, p, m, n_pred, n_orth);
    let xc = centered(z, p);
    let w = spec_component(xc, centered(y, m), p, m).0;
    let o = orth_state(xc, w, p, n_orth);
    let (before, after) = (orth_state(xc, w, p, a as nat), orth_state(xc, w, p, (a + 1) as nat));
    centered_shape(z, p);
    component_shape(xc, centered(y, m), p, m);
    orth_state_shape(xc, w, p, n_orth);
    orth_state_shape(xc, w, p, a as nat);
    orth_state_shape(xc, w, p, (a + 1) as nat);
    orth_state_prefix(xc, w, p, (a + 1) as nat, n_orth);
    assert(has_width(o.weights, p) && has_width(o.loadings, p) && has_width(o.scores, n));
    transposed_twice(o.weights, p);
    transposed_twice(o.loadings, p);
    transposed_twice(o.scores, n);
    assert(o.weights[a] == after.weights[a]);
    assert(o.loadings[a] == after.loadings[a]);
    assert(o.scores[a] == after.scores[a]);
    let (wo, lo, to) = (after.weights[a], after.loadings[a], after.scores[a]);
    assert(spec_column(model.weights_orth, a) == wo);
    assert(spec_column(model.loadings_orth, a) == lo);
    assert(spec_column(model.scores_orth, a) == to);
    let x = before.x;
    let t = spec_dot_mv(x, w);
    let l = divided(spec_dot_mtv(x, t, p), spec_dot(t, t));
    let share = spec_dot(w, l).spec_div(spec_dot(w, w));
    assert(orthogonal_part(l, w) =~= Seq::new(
        p,
        |j: int| l[j].spec_sub(w[j].spec_mul(share)),
    ));
    assert(wo == orthogonal_weight(x, w, p));
    assert forall|j: int| 0 <= j < p implies #[trigger] model.loadings_orth[j][a] == spec_dot(
        spec_column(x, j),
        to,
    ).spec_div(spec_dot(to, to)) by {
        assert(spec_column(model.loadings_orth, a)[j] == lo[j]);
    }
    assert forall|i: int, j: int| 0 <= i < x.len() && 0 <= j < p implies #[trigger] after.x[i][j]
        == x[i][j].spec_sub(
        model.scores_orth[i][a].spec_mul(model.loadings_orth[j][a]),
    ) by {
        assert(x[i].len() == p);
        assert(spec_column(model.loadings_orth, a)[j] == lo[j]);
        assert(spec_column(model.scores_orth, a)[i] == to[i]);
    }
}

proof fn predictive_stage<S: Scalar>(
    z: Seq<Seq<S>>,
    y: Seq<Seq<S>>,
    p: nat,
    m: nat,
    n_pred: nat,
    n_orth: nat,
    a: int,
)
    requires
        has_width(z, p),
        has_width(y, m),
        z.len() == y.len(),
        0 <= a < n_pred,
    ensures
        ({
            let start = orth_fit(z, y, p, m, n_orth).x;
            let yc = centered(y, m);
            let before = pred_state(start, yc, p, m, a as nat);
            let after = pred_state(start, yc, p, m, (a + 1) as nat);
            extracts_predictive(
                fitted(z, y, p, m, n_pred, n_orth),
                p,
                m,
                a,
                before.x,
                before.y,
                after.x,
                after.y,
            )
        }),
{
    let model = fitted(z, y, p, m, n_pred, n_orth);
    let (xc, yc) = (centered(z, p), centered(y, m));
    let w0 = spec_component(xc, yc, p, m).0;
    let start = orth_fit(z, y, p, m, n_orth).x;
    centered_shape(z, p);
    centered_shape(y, m);
    component_shape(xc, yc, p, m);
    orth_state_shape(xc, w0, p, n_orth);
    let s = pred_state(start, yc, p, m, n_pred);
    let before = pred_state(start, yc, p, m, a as nat);
    let after = pred_state(start, yc, p, m, (a + 1) as nat);
    pred_state_shape(start, yc, p, m, n_pred);
    pred_state_shape(start, yc, p, m, a as nat);
    pred_state_shape(start, yc, p, m, (a + 1) as nat);
    pred_state_prefix(start, yc, p, m, (a + 1) as nat, n_pred);
    transposed_twice(s.weights, p);
    transposed_twice(s.loadings_x, p);
    transposed_twice(s.loadings_y, m);
    let (x, y0) = (before.x, before.y);
    assert(s.weights[a] == after.weights[a]);
    assert(s.loadings_x[a] == after.loadings_x[a]);
    assert(s.loadings_y[a] == after.loadings_y[a]);
    let w = after.weights[a];
    assert(spec_column(model.weights, a) == w);
    let t = Seq::new(x.len(), |i: int| spec_dot(x[i], w));
    assert(t =~= spec_dot_mv(x, w));
    component_loading(x, y0, p, m);
    assert forall|j: int| 0 <= j < p implies #[trigger] model.loadings_x[j][a] == spec_dot(
        spec_column(x, j),
        t,
    ).spec_div(spec_dot(t, t)) by {
        assert(spec_column(model.loadings_x, a)[j] == after.loadings_x[a][j]);
    }
    assert forall|j: int| 0 <= j < m implies #[trigger] model.loadings_y[j][a] == spec_dot(
        spec_column(y0, j),
        t,
    ).spec_div(spec_dot(t, t)) by {
        assert(spec_column(model.loadings_y, a)[j] == after.loadings_y[a][j]);
    }
    assert forall|i: int, j: int| 0 <= i < x.len() && 0 <= j < p implies #[trigger] after.x[i][j]
        == x[i][j].spec_sub(t[i].spec_mul(model.loadings_x[j][a])) by {
        assert(x[i].len() == p);
        assert(spec_column(model.loadings_x, a)[j] == after.loadings_x[a][j]);
    }
    assert forall|i: int, j: int| 0 <= i < y0.len() && 0 <= j < m implies #[trigger] after.y[i][j]
        == y0[i][j].spec_sub(t[i].spec_mul(model.loadings_y[j][a])) by {
        assert(y0[i].len() == m);
        assert(spec_column(model.loadings_y, a)[j] == after.loadings_y[a][j]);
    }
}

/// The shapes of the fields of the model that a fit gives.
proof fn model_shape<S: Scalar>(
    z: Seq<Seq<S>>,
    y: Seq<Seq<S>>,
    p: nat,
    m: nat,
    n_pred: nat,
    n_orth: nat,
)
    requires
        has_width(z, p),
        has_width(y, m),
        z.len() == y.len(),
    ensures
        has_shape(fitted(z, y, p, m, n_pred, n_orth), z.len(), p, m, n_pred, n_orth),
{
    let (xc, yc) = (centered(z, p), centered(y, m));
    let w = spec_component(xc, yc, p, m).0;
    centered_shape(z, p);
    centered_shape(y, m);
    component_shape(xc, yc, p, m);
    orth_state_shape(xc, w, p, n_orth);
    pred_state_shape(orth_fit(z, y, p, m, n_orth).x, yc, p, m, n_pred);
}

/// The coefficients of a model come from its own weights and loadings: they are
/// `W (P^T W)^{-1} C^T` over the fields of the model, and there is a model where `P^T W`
/// can be inverted.  `P^T W` and `W (P^T W)^{-1}` are returned.
pub proof fn coefficients_come_from_the_fields<S: Scalar>(
    z: Seq<Seq<S>>,
    y: Seq<Seq<S>>,
    p: nat,
    m: nat,
    n_pred: nat,
    n_orth: nat,
) -> (r: (Seq<Seq<S>>, Seq<Seq<S>>))
    requires
        has_width(z, p),
        has_width(y, m),
        z.len() == y.len(),
    ensures
        ({
            let (ptw, left) = r;
            let model = fitted(z, y, p, m, n_pred, n_orth);
            &&& solvable(z, y, p, m, n_pred, n_orth) <==> nonsingular(ptw)
            &&& is_matrix(ptw, n_pred, n_pred)
            &&& forall|a: int, b: int|
                0 <= a < n_pred && 0 <= b < n_pred ==> #[trigger] ptw[a][b] == spec_dot(
                    spec_column(model.loadings_x, a),
                    spec_column(model.weights, b),
                )
            &&& is_matrix(left, p, n_pred)
            &&& forall|i: int, b: int|
                0 <= i < p && 0 <= b < n_pred ==> #[trigger] left[i][b] == spec_dot(
                    model.weights[i],
                    spec_column(spec_inverse(ptw), b),
                )
            &&& is_matrix(model.coefficients, p, m)
            &&& forall|i: int, j: int|
                0 <= i < p && 0 <= j < m ==> #[trigger] model.coefficients[i][j] == spec_dot(
                    left[i],
                    model.loadings_y[j],
                )
        }),
{
    let model = fitted(z, y, p, m, n_pred, n_orth);
    model_shape(z, y, p, m, n_pred, n_orth);
    coefficients_multiply_out(model.weights, model.loadings_x, model.loadings_y, n_pred)
}

/// The coefficients solve the regression of the model: they are `W R` for an `R` with
/// `(P^T W) R == C^T`, where `W`, `P` and `C` are the fields of the model.
pub proof fn coefficients_solve_the_regression<S: ExactScalar>(
    z: Seq<Seq<S>>,
    y: Seq<Seq<S>>,
    p: nat,
    m: nat,
    n_pred: nat,
    n_orth: nat,
) -> (r: Seq<Seq<S>>)
    requires
        has_width(z, p),
        has_width(y, m),
        z.len() == y.len(),
        solvable(z, y, p, m, n_pred, n_orth),
    ensures
        ({
            let model = fitted(z, y, p, m, n_pred, n_orth);
            let ptw = spec_product(transposed(model.loadings_x, n_pred), model.weights, n_pred);
            &&& is_matrix(r, n_pred, m)
            &&& model.coefficients == spec_product(model.weights, r, m)
            &&& spec_product(ptw, r, m) == transposed(model.loadings_y, n_pred)
        }),
{
    let model = fitted(z, y, p, m, n_pred, n_orth);
    model_shape(z, y, p, m, n_pred, n_orth);
    let k = n_pred;
    let ptw = loadings_by_weights(model.loadings_x, model.weights, k);
    let inv = spec_inverse(ptw);
    let ct = transposed(model.loadings_y, k);
    let r = spec_product(inv, ct, m);
    assert(is_matrix(ptw, k, k));
    inverse_shape(ptw);
    matrix_times_inverse(ptw);
    let (b, wr) = (model.coefficients, spec_product(model.weights, r, m));
    assert forall|i: int| 0 <= i < p implies b[i] == wr[i] by {
        assert(model.weights[i].len() == k);
        row_times_associates(model.weights[i], inv, ct, k, m);
    }
    assert(b =~= wr);
    let back = spec_product(ptw, r, m);
    assert forall|a: int| 0 <= a < k implies back[a] == ct[a] by {
        assert(ptw[a].len() == k);
        row_times_associates(ptw[a], inv, ct, k, m);
        assert(spec_product(ptw, inv, k)[a] == identity::<S>(k)[a]);
        assert(row_times(ptw[a], inv, k) == unit::<S>(a, k));
        assert(has_width(ct, m));
        unit_row_times(ct, a, m);
    }
    assert(back =~= ct);
    r
}

} // verus!
