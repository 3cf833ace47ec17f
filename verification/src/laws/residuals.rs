//! What a fit leaves of the responses.
use crate::laws::algebra::{
    add_cancel, dot_commutes, dot_linear_right, dot_zeros, mul_zero, neg_mul, one_mul, sub_add,
    sub_mul, total_linear, zero_add,
};
use crate::laws::implicit::dot_ones;
use crate::laws::orthogonality::{dot_multiple, orth_state_shape};
use crate::laws::peeling::{
    nondegenerate, nondegenerate_is_regular, orthogonal_extraction_peels, peel_score,
    predictive_extraction_peels, scores_are_orthogonal, scores_avoid,
};
use crate::laws::preprocessing::{centered_columns_sum_to_zero, total_of_ones};
use crate::laws::products::adjoint;
use crate::laws::training::{
    centered_shape, component_shape, pred_state_prefix, pred_state_shape, training_filter,
    training_prediction,
};
use crate::matrix::{has_width, spec_column, spec_dot_mtv, spec_dot_mv};
use crate::model::{
    centered, fitted, orth_fit, pred_fit, pred_state, predicted, solvable, spec_component,
};
use crate::nipals::loading;
use crate::preprocess::column_means;
use crate::scalar::{ExactScalar, Scalar};
use crate::vector::{dot_prefix, spec_dot, spec_total, spec_zeros, total_prefix};
use vstd::prelude::*;

verus! {

/// The Y-loading of a component is the loading of its score on the responses.
pub proof fn component_loading<S: Scalar>(x: Seq<Seq<S>>, y: Seq<Seq<S>>, p: nat, m: nat)
    ensures
        ({
            let (w, c) = spec_component(x, y, p, m);
            c == loading(y, spec_dot_mv(x, w), m)
        }),
{
    let (w, c) = spec_component(x, y, p, m);
    assert(c =~= loading(y, spec_dot_mv(x, w), m));
}

/// How component `k` changes what is left of response `j`: `Y_k == Y_{k+1} + c_j t`, and
/// what is left afterwards is orthogonal to the score `t`.
proof fn component_splits<S: ExactScalar>(
    x: Seq<Seq<S>>,
    y: Seq<Seq<S>>,
    p: nat,
    m: nat,
    k: nat,
    j: int,
)
    requires
        has_width(x, p),
        has_width(y, m),
        x.len() == y.len(),
        0 <= j < m,
        ({
            let t = pred_state(x, y, p, m, k + 1).scores[k as int];
            spec_dot(t, t) != S::spec_zero()
        }),
    ensures
        ({
            let s = pred_state(x, y, p, m, k + 1);
            let (r, e) = (spec_column(pred_state(x, y, p, m, k).y, j), spec_column(s.y, j));
            let (t, c) = (s.scores[k as int], s.loadings_y[k as int][j]);
            &&& r.len() == x.len()
            &&& e.len() == x.len()
            &&& t.len() == x.len()
            &&& forall|i: int|
                0 <= i < x.len() ==> #[trigger] e[i] == r[i].spec_add(
                    c.spec_neg().spec_mul(t[i]),
                )
            &&& forall|i: int| 0 <= i < x.len() ==> #[trigger] r[i] == e[i].spec_add(
                c.spec_mul(t[i]),
            )
            &&& spec_dot(t, e) == S::spec_zero()
            &&& spec_dot(t, r) == c.spec_mul(spec_dot(t, t))
        }),
{
    let before = pred_state(x, y, p, m, k);
    let after = pred_state(x, y, p, m, k + 1);
    let n = x.len();
    pred_state_shape(x, y, p, m, k);
    pred_state_shape(x, y, p, m, k + 1);
    component_loading(before.x, before.y, p, m);
    let (r, e) = (spec_column(before.y, j), spec_column(after.y, j));
    let t = after.scores[k as int];
    let c = after.loadings_y[k as int][j];
    assert(t.len() == n);
    assert(c == spec_dot(r, t).spec_div(spec_dot(t, t)));
    assert forall|i: int| 0 <= i < n implies #[trigger] e[i] == r[i].spec_add(
        c.spec_neg().spec_mul(t[i]),
    ) by {
        assert(before.y[i].len() == m);
        S::mul_commutes(t[i], c);
        sub_mul(r[i], c, t[i]);
    }
    assert forall|i: int| 0 <= i < n implies #[trigger] r[i] == e[i].spec_add(
        c.spec_mul(t[i]),
    ) by {
        let b = c.spec_mul(t[i]);
        assert(e[i] == r[i].spec_add(c.spec_neg().spec_mul(t[i])));
        neg_mul(c, t[i]);
        S::sub_is_add_neg(r[i], b);
        sub_add(r[i], b);
    }
    dot_linear_right(t, e, r, c.spec_neg(), t, n as int);
    S::div_mul(spec_dot(r, t), spec_dot(t, t));
    neg_mul(c, spec_dot(t, t));
    dot_commutes(r, t, n as int);
    S::add_neg(spec_dot(r, t));
}

/// What the extraction leaves of the responses is orthogonal to the scores: the scores
/// explain of each response its projection on them.
pub proof fn residuals_are_orthogonal_to_scores<S: ExactScalar>(
    x: Seq<Seq<S>>,
    y: Seq<Seq<S>>,
    p: nat,
    m: nat,
    k: nat,
    j: int,
)
    requires
        has_width(x, p),
        has_width(y, m),
        x.len() == y.len(),
        0 <= j < m,
        nondegenerate(pred_state(x, y, p, m, k).scores),
    ensures
        forall|a: int|
            0 <= a < k ==> spec_dot(
                #[trigger] pred_state(x, y, p, m, k).scores[a],
                spec_column(pred_state(x, y, p, m, k).y, j),
            ) == S::spec_zero(),
    decreases k,
{
    if k > 0 {
        let h = (k - 1) as nat;
        let before = pred_state(x, y, p, m, h);
        let after = pred_state(x, y, p, m, k);
        pred_state_shape(x, y, p, m, h);
        pred_state_shape(x, y, p, m, k);
        assert forall|a: int| 0 <= a < h implies spec_dot(
            #[trigger] before.scores[a],
            before.scores[a],
        ) != S::spec_zero() by {
            assert(after.scores[a] == before.scores[a]);
        }
        residuals_are_orthogonal_to_scores(x, y, p, m, h, j);
        predictive_extraction_peels(x, y, p, m, k);
        nondegenerate_is_regular(x, after.weights, p, k);
        scores_are_orthogonal(x, after.weights, p, k);
        let (r, e) = (spec_column(before.y, j), spec_column(after.y, j));
        let t = after.scores[h as int];
        let c = after.loadings_y[h as int][j];
        assert(spec_dot(after.scores[h as int], after.scores[h as int]) != S::spec_zero());
        component_splits(x, y, p, m, h, j);
        assert forall|a: int| 0 <= a < k implies spec_dot(#[trigger] after.scores[a], e)
            == S::spec_zero() by {
            if a < h {
                let u = after.scores[a];
                assert(u == before.scores[a]);
                assert(u == peel_score(x, after.weights, p, a as nat));
                assert(t == peel_score(x, after.weights, p, h));
                assert(u.len() == x.len());
                dot_linear_right(u, e, r, c.spec_neg(), t, x.len() as int);
                mul_zero(c.spec_neg());
                S::add_zero(S::spec_zero());
            }
        }
    }
}

/// A further component takes from the sum of squares of each response what it explains:
/// `|Y_k|^2 == |Y_{k+1}|^2 + (t . t) c_j^2`.
pub proof fn component_explains<S: ExactScalar>(
    x: Seq<Seq<S>>,
    y: Seq<Seq<S>>,
    p: nat,
    m: nat,
    k: nat,
    j: int,
)
    requires
        has_width(x, p),
        has_width(y, m),
        x.len() == y.len(),
        0 <= j < m,
        ({
            let t = pred_state(x, y, p, m, k + 1).scores[k as int];
            spec_dot(t, t) != S::spec_zero()
        }),
    ensures
        ({
            let s = pred_state(x, y, p, m, k + 1);
            let (r, e) = (spec_column(pred_state(x, y, p, m, k).y, j), spec_column(s.y, j));
            let (t, c) = (s.scores[k as int], s.loadings_y[k as int][j]);
            spec_dot(r, r) == spec_dot(e, e).spec_add(spec_dot(t, t).spec_mul(c.spec_mul(c)))
        }),
{
    let s = pred_state(x, y, p, m, k + 1);
    let n = x.len();
    let (r, e) = (spec_column(pred_state(x, y, p, m, k).y, j), spec_column(s.y, j));
    let (t, c) = (s.scores[k as int], s.loadings_y[k as int][j]);
    let square = spec_dot(t, t);
    pred_state_shape(x, y, p, m, k);
    pred_state_shape(x, y, p, m, k + 1);
    component_splits(x, y, p, m, k, j);
    // r . r == r . e + c (r . t)
    dot_linear_right(r, r, e, c, t, n as int);
    dot_commutes(r, t, n as int);
    // r . e == e . e + c (e . t), and e . t is zero
    dot_commutes(r, e, n as int);
    dot_linear_right(e, r, e, c, t, n as int);
    dot_commutes(e, t, n as int);
    mul_zero(c);
    S::add_zero(spec_dot(e, e));
    // c (c (t . t)) == (t . t) (c c)
    S::mul_associates(c, c, square);
    S::mul_commutes(c.spec_mul(c), square);
}

/// What a model leaves unexplained of response `j` of its training data.
pub open spec fn training_residual<S: Scalar>(
    z: Seq<Seq<S>>,
    y: Seq<Seq<S>>,
    p: nat,
    m: nat,
    n_pred: nat,
    n_orth: nat,
    j: int,
) -> Seq<S> {
    let y_hat = predicted(fitted(z, y, p, m, n_pred, n_orth), n_orth, m, z);
    Seq::new(z.len(), |i: int| y[i][j].spec_sub(y_hat[i][j]))
}

/// A model leaves unexplained of its training data what the extraction leaves of the
/// responses.
pub proof fn training_residual_is_rest<S: ExactScalar>(
    z: Seq<Seq<S>>,
    y: Seq<Seq<S>>,
    p: nat,
    m: nat,
    n_pred: nat,
    n_orth: nat,
    j: int,
)
    requires
        has_width(z, p),
        has_width(y, m),
        z.len() == y.len(),
        0 <= j < m,
        solvable(z, y, p, m, n_pred, n_orth),
        nondegenerate(pred_fit(z, y, p, m, n_pred, n_orth).scores),
    ensures
        training_residual(z, y, p, m, n_pred, n_orth, j) == spec_column(
            pred_fit(z, y, p, m, n_pred, n_orth).y,
            j,
        ),
{
    let residual = training_residual(z, y, p, m, n_pred, n_orth, j);
    let s = pred_fit(z, y, p, m, n_pred, n_orth);
    let y_hat = predicted(fitted(z, y, p, m, n_pred, n_orth), n_orth, m, z);
    fit_shapes(z, y, p, m, n_pred, n_orth);
    assert forall|i: int| 0 <= i < z.len() implies residual[i] == spec_column(s.y, j)[i] by {
        training_prediction(z, y, p, m, n_pred, n_orth, i, j);
        let (f, rest) = (y_hat[i][j], s.y[i][j]);
        sub_add(y[i][j], f);
        S::add_commutes(f, rest);
        add_cancel(residual[i], rest, f);
    }
    assert(residual =~= spec_column(s.y, j));
}

/// The shapes of a fit.
proof fn fit_shapes<S: Scalar>(
    z: Seq<Seq<S>>,
    y: Seq<Seq<S>>,
    p: nat,
    m: nat,
    n_pred: nat,
    n_orth: nat,
)
    requires
        has_width(z, p),
        has_width(y, m),
        z.len() == y.len(),
    ensures
        has_width(centered(z, p), p),
        centered(z, p).len() == z.len(),
        has_width(centered(y, m), m),
        centered(y, m).len() == y.len(),
        spec_component(centered(z, p), centered(y, m), p, m).0.len() == p,
        ({
            let o = orth_fit(z, y, p, m, n_orth);
            &&& o.x.len() == z.len()
            &&& has_width(o.x, p)
            &&& has_width(o.weights, p)
            &&& o.weights.len() == n_orth
        }),
        pred_fit(z, y, p, m, n_pred, n_orth).y.len() == z.len(),
        has_width(pred_fit(z, y, p, m, n_pred, n_orth).y, m),
{
    let (xc, yc) = (centered(z, p), centered(y, m));
    centered_shape(z, p);
    centered_shape(y, m);
    component_shape(xc, yc, p, m);
    orth_state_shape(xc, spec_component(xc, yc, p, m).0, p, n_orth);
    pred_state_shape(orth_fit(z, y, p, m, n_orth).x, yc, p, m, n_pred);
}

/// What a further predictive component explains of the training data: of each response, the
/// sum of squares that is left unexplained changes by `(t . t) c_j^2`, where `t` is its score
/// and `c_j` its Y-loading.
pub proof fn further_component_improves<S: ExactScalar>(
    z: Seq<Seq<S>>,
    y: Seq<Seq<S>>,
    p: nat,
    m: nat,
    n_pred: nat,
    n_orth: nat,
    j: int,
)
    requires
        has_width(z, p),
        has_width(y, m),
        z.len() == y.len(),
        0 <= j < m,
        solvable(z, y, p, m, n_pred, n_orth),
        solvable(z, y, p, m, n_pred + 1, n_orth),
        nondegenerate(pred_fit(z, y, p, m, n_pred + 1, n_orth).scores),
    ensures
        ({
            let before = training_residual(z, y, p, m, n_pred, n_orth, j);
            let after = training_residual(z, y, p, m, n_pred + 1, n_orth, j);
            let s = pred_fit(z, y, p, m, n_pred + 1, n_orth);
            let (t, c) = (s.scores[n_pred as int], s.loadings_y[n_pred as int][j]);
            spec_dot(before, before) == spec_dot(after, after).spec_add(
                spec_dot(t, t).spec_mul(c.spec_mul(c)),
            )
        }),
{
    let yc = centered(y, m);
    let xf = orth_fit(z, y, p, m, n_orth).x;
    let (few, more) = (
        pred_fit(z, y, p, m, n_pred, n_orth),
        pred_fit(z, y, p, m, n_pred + 1, n_orth),
    );
    fit_shapes(z, y, p, m, n_pred, n_orth);
    pred_state_shape(xf, yc, p, m, n_pred);
    pred_state_shape(xf, yc, p, m, n_pred + 1);
    pred_state_prefix(xf, yc, p, m, n_pred, n_pred + 1);
    assert forall|a: int| 0 <= a < n_pred implies spec_dot(
        #[trigger] few.scores[a],
        few.scores[a],
    ) != S::spec_zero() by {
        assert(more.scores[a] == few.scores[a]);
    }
    assert(spec_dot(more.scores[n_pred as int], more.scores[n_pred as int]) != S::spec_zero());
    training_residual_is_rest(z, y, p, m, n_pred, n_orth, j);
    training_residual_is_rest(z, y, p, m, n_pred + 1, n_orth, j);
    component_explains(xf, yc, p, m, n_pred, j);
}

/// Numbers are ordered as squares ask for: what does not exceed is transitive, and adding a
/// square makes no number smaller.
pub open spec fn squares_keep_order<S: Scalar>() -> bool {
    &&& forall|a: S, b: S, c: S|
        !(#[trigger] a.spec_exceeds(b)) && !(#[trigger] b.spec_exceeds(c)) ==> !a.spec_exceeds(c)
    &&& forall|v: S, q: S| !v.spec_exceeds(#[trigger] v.spec_add(q.spec_mul(q)))
}

/// Adding `q` makes no number smaller.
spec fn gains<S: Scalar>(q: S) -> bool {
    forall|v: S| !v.spec_exceeds(#[trigger] v.spec_add(q))
}

proof fn sum_gains<S: ExactScalar>(a: S, b: S)
    requires
        squares_keep_order::<S>(),
        gains(a),
        gains(b),
    ensures
        gains(a.spec_add(b)),
{
    assert forall|v: S| !v.spec_exceeds(#[trigger] v.spec_add(a.spec_add(b))) by {
        let va = v.spec_add(a);
        S::add_associates(v, a, b);
        assert(!v.spec_exceeds(va));
        assert(!va.spec_exceeds(va.spec_add(b)));
    }
}

proof fn nothing_gains<S: ExactScalar>()
    ensures
        gains(S::spec_zero()),
{
    assert forall|v: S| !v.spec_exceeds(#[trigger] v.spec_add(S::spec_zero())) by {
        S::add_zero(v);
        S::exceeds_is_irreflexive(v);
    }
}

proof fn square_length_gains<S: ExactScalar>(u: Seq<S>, k: int)
    requires
        squares_keep_order::<S>(),
    ensures
        gains(dot_prefix(u, u, k)),
    decreases k,
{
    if k <= 0 {
        nothing_gains::<S>();
    } else {
        square_length_gains(u, k - 1);
        sum_gains(dot_prefix(u, u, k - 1), u[k - 1].spec_mul(u[k - 1]));
    }
}

/// What a component explains is a sum of squares.
proof fn explained_gains<S: ExactScalar>(t: Seq<S>, c: S)
    requires
        squares_keep_order::<S>(),
    ensures
        gains(spec_dot(t, t).spec_mul(c.spec_mul(c))),
{
    let u = Seq::new(t.len(), |i: int| c.spec_mul(t[i]));
    let square = spec_dot(t, t);
    dot_multiple(u, u, c, t);
    dot_multiple(t, u, c, t);
    dot_commutes(u, t, t.len() as int);
    S::mul_associates(c, c, square);
    S::mul_commutes(c.spec_mul(c), square);
    square_length_gains(u, u.len() as int);
}

/// A further predictive component never worsens the fit of a response of the training data:
/// the sum of squares that it leaves unexplained does not exceed the one before.
pub proof fn further_component_never_worsens<S: ExactScalar>(
    z: Seq<Seq<S>>,
    y: Seq<Seq<S>>,
    p: nat,
    m: nat,
    n_pred: nat,
    n_orth: nat,
    j: int,
)
    requires
        squares_keep_order::<S>(),
        has_width(z, p),
        has_width(y, m),
        z.len() == y.len(),
        0 <= j < m,
        solvable(z, y, p, m, n_pred, n_orth),
        solvable(z, y, p, m, n_pred + 1, n_orth),
        nondegenerate(pred_fit(z, y, p, m, n_pred + 1, n_orth).scores),
    ensures
        ({
            let before = training_residual(z, y, p, m, n_pred, n_orth, j);
            let after = training_residual(z, y, p, m, n_pred + 1, n_orth, j);
            !spec_dot(after, after).spec_exceeds(spec_dot(before, before))
        }),
{
    let s = pred_fit(z, y, p, m, n_pred + 1, n_orth);
    let (t, c) = (s.scores[n_pred as int], s.loadings_y[n_pred as int][j]);
    further_component_improves(z, y, p, m, n_pred, n_orth, j);
    explained_gains(t, c);
}

/// The sums of squares that a model leaves unexplained of the responses of its training
/// data, one per response.
pub open spec fn unexplained<S: Scalar>(
    z: Seq<Seq<S>>,
    y: Seq<Seq<S>>,
    p: nat,
    m: nat,
    n_pred: nat,
    n_orth: nat,
) -> Seq<S> {
    Seq::new(
        m,
        |j: int|
            {
                let rest = training_residual(z, y, p, m, n_pred, n_orth, j);
                spec_dot(rest, rest)
            },
    )
}

proof fn total_gains<S: ExactScalar>(v: Seq<S>, k: int)
    requires
        squares_keep_order::<S>(),
        k <= v.len(),
        forall|j: int| 0 <= j < v.len() ==> gains(#[trigger] v[j]),
    ensures
        gains(total_prefix(v, k)),
    decreases k,
{
    if k <= 0 {
        nothing_gains::<S>();
    } else {
        total_gains(v, k - 1);
        assert(gains(v[k - 1]));
        sum_gains(total_prefix(v, k - 1), v[k - 1]);
    }
}

/// A further predictive component never worsens the fit of the training data as a whole:
/// the residual sum of squares over all responses does not exceed the one before.
pub proof fn residual_sum_never_grows<S: ExactScalar>(
    z: Seq<Seq<S>>,
    y: Seq<Seq<S>>,
    p: nat,
    m: nat,
    n_pred: nat,
    n_orth: nat,
)
    requires
        squares_keep_order::<S>(),
        has_width(z, p),
        has_width(y, m),
        z.len() == y.len(),
        solvable(z, y, p, m, n_pred, n_orth),
        solvable(z, y, p, m, n_pred + 1, n_orth),
        nondegenerate(pred_fit(z, y, p, m, n_pred + 1, n_orth).scores),
    ensures
        !spec_total(unexplained(z, y, p, m, n_pred + 1, n_orth)).spec_exceeds(
            spec_total(unexplained(z, y, p, m, n_pred, n_orth)),
        ),
{
    let s = pred_fit(z, y, p, m, n_pred + 1, n_orth);
    let (before, after) = (
        unexplained(z, y, p, m, n_pred, n_orth),
        unexplained(z, y, p, m, n_pred + 1, n_orth),
    );
    let t = s.scores[n_pred as int];
    let gain = Seq::new(
        m,
        |j: int|
            spec_dot(t, t).spec_mul(
                s.loadings_y[n_pred as int][j].spec_mul(s.loadings_y[n_pred as int][j]),
            ),
    );
    let one = S::spec_one();
    assert forall|j: int| 0 <= j < m implies gains(#[trigger] gain[j]) by {
        explained_gains(t, s.loadings_y[n_pred as int][j]);
    }
    assert forall|j: int| 0 <= j < m implies #[trigger] before[j] == after[j].spec_add(
        one.spec_mul(gain[j]),
    ) by {
        further_component_improves(z, y, p, m, n_pred, n_orth, j);
        one_mul(gain[j]);
    }
    total_linear(before, after, one, gain, m as int);
    one_mul(spec_total(gain));
    total_gains(gain, m as int);
}

/// Every column of centered and filtered data sums to zero.
proof fn filtered_columns_sum_to_zero<S: ExactScalar>(
    z: Seq<Seq<S>>,
    y: Seq<Seq<S>>,
    p: nat,
    m: nat,
    n_orth: nat,
    ones: Seq<S>,
)
    requires
        has_width(z, p),
        has_width(y, m),
        z.len() == y.len(),
        z.len() <= u64::MAX,
        S::spec_from_u64(z.len() as u64) != S::spec_zero(),
        ones == Seq::new(z.len(), |i: int| S::spec_one()),
    ensures
        spec_dot_mtv(orth_fit(z, y, p, m, n_orth).x, ones, p) == spec_zeros::<S>(p),
{
    let xc = centered(z, p);
    let w = spec_component(xc, centered(y, m), p, m).0;
    let o = orth_fit(z, y, p, m, n_orth);
    fit_shapes(z, y, p, m, 0, n_orth);
    assert forall|j: int| 0 <= j < p implies spec_dot_mtv(xc, ones, p)[j] == S::spec_zero() by {
        let c = spec_column(xc, j);
        dot_commutes(c, ones, z.len() as int);
        dot_ones(ones, c, z.len() as int);
        centered_columns_sum_to_zero(z, p, j);
    }
    assert(spec_dot_mtv(xc, ones, p) =~= spec_zeros::<S>(p));
    orthogonal_extraction_peels(xc, w, p, n_orth);
    scores_avoid(xc, o.weights, p, n_orth, ones);
}

/// The column means of the predictions for the training data are those of the responses.
pub proof fn training_means_are_kept<S: ExactScalar>(
    z: Seq<Seq<S>>,
    y: Seq<Seq<S>>,
    p: nat,
    m: nat,
    n_pred: nat,
    n_orth: nat,
)
    requires
        has_width(z, p),
        has_width(y, m),
        z.len() == y.len(),
        z.len() <= u64::MAX,
        S::spec_from_u64(z.len() as u64) != S::spec_zero(),
    ensures
        ({
            let model = fitted(z, y, p, m, n_pred, n_orth);
            column_means(predicted(model, n_orth, m, z), m) == model.y_mean
        }),
{
    let n = z.len();
    let model = fitted(z, y, p, m, n_pred, n_orth);
    let y_hat = predicted(model, n_orth, m, z);
    let xf = orth_fit(z, y, p, m, n_orth).x;
    let ones = Seq::new(n, |i: int| S::spec_one());
    let count = S::spec_from_u64(n as u64);
    fit_shapes(z, y, p, m, n_pred, n_orth);
    training_filter(z, y, p, m, n_pred, n_orth);
    filtered_columns_sum_to_zero(z, y, p, m, n_orth, ones);
    assert(model.coefficients.len() == p);
    assert forall|j: int| 0 <= j < m implies column_means(y_hat, m)[j] == model.y_mean[j] by {
        let b = spec_column(model.coefficients, j);
        let mean = model.y_mean[j];
        let (column, products) = (spec_column(y_hat, j), spec_dot_mv(xf, b));
        assert forall|i: int| 0 <= i < n implies #[trigger] column[i] == products[i].spec_add(
            mean.spec_mul(ones[i]),
        ) by {
            S::mul_one(mean);
        }
        total_linear(column, products, mean, ones, n as int);
        total_of_ones(ones, n as int);
        // The products sum to zero.
        dot_ones(ones, products, n as int);
        adjoint(xf, ones, b, p);
        dot_zeros(spec_zeros::<S>(p), b, p as int);
        // So the sum is that of the responses.
        let sum = spec_total(spec_column(y, j));
        S::div_mul(sum, count);
        zero_add(sum);
        assert(spec_total(column) == sum);
    }
    assert(column_means(y_hat, m) =~= model.y_mean);
}

} // verus!
