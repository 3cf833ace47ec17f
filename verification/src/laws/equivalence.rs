//! For a single response, orthogonal components do not change what is predicted.
use crate::laws::algebra::{
    add_cancel, add_interchange, add_mul, dot_commutes, dot_linear_right, dot_zeros, mul_cancel,
    mul_zero, neg_mul, neg_unique, one_mul, sub_mul, zero_add,
};
use crate::laws::inverse::inverse_times_matrix;
use crate::laws::orthogonality::{
    deflation_keeps, divided_is_multiple, dot_multiple, normalized_is_multiple, orth_state_shape,
    orthogonal_filter_keeps_covariance, orthogonal_part_is_orthogonal, orthogonal_scores,
    orthogonal_to_scores,
};
use crate::laws::peeling::{
    covariance_is_kept, data_decompose, deflated_dot, nondegenerate, nondegenerate_is_regular,
    orthogonal_extraction_peels, peel_loadings, peel_score, peel_scores, peel_shape, peeled,
    predictive_extraction_peels, residual_ignores_weights, scores_are_orthogonal,
};
use crate::laws::products::{adjoint, dot_unit, row_times_dot};
use crate::laws::residuals::residuals_are_orthogonal_to_scores;
use crate::laws::span::{
    combines, in_span, is_multiple, multiple_composes, orthogonal_combination_is_zero, parallel,
    span_annihilated, span_combines, span_holds, span_is_transitive, span_scales,
};
use crate::laws::training::{
    centered_shape, filter_follows, inverse_shape, orth_state_prefix, pred_state_prefix,
    pred_state_shape, regression_reproduces, responses_decompose, transposed_twice,
};
use crate::matrix::{
    has_width, row_times, rows_minus, spec_column, spec_dot_mtv, spec_dot_mv, spec_product,
    transposed,
};
use crate::model::{
    centered, filtered, fitted, orth_fit, orth_state, orthogonal_part, pred_fit, pred_state,
    pred_step, predicted, solvable, spec_component,
};
use crate::nipals::{loading, x_weight};
use crate::scalar::{ExactScalar, Scalar};
use crate::solve::{loadings_by_weights, nonsingular, spec_coefficients, spec_inverse, unit};
use crate::vector::{minus_multiple, normalized, spec_dot, spec_zeros};
use vstd::prelude::*;

verus! {

/// Filtering keeps the shape.
pub proof fn filtered_shape<S: Scalar>(
    z: Seq<Seq<S>>,
    weights_orth: Seq<Seq<S>>,
    loadings_orth: Seq<Seq<S>>,
    k: nat,
    p: nat,
)
    requires
        has_width(z, p),
    ensures
        filtered(z, weights_orth, loadings_orth, k).len() == z.len(),
        has_width(filtered(z, weights_orth, loadings_orth, k), p),
    decreases k,
{
    if k > 0 {
        filtered_shape(z, weights_orth, loadings_orth, (k - 1) as nat, p);
        let before = filtered(z, weights_orth, loadings_orth, (k - 1) as nat);
        assert forall|i: int| 0 <= i < z.len() implies (#[trigger] filtered(
            z,
            weights_orth,
            loadings_orth,
            k,
        )[i]).len() == p by {
            assert(before[i].len() == p);
        }
    }
}

/// The vector by which unfiltered data give the products that filtered data give by `v`.
pub open spec fn pulled_back<S: Scalar>(
    v: Seq<S>,
    weights_orth: Seq<Seq<S>>,
    loadings_orth: Seq<Seq<S>>,
    k: nat,
) -> Seq<S>
    decreases k,
{
    if k == 0 {
        v
    } else {
        pulled_back(
            minus_multiple(
                v,
                spec_column(weights_orth, k - 1),
                spec_dot(spec_column(loadings_orth, k - 1), v),
            ),
            weights_orth,
            loadings_orth,
            (k - 1) as nat,
        )
    }
}

/// The filter is linear: it can be moved from the data to the vector.
pub proof fn filter_is_linear<S: ExactScalar>(
    z: Seq<Seq<S>>,
    weights_orth: Seq<Seq<S>>,
    loadings_orth: Seq<Seq<S>>,
    k: nat,
    v: Seq<S>,
    p: nat,
    i: int,
)
    requires
        has_width(z, p),
        weights_orth.len() == p,
        loadings_orth.len() == p,
        v.len() == p,
        0 <= i < z.len(),
    ensures
        pulled_back(v, weights_orth, loadings_orth, k).len() == p,
        spec_dot(filtered(z, weights_orth, loadings_orth, k)[i], v) == spec_dot(
            z[i],
            pulled_back(v, weights_orth, loadings_orth, k),
        ),
    decreases k,
{
    if k > 0 {
        let before = filtered(z, weights_orth, loadings_orth, (k - 1) as nat);
        filtered_shape(z, weights_orth, loadings_orth, (k - 1) as nat, p);
        let w = spec_column(weights_orth, k - 1);
        let l = spec_column(loadings_orth, k - 1);
        let s = spec_dot(l, v);
        let t = spec_dot_mv(before, w);
        let u = minus_multiple(v, w, s);
        filter_is_linear(z, weights_orth, loadings_orth, (k - 1) as nat, u, p, i);
        deflated_dot(before, t, l, v, p, i);
        assert(before[i].len() == p);
        assert forall|j: int| 0 <= j < p implies #[trigger] u[j] == v[j].spec_add(
            s.spec_neg().spec_mul(w[j]),
        ) by {
            S::mul_commutes(w[j], s);
            sub_mul(v[j], s, w[j]);
        }
        dot_linear_right(before[i], u, v, s.spec_neg(), w, p as int);
        neg_mul(t[i], s);
        neg_mul(s, t[i]);
        S::mul_commutes(t[i], s);
    }
}

/// Pulling back stays in a span that holds the orthogonal weight vectors.
pub proof fn pulled_back_in_span<S: ExactScalar>(
    v: Seq<S>,
    weights_orth: Seq<Seq<S>>,
    loadings_orth: Seq<Seq<S>>,
    k: nat,
    basis: Seq<Seq<S>>,
    p: nat,
)
    requires
        in_span(v, basis, p),
        forall|a: int|
            0 <= a < k ==> in_span(#[trigger] spec_column(weights_orth, a), basis, p),
    ensures
        in_span(pulled_back(v, weights_orth, loadings_orth, k), basis, p),
    decreases k,
{
    if k > 0 {
        let w = spec_column(weights_orth, k - 1);
        let s = spec_dot(spec_column(loadings_orth, k - 1), v);
        let u = minus_multiple(v, w, s);
        assert(in_span(w, basis, p));
        assert forall|j: int| 0 <= j < p implies #[trigger] u[j] == v[j].spec_add(
            s.spec_neg().spec_mul(w[j]),
        ) by {
            S::mul_commutes(w[j], s);
            sub_mul(v[j], s, w[j]);
        }
        span_combines(u, v, s.spec_neg(), w, basis, p);
        pulled_back_in_span(u, weights_orth, loadings_orth, (k - 1) as nat, basis, p);
    }
}

/// A vector that what is left of the data maps to zero is mapped by the data themselves to
/// a combination of the scores.
pub proof fn scores_carry<S: ExactScalar>(
    x: Seq<Seq<S>>,
    weights: Seq<Seq<S>>,
    p: nat,
    k: nat,
    v: Seq<S>,
)
    requires
        has_width(x, p),
        v.len() == p,
        spec_dot_mv(peeled(x, weights, p, k), v) == spec_zeros::<S>(x.len()),
    ensures
        spec_dot_mv(x, v) == row_times(
            spec_dot_mv(peel_loadings(x, weights, p, k), v),
            peel_scores(x, weights, p, k),
            x.len(),
        ),
{
    let q = spec_dot_mv(peel_loadings(x, weights, p, k), v);
    let scores = peel_scores(x, weights, p, k);
    peel_shape(x, weights, p, k);
    assert forall|i: int| 0 <= i < x.len() implies spec_dot_mv(x, v)[i] == row_times(
        q,
        scores,
        x.len(),
    )[i] by {
        data_decompose(x, weights, p, k, i, v);
        assert(spec_dot_mv(peeled(x, weights, p, k), v)[i] == S::spec_zero());
        let c = spec_column(scores, i);
        zero_add(spec_dot(c, q));
        dot_commutes(c, q, k as int);
    }
    assert(spec_dot_mv(x, v) =~= row_times(q, scores, x.len()));
}

/// What is orthogonal to the data seen through every weight vector is orthogonal to every
/// score.
pub proof fn orthogonal_to_peel_scores<S: ExactScalar>(
    x: Seq<Seq<S>>,
    weights: Seq<Seq<S>>,
    p: nat,
    k: nat,
    u: Seq<S>,
)
    requires
        has_width(x, p),
        u.len() == x.len(),
        forall|a: int| 0 <= a < k ==> (#[trigger] weights[a]).len() == p,
        forall|a: int|
            0 <= a < k ==> spec_dot(u, spec_dot_mv(x, #[trigger] weights[a])) == S::spec_zero(),
    ensures
        forall|a: nat|
            a < k ==> spec_dot(#[trigger] peel_score(x, weights, p, a), u) == S::spec_zero(),
    decreases k,
{
    if k > 0 {
        let j = (k - 1) as nat;
        orthogonal_to_peel_scores(x, weights, p, j, u);
        covariance_is_kept(x, weights, p, j, u);
        peel_shape(x, weights, p, j);
        let w = weights[j as int];
        assert(w.len() == p);
        let left = peeled(x, weights, p, j);
        adjoint(left, u, w, p);
        adjoint(x, u, w, p);
        dot_commutes(u, peel_score(x, weights, p, j), u.len() as int);
    }
}

/// The one predictive component of the filtered data has the weight vector of the
/// unfiltered data.  What it leaves of the response is orthogonal to its score and to the
/// scores of the orthogonal components.
proof fn filtered_component<S: ExactScalar>(
    x: Seq<Seq<S>>,
    y: Seq<Seq<S>>,
    w: Seq<S>,
    p: nat,
    k: nat,
)
    requires
        has_width(x, p),
        has_width(y, 1),
        x.len() == y.len(),
        w == x_weight(x, spec_column(y, 0), p),
        spec_dot(w, w) != S::spec_zero(),
        nondegenerate(orth_state(x, w, p, k).scores),
        nondegenerate(pred_state(orth_state(x, w, p, k).x, y, p, 1, 1).scores),
    ensures
        ({
            let o = orth_state(x, w, p, k);
            let s = pred_state(o.x, y, p, 1, 1);
            let t = spec_dot_mv(o.x, w);
            let r = spec_column(y, 0);
            let e = spec_column(s.y, 0);
            let c = spec_dot(r, t).spec_div(spec_dot(t, t));
            &&& s.weights == seq![w]
            &&& s.scores == seq![t]
            &&& s.loadings_x == seq![loading(o.x, t, p)]
            &&& spec_dot(t, t) != S::spec_zero()
            &&& e.len() == x.len()
            &&& forall|i: int|
                0 <= i < x.len() ==> #[trigger] e[i] == r[i].spec_add(
                    c.spec_neg().spec_mul(t[i]),
                )
            &&& spec_dot(e, t) == S::spec_zero()
            &&& spec_dot_mtv(x, e, p) == spec_dot_mtv(o.x, e, p)
        }),
{
    let o = orth_state(x, w, p, k);
    let s0 = pred_state(o.x, y, p, 1, 0);
    let s = pred_state(o.x, y, p, 1, 1);
    let t = spec_dot_mv(o.x, w);
    let r = spec_column(y, 0);
    let e = spec_column(s.y, 0);
    let c = spec_dot(r, t).spec_div(spec_dot(t, t));
    orth_state_shape(x, w, p, k);
    orthogonal_filter_keeps_covariance(x, r, p, k);
    assert(x_weight(o.x, r, p) == w);
    reveal_with_fuel(pred_state, 2);
    assert(s.weights =~= seq![w]);
    assert(s.scores =~= seq![t]);
    assert(s.loadings_x =~= seq![loading(o.x, t, p)]);
    assert(spec_dot(s.scores[0], s.scores[0]) != S::spec_zero());
    assert forall|i: int| 0 <= i < x.len() implies #[trigger] e[i] == r[i].spec_add(
        c.spec_neg().spec_mul(t[i]),
    ) by {
        assert(y[i].len() == 1);
        S::mul_commutes(t[i], c);
        sub_mul(r[i], c, t[i]);
    }
    residuals_are_orthogonal_to_scores(o.x, y, p, 1, 1, 0);
    assert(spec_dot(s.scores[0], e) == S::spec_zero());
    dot_commutes(e, t, x.len() as int);

    orthogonal_scores(x, w, p, k);
    orthogonal_extraction_peels(x, w, p, k);
    assert forall|a: nat| a < k implies spec_dot(#[trigger] peel_score(x, o.weights, p, a), e)
        == S::spec_zero() by {
        let u = o.scores[a as int];
        assert(u == peel_score(x, o.weights, p, a));
        assert(u.len() == x.len());
        orthogonal_to_scores(o.x, u, w, p);
        assert(spec_dot(u, r) == S::spec_zero());
        dot_linear_right(u, e, r, c.spec_neg(), t, x.len() as int);
        mul_zero(c.spec_neg());
        S::add_zero(S::spec_zero());
    }
    covariance_is_kept(x, o.weights, p, k, e);
}

/// `(g w + (-k) l) + k (l - w s) == (g + -(s k)) w`.
proof fn combination_collapses<S: ExactScalar>(g: S, w: S, k: S, l: S, s: S)
    ensures
        g.spec_mul(w).spec_add(k.spec_neg().spec_mul(l)).spec_add(
            k.spec_mul(l.spec_sub(w.spec_mul(s))),
        ) == g.spec_add(s.spec_mul(k).spec_neg()).spec_mul(w),
{
    let ws = w.spec_mul(s);
    let kl = k.spec_mul(l);
    let rest = k.spec_mul(ws.spec_neg());
    S::sub_is_add_neg(l, ws);
    S::mul_distributes(k, l, ws.spec_neg());
    S::add_commutes(kl, rest);
    add_interchange(g.spec_mul(w), k.spec_neg().spec_mul(l), rest, kl);
    neg_mul(k, l);
    S::add_commutes(kl, kl.spec_neg());
    S::add_neg(kl);
    S::add_zero(g.spec_mul(w).spec_add(rest));
    // k (-(w s)) == (-(s k)) w
    S::mul_commutes(k, ws.spec_neg());
    neg_mul(ws, k);
    S::mul_associates(w, s, k);
    S::mul_commutes(w, s.spec_mul(k));
    neg_mul(s.spec_mul(k), w);
    add_mul(g, s.spec_mul(k).spec_neg(), w);
}

/// Where both ways have left the same of the response, the weight vector of the next
/// orthogonal component and that of the next predictive component are parallel.
proof fn next_weights_are_parallel<S: ExactScalar>(
    x: Seq<Seq<S>>,
    y: Seq<Seq<S>>,
    w: Seq<S>,
    p: nat,
    k: nat,
)
    requires
        has_width(x, p),
        has_width(y, 1),
        x.len() == y.len(),
        w == x_weight(x, spec_column(y, 0), p),
        spec_dot(w, w) != S::spec_zero(),
        nondegenerate(orth_state(x, w, p, k).scores),
        nondegenerate(pred_state(orth_state(x, w, p, k).x, y, p, 1, 1).scores),
        nondegenerate(pred_state(x, y, p, 1, k + 1).scores),
        pred_state(orth_state(x, w, p, k).x, y, p, 1, 1).y == pred_state(x, y, p, 1, k + 1).y,
    ensures
        parallel(
            orth_state(x, w, p, k + 1).weights[k as int],
            pred_state(x, y, p, 1, k + 2).weights[(k + 1) as int],
        ),
{
    let o = orth_state(x, w, p, k);
    let s = pred_state(x, y, p, 1, k + 1);
    let t = spec_dot_mv(o.x, w);
    let r = spec_column(y, 0);
    let e = spec_column(s.y, 0);
    let l = loading(o.x, t, p);
    let square = spec_dot(t, t);
    let c = spec_dot(r, t).spec_div(square);
    let q = orthogonal_part(l, w);
    let g = spec_dot_mtv(x, r, p);
    let h = spec_dot_mtv(s.x, e, p);
    let w_orth = orth_state(x, w, p, k + 1).weights[k as int];
    let w_next = pred_state(x, y, p, 1, k + 2).weights[(k + 1) as int];
    orth_state_shape(x, w, p, k);
    pred_state_shape(x, y, p, 1, k + 1);
    assert(w_orth == normalized(q));
    assert(w_next == normalized(h));
    filtered_component(x, y, w, p, k);
    orthogonal_filter_keeps_covariance(x, r, p, k);

    // h == (X_o)^T e, which is orthogonal to w
    predictive_extraction_peels(x, y, p, 1, k + 1);
    residuals_are_orthogonal_to_scores(x, y, p, 1, k + 1, 0);
    assert forall|a: nat| a < k + 1 implies spec_dot(#[trigger] peel_score(x, s.weights, p, a), e)
        == S::spec_zero() by {
        assert(s.scores[a as int] == peel_score(x, s.weights, p, a));
    }
    covariance_is_kept(x, s.weights, p, k + 1, e);
    assert(h == spec_dot_mtv(o.x, e, p));
    adjoint(o.x, e, w, p);
    dot_commutes(h, w, p as int);
    assert(spec_dot(w, h) == S::spec_zero());

    // h == gamma w - kappa l
    let kappa = spec_dot(r, t);
    let (first, gamma) = normalized_is_multiple(g);
    S::div_mul(kappa, square);
    divided_is_multiple(spec_dot_mtv(o.x, t, p), square);
    assert forall|b: int| 0 <= b < p implies #[trigger] h[b] == gamma.spec_mul(w[b]).spec_add(
        kappa.spec_neg().spec_mul(l[b]),
    ) by {
        let col = spec_column(o.x, b);
        dot_linear_right(col, e, r, c.spec_neg(), t, x.len() as int);
        assert(spec_dot(col, r) == spec_dot_mtv(o.x, r, p)[b]);
        assert(g[b] == gamma.spec_mul(w[b]));
        assert(spec_dot(col, t) == spec_dot_mtv(o.x, t, p)[b]);
        assert(spec_dot(col, t) == square.spec_mul(l[b]));
        S::mul_associates(c.spec_neg(), square, l[b]);
        neg_mul(c, square);
    }

    // h + kappa q == eta w, and eta is zero
    let ratio = spec_dot(w, l).spec_div(spec_dot(w, w));
    let eta = gamma.spec_add(ratio.spec_mul(kappa).spec_neg());
    let both = Seq::new(p, |b: int| h[b].spec_add(kappa.spec_mul(q[b])));
    assert forall|b: int| 0 <= b < p implies #[trigger] both[b] == eta.spec_mul(w[b]) by {
        combination_collapses(gamma, w[b], kappa, l[b], ratio);
        assert(h[b] == gamma.spec_mul(w[b]).spec_add(kappa.spec_neg().spec_mul(l[b])));
    }
    dot_multiple(w, both, eta, w);
    dot_linear_right(w, both, h, kappa, q, p as int);
    orthogonal_part_is_orthogonal(l, w);
    mul_zero(kappa);
    S::add_zero(S::spec_zero());
    mul_zero(spec_dot(w, w));
    mul_cancel(eta, S::spec_zero(), spec_dot(w, w));

    // h == -kappa q, and kappa is not zero
    let k_neg = kappa.spec_neg();
    assert forall|b: int| 0 <= b < p implies #[trigger] h[b] == k_neg.spec_mul(q[b]) by {
        mul_zero(w[b]);
        assert(both[b] == S::spec_zero());
        S::add_commutes(h[b], kappa.spec_mul(q[b]));
        neg_unique(kappa.spec_mul(q[b]), h[b]);
        neg_mul(kappa, q[b]);
    }
    assert(is_multiple(h, k_neg, q));
    adjoint(o.x, r, w, p);
    dot_commutes(g, w, p as int);
    dot_multiple(w, w, first, g);
    mul_zero(first);
    assert(kappa != S::spec_zero());
    S::add_neg(kappa);
    S::add_zero(kappa);
    assert(k_neg != S::spec_zero());
    let inverse = S::spec_one().spec_div(k_neg);
    S::div_mul(S::spec_one(), k_neg);
    assert forall|b: int| 0 <= b < p implies #[trigger] q[b] == inverse.spec_mul(h[b]) by {
        S::mul_associates(inverse, k_neg, q[b]);
        one_mul(q[b]);
        assert(h[b] == k_neg.spec_mul(q[b]));
    }
    assert(is_multiple(q, inverse, h));

    let (to_orth, from_orth) = normalized_is_multiple(q);
    let (to_next, from_next) = normalized_is_multiple(h);
    multiple_composes(w_orth, to_orth, q, inverse, h);
    multiple_composes(w_orth, to_orth.spec_mul(inverse), h, from_next, w_next);
    multiple_composes(w_next, to_next, h, k_neg, q);
    multiple_composes(w_next, to_next.spec_mul(k_neg), q, from_orth, w_orth);
}

/// The weight vectors of the orthogonal components are parallel to those of the predictive
/// components from the second on.
pub open spec fn weights_are_parallel<S: Scalar>(
    x: Seq<Seq<S>>,
    y: Seq<Seq<S>>,
    w: Seq<S>,
    p: nat,
    k: nat,
) -> bool {
    forall|a: int|
        0 <= a < k ==> parallel(
            #[trigger] orth_state(x, w, p, k).weights[a],
            pred_state(x, y, p, 1, k + 1).weights[a + 1],
        )
}

/// Where the weight vectors are parallel, a vector that filtered data use is used by the
/// unfiltered data as a combination of the predictive weight vectors.
proof fn pulled_back_by_parallel<S: ExactScalar>(
    x: Seq<Seq<S>>,
    y: Seq<Seq<S>>,
    w: Seq<S>,
    p: nat,
    k: nat,
    a: nat,
    v: Seq<S>,
    basis: Seq<Seq<S>>,
)
    requires
        has_width(x, p),
        has_width(y, 1),
        x.len() == y.len(),
        w.len() == p,
        weights_are_parallel(x, y, w, p, k),
        a <= k,
        forall|b: int|
            0 <= b < k + 1 ==> in_span(
                #[trigger] pred_state(x, y, p, 1, k + 1).weights[b],
                basis,
                p,
            ),
        in_span(v, basis, p),
    ensures
        ({
            let o = orth_state(x, w, p, k);
            in_span(
                pulled_back(v, transposed(o.weights, p), transposed(o.loadings, p), a),
                basis,
                p,
            )
        }),
{
    let o = orth_state(x, w, p, k);
    let s = pred_state(x, y, p, 1, k + 1);
    orth_state_shape(x, w, p, k);
    assert(has_width(o.weights, p));
    transposed_twice(o.weights, p);
    assert forall|b: int| 0 <= b < a implies in_span(
        #[trigger] spec_column(transposed(o.weights, p), b),
        basis,
        p,
    ) by {
        let u = o.weights[b];
        assert(spec_column(transposed(o.weights, p), b) == u);
        let next = s.weights[b + 1];
        assert(parallel(u, next));
        let c = choose|c: S| is_multiple(u, c, next);
        assert(in_span(s.weights[b + 1], basis, p));
        span_scales(u, c, next, basis, p);
    }
    pulled_back_in_span(v, transposed(o.weights, p), transposed(o.loadings, p), a, basis, p);
}

/// The first predictive weight vector is that of the response.
proof fn first_weight<S: Scalar>(x: Seq<Seq<S>>, y: Seq<Seq<S>>, p: nat, k: nat)
    requires
        has_width(x, p),
        has_width(y, 1),
        x.len() == y.len(),
    ensures
        pred_state(x, y, p, 1, k + 1).weights[0] == x_weight(x, spec_column(y, 0), p),
{
    pred_state_prefix(x, y, p, 1, 1, k + 1);
    reveal_with_fuel(pred_state, 2);
    assert(pred_state(x, y, p, 1, k + 1).weights[0] == pred_state(x, y, p, 1, 1).weights[0]);
}

/// The weight vectors so far map what is left of the data to zero, and so does every
/// combination of them.
proof fn combinations_leave_nothing<S: ExactScalar>(
    x: Seq<Seq<S>>,
    y: Seq<Seq<S>>,
    p: nat,
    k: nat,
    v: Seq<S>,
)
    requires
        has_width(x, p),
        has_width(y, 1),
        x.len() == y.len(),
        nondegenerate(pred_state(x, y, p, 1, k).scores),
        in_span(v, pred_state(x, y, p, 1, k).weights, p),
    ensures
        ({
            let s = pred_state(x, y, p, 1, k);
            spec_dot_mv(x, v) == row_times(spec_dot_mv(s.loadings_x, v), s.scores, x.len())
        }),
{
    let s = pred_state(x, y, p, 1, k);
    pred_state_shape(x, y, p, 1, k);
    predictive_extraction_peels(x, y, p, 1, k);
    nondegenerate_is_regular(x, s.weights, p, k);
    assert forall|a: int| 0 <= a < k implies spec_dot_mv(s.x, #[trigger] s.weights[a])
        == spec_zeros::<S>(x.len()) by {
        assert(s.weights[a].len() == p);
        residual_ignores_weights(x, s.weights, p, k, a as nat);
    }
    span_annihilated(s.x, v, s.weights, p);
    scores_carry(x, s.weights, p, k, v);
}

/// `(e + f) + (-b) - e == f + (-b)`.
proof fn difference_of_residuals<S: ExactScalar>(e: S, f: S, b: S)
    ensures
        e.spec_add(f).spec_add(b).spec_sub(e) == f.spec_add(b),
{
    let fb = f.spec_add(b);
    S::add_associates(e, f, b);
    S::sub_is_add_neg(e.spec_add(fb), e);
    S::add_commutes(e, fb);
    S::add_associates(fb, e, e.spec_neg());
    S::add_neg(e);
    S::add_zero(fb);
}

/// What both the score of the filtered data and the orthogonal scores are orthogonal to is
/// orthogonal to every predictive score of the unfiltered data.
proof fn orthogonal_to_both<S: ExactScalar>(
    x: Seq<Seq<S>>,
    y: Seq<Seq<S>>,
    w: Seq<S>,
    p: nat,
    k: nat,
    u: Seq<S>,
)
    requires
        has_width(x, p),
        has_width(y, 1),
        x.len() == y.len(),
        w == x_weight(x, spec_column(y, 0), p),
        nondegenerate(orth_state(x, w, p, k).scores),
        weights_are_parallel(x, y, w, p, k),
        u.len() == x.len(),
        spec_dot_mtv(x, u, p) == spec_dot_mtv(orth_state(x, w, p, k).x, u, p),
        spec_dot(u, spec_dot_mv(orth_state(x, w, p, k).x, w)) == S::spec_zero(),
    ensures
        forall|a: int|
            0 <= a < k + 1 ==> spec_dot(#[trigger] pred_state(x, y, p, 1, k + 1).scores[a], u)
                == S::spec_zero(),
{
    let n = x.len();
    let o = orth_state(x, w, p, k);
    let s = pred_state(x, y, p, 1, k + 1);
    orth_state_shape(x, w, p, k);
    pred_state_shape(x, y, p, 1, k + 1);
    first_weight(x, y, p, k);
    orthogonal_extraction_peels(x, w, p, k);
    nondegenerate_is_regular(x, o.weights, p, k);
    assert forall|b: int| 0 <= b < k + 1 implies spec_dot(
        u,
        spec_dot_mv(x, #[trigger] s.weights[b]),
    ) == S::spec_zero() by {
        let v = s.weights[b];
        assert(v.len() == p);
        adjoint(x, u, v, p);
        adjoint(o.x, u, v, p);
        if b > 0 {
            let r = o.weights[b - 1];
            assert(r.len() == p);
            assert(parallel(o.weights[b - 1], s.weights[b - 1 + 1]));
            let m = choose|m: S| is_multiple(v, m, r);
            dot_multiple(spec_dot_mtv(x, u, p), v, m, r);
            adjoint(o.x, u, r, p);
            residual_ignores_weights(x, o.weights, p, k, (b - 1) as nat);
            dot_zeros(spec_dot_mv(o.x, r), u, n as int);
            mul_zero(m);
        }
    }
    predictive_extraction_peels(x, y, p, 1, k + 1);
    orthogonal_to_peel_scores(x, s.weights, p, k + 1, u);
    assert forall|a: int| 0 <= a < k + 1 implies spec_dot(#[trigger] s.scores[a], u)
        == S::spec_zero() by {
        assert(s.scores[a] == peel_score(x, s.weights, p, a as nat));
    }
}

/// Partly filtered data map a combination of the predictive weight vectors to a combination
/// of the predictive scores.
proof fn filtered_product_in_span<S: ExactScalar>(
    x: Seq<Seq<S>>,
    y: Seq<Seq<S>>,
    w: Seq<S>,
    p: nat,
    k: nat,
    a: nat,
    v: Seq<S>,
)
    requires
        has_width(x, p),
        has_width(y, 1),
        x.len() == y.len(),
        w.len() == p,
        weights_are_parallel(x, y, w, p, k),
        nondegenerate(pred_state(x, y, p, 1, k + 1).scores),
        a <= k,
        v.len() == p,
        in_span(v, pred_state(x, y, p, 1, k + 1).weights, p),
    ensures
        in_span(
            spec_dot_mv(orth_state(x, w, p, a).x, v),
            pred_state(x, y, p, 1, k + 1).scores,
            x.len(),
        ),
{
    let n = x.len();
    let o = orth_state(x, w, p, k);
    let s = pred_state(x, y, p, 1, k + 1);
    orth_state_shape(x, w, p, k);
    orth_state_shape(x, w, p, a);
    pred_state_shape(x, y, p, 1, k + 1);
    assert forall|b: int| 0 <= b < k + 1 implies in_span(
        #[trigger] s.weights[b],
        s.weights,
        p,
    ) by {
        span_holds(s.weights, b, p);
    }
    pulled_back_by_parallel(x, y, w, p, k, a, v, s.weights);
    let (wo, lo) = (transposed(o.weights, p), transposed(o.loadings, p));
    let u = pulled_back(v, wo, lo, a);
    filter_follows(x, w, p, a, k);
    let t = spec_dot_mv(orth_state(x, w, p, a).x, v);
    assert forall|i: int| 0 <= i < n implies t[i] == spec_dot_mv(x, u)[i] by {
        filter_is_linear(x, wo, lo, a, v, p, i);
    }
    assert(t =~= spec_dot_mv(x, u));
    combinations_leave_nothing(x, y, p, k + 1, u);
    assert(combines(t, spec_dot_mv(s.loadings_x, u), s.scores, n));
}

/// A combination of the predictive scores that is orthogonal to each of them is zero.
proof fn orthogonal_combination_of_scores<S: ExactScalar>(
    x: Seq<Seq<S>>,
    y: Seq<Seq<S>>,
    p: nat,
    k: nat,
    d: Seq<S>,
)
    requires
        has_width(x, p),
        has_width(y, 1),
        x.len() == y.len(),
        nondegenerate(pred_state(x, y, p, 1, k).scores),
        in_span(d, pred_state(x, y, p, 1, k).scores, x.len()),
        forall|a: int|
            0 <= a < k ==> spec_dot(#[trigger] pred_state(x, y, p, 1, k).scores[a], d)
                == S::spec_zero(),
    ensures
        d == spec_zeros::<S>(x.len()),
{
    let s = pred_state(x, y, p, 1, k);
    pred_state_shape(x, y, p, 1, k);
    predictive_scores_are_orthogonal(x, y, p, k);
    let coefficients = choose|q: Seq<S>| combines(d, q, s.scores, x.len());
    orthogonal_combination_is_zero(d, coefficients, s.scores, x.len());
}

/// The predictive scores are orthogonal to one another.
proof fn predictive_scores_are_orthogonal<S: ExactScalar>(
    x: Seq<Seq<S>>,
    y: Seq<Seq<S>>,
    p: nat,
    k: nat,
)
    requires
        has_width(x, p),
        has_width(y, 1),
        x.len() == y.len(),
        nondegenerate(pred_state(x, y, p, 1, k).scores),
    ensures
        forall|a: int, b: int|
            0 <= a < k && 0 <= b < k && a != b ==> spec_dot(
                #[trigger] pred_state(x, y, p, 1, k).scores[a],
                #[trigger] pred_state(x, y, p, 1, k).scores[b],
            ) == S::spec_zero(),
        forall|a: int|
            0 <= a < k ==> spec_dot_mtv(
                pred_state(x, y, p, 1, k).x,
                #[trigger] pred_state(x, y, p, 1, k).scores[a],
                p,
            ) == spec_zeros::<S>(p),
{
    let s = pred_state(x, y, p, 1, k);
    pred_state_shape(x, y, p, 1, k);
    predictive_extraction_peels(x, y, p, 1, k);
    nondegenerate_is_regular(x, s.weights, p, k);
    scores_are_orthogonal(x, s.weights, p, k);
    assert forall|a: int| 0 <= a < k implies #[trigger] s.scores[a] == peel_score(
        x,
        s.weights,
        p,
        a as nat,
    ) by {
    }
}

/// `d == a - b` is orthogonal to what both `a` and `b` are orthogonal to.
proof fn difference_is_orthogonal<S: ExactScalar>(u: Seq<S>, d: Seq<S>, a: Seq<S>, b: Seq<S>)
    requires
        d.len() == u.len(),
        a.len() == u.len(),
        b.len() == u.len(),
        forall|i: int| 0 <= i < u.len() ==> #[trigger] d[i] == a[i].spec_sub(b[i]),
        spec_dot(u, a) == S::spec_zero(),
        spec_dot(u, b) == S::spec_zero(),
    ensures
        spec_dot(u, d) == S::spec_zero(),
{
    let minus = S::spec_one().spec_neg();
    assert forall|i: int| 0 <= i < u.len() implies #[trigger] d[i] == a[i].spec_add(
        minus.spec_mul(b[i]),
    ) by {
        one_mul(b[i]);
        sub_mul(a[i], S::spec_one(), b[i]);
    }
    dot_linear_right(u, d, a, minus, b, u.len() as int);
    mul_zero(minus);
    S::add_zero(S::spec_zero());
}

/// Where the difference is zero, the terms are equal.
proof fn zero_difference<S: ExactScalar>(a: S, b: S)
    requires
        a.spec_sub(b) == S::spec_zero(),
    ensures
        a == b,
{
    S::sub_is_add_neg(a, b);
    S::add_neg(b);
    add_cancel(a, b, b.spec_neg());
}

/// Where the weight vectors are parallel, both ways leave the same of the response.
proof fn residuals_agree<S: ExactScalar>(
    x: Seq<Seq<S>>,
    y: Seq<Seq<S>>,
    w: Seq<S>,
    p: nat,
    k: nat,
)
    requires
        has_width(x, p),
        has_width(y, 1),
        x.len() == y.len(),
        w == x_weight(x, spec_column(y, 0), p),
        spec_dot(w, w) != S::spec_zero(),
        nondegenerate(orth_state(x, w, p, k).scores),
        nondegenerate(pred_state(orth_state(x, w, p, k).x, y, p, 1, 1).scores),
        nondegenerate(pred_state(x, y, p, 1, k + 1).scores),
        weights_are_parallel(x, y, w, p, k),
    ensures
        pred_state(orth_state(x, w, p, k).x, y, p, 1, 1).y == pred_state(x, y, p, 1, k + 1).y,
{
    let n = x.len();
    let o = orth_state(x, w, p, k);
    let one = pred_state(o.x, y, p, 1, 1);
    let s = pred_state(x, y, p, 1, k + 1);
    let t = spec_dot_mv(o.x, w);
    let r = spec_column(y, 0);
    let (e1, e2) = (spec_column(one.y, 0), spec_column(s.y, 0));
    let c = spec_dot(r, t).spec_div(spec_dot(t, t));
    orth_state_shape(x, w, p, k);
    pred_state_shape(o.x, y, p, 1, 1);
    pred_state_shape(x, y, p, 1, k + 1);
    filtered_component(x, y, w, p, k);
    first_weight(x, y, p, k);

    // The difference is orthogonal to every score.
    orthogonal_to_both(x, y, w, p, k, e1);
    residuals_are_orthogonal_to_scores(x, y, p, 1, k + 1, 0);
    let d = Seq::new(n, |i: int| e1[i].spec_sub(e2[i]));
    assert forall|a: int| 0 <= a < k + 1 implies spec_dot(#[trigger] s.scores[a], d)
        == S::spec_zero() by {
        assert(s.scores[a].len() == n);
        difference_is_orthogonal(s.scores[a], d, e1, e2);
    }

    // It is a combination of the scores.
    span_holds(s.weights, 0, p);
    filtered_product_in_span(x, y, w, p, k, k, w);
    let explained = row_times(spec_column(s.loadings_y, 0), s.scores, n);
    assert(combines(explained, spec_column(s.loadings_y, 0), s.scores, n));
    assert forall|i: int| 0 <= i < n implies #[trigger] d[i] == explained[i].spec_add(
        c.spec_neg().spec_mul(t[i]),
    ) by {
        responses_decompose(x, y, p, 1, k + 1, i, 0);
        dot_commutes(spec_column(s.scores, i), spec_column(s.loadings_y, 0), (k + 1) as int);
        assert(r[i] == e2[i].spec_add(explained[i]));
        assert(e1[i] == r[i].spec_add(c.spec_neg().spec_mul(t[i])));
        difference_of_residuals(e2[i], explained[i], c.spec_neg().spec_mul(t[i]));
    }
    span_combines(d, explained, c.spec_neg(), t, s.scores, n);
    orthogonal_combination_of_scores(x, y, p, k + 1, d);

    assert forall|i: int| 0 <= i < n implies one.y[i] == s.y[i] by {
        assert(one.y[i].len() == 1 && s.y[i].len() == 1);
        assert(d[i] == S::spec_zero());
        zero_difference(e1[i], e2[i]);
        assert(one.y[i] =~= s.y[i]);
    }
    assert(one.y =~= s.y);
}

/// A column of the data, decomposed: `X e_j == X_k e_j + T (P^T e_j)`.
proof fn column_decomposes<S: ExactScalar>(
    x: Seq<Seq<S>>,
    weights: Seq<Seq<S>>,
    p: nat,
    k: nat,
    j: int,
)
    requires
        has_width(x, p),
        0 <= j < p,
    ensures
        ({
            let removed = row_times(
                spec_dot_mv(peel_loadings(x, weights, p, k), unit::<S>(j, p)),
                peel_scores(x, weights, p, k),
                x.len(),
            );
            &&& in_span(removed, peel_scores(x, weights, p, k), x.len())
            &&& forall|i: int|
                0 <= i < x.len() ==> (#[trigger] x[i])[j] == peeled(
                    x,
                    weights,
                    p,
                    k,
                )[i][j].spec_add(removed[i])
        }),
{
    let e = unit::<S>(j, p);
    let q = spec_dot_mv(peel_loadings(x, weights, p, k), e);
    let scores = peel_scores(x, weights, p, k);
    let removed = row_times(q, scores, x.len());
    peel_shape(x, weights, p, k);
    assert(combines(removed, q, scores, x.len()));
    assert forall|i: int| 0 <= i < x.len() implies (#[trigger] x[i])[j] == peeled(
        x,
        weights,
        p,
        k,
    )[i][j].spec_add(removed[i]) by {
        assert(x[i].len() == p && peeled(x, weights, p, k)[i].len() == p);
        data_decompose(x, weights, p, k, i, e);
        dot_unit(x[i], j);
        dot_unit(peeled(x, weights, p, k)[i], j);
        dot_commutes(spec_column(scores, i), q, k as int);
    }
}

/// `(a + f) + g == b + h` means `a - b == h + (-1) (g + f)`.
proof fn difference_of_columns<S: ExactScalar>(a: S, f: S, g: S, b: S, h: S)
    requires
        a.spec_add(f).spec_add(g) == b.spec_add(h),
    ensures
        a.spec_sub(b) == h.spec_add(S::spec_one().spec_neg().spec_mul(g.spec_add(f))),
{
    let fg = f.spec_add(g);
    let right = h.spec_add(fg.spec_neg());
    S::add_commutes(g, f);
    neg_mul(S::spec_one(), fg);
    one_mul(fg);
    // Both sides give `h` when `f + g` is added.
    S::add_associates(a, f, g);
    S::sub_is_add_neg(a, b);
    S::add_commutes(a, b.spec_neg());
    S::add_associates(b.spec_neg(), a, fg);
    S::add_associates(b.spec_neg(), b, h);
    S::add_commutes(b.spec_neg(), b);
    S::add_neg(b);
    zero_add(h);
    S::add_associates(h, fg.spec_neg(), fg);
    S::add_commutes(fg.spec_neg(), fg);
    S::add_neg(fg);
    S::add_zero(h);
    add_cancel(a.spec_sub(b), right, fg);
}

/// Where the weight vectors are parallel, both ways leave the same of the data.
proof fn residual_data_agree<S: ExactScalar>(
    x: Seq<Seq<S>>,
    y: Seq<Seq<S>>,
    w: Seq<S>,
    p: nat,
    k: nat,
)
    requires
        has_width(x, p),
        has_width(y, 1),
        x.len() == y.len(),
        w == x_weight(x, spec_column(y, 0), p),
        spec_dot(w, w) != S::spec_zero(),
        nondegenerate(orth_state(x, w, p, k).scores),
        nondegenerate(pred_state(orth_state(x, w, p, k).x, y, p, 1, 1).scores),
        nondegenerate(pred_state(x, y, p, 1, k + 1).scores),
        weights_are_parallel(x, y, w, p, k),
    ensures
        pred_state(orth_state(x, w, p, k).x, y, p, 1, 1).x == pred_state(x, y, p, 1, k + 1).x,
{
    let n = x.len();
    let o = orth_state(x, w, p, k);
    let one = pred_state(o.x, y, p, 1, 1);
    let s = pred_state(x, y, p, 1, k + 1);
    orth_state_shape(x, w, p, k);
    pred_state_shape(o.x, y, p, 1, 1);
    pred_state_shape(x, y, p, 1, k + 1);
    assert forall|i: int| 0 <= i < n implies one.x[i] == s.x[i] by {
        assert(one.x[i].len() == p && s.x[i].len() == p);
        assert forall|j: int| 0 <= j < p implies one.x[i][j] == s.x[i][j] by {
            residual_columns_agree(x, y, w, p, k, j);
            assert(spec_column(one.x, j)[i] == spec_column(s.x, j)[i]);
        }
        assert(one.x[i] =~= s.x[i]);
    }
    assert(one.x =~= s.x);
}

/// The scores of the orthogonal components are combinations of the predictive scores.
proof fn orthogonal_score_in_span<S: ExactScalar>(
    x: Seq<Seq<S>>,
    y: Seq<Seq<S>>,
    w: Seq<S>,
    p: nat,
    k: nat,
    a: nat,
)
    requires
        has_width(x, p),
        has_width(y, 1),
        x.len() == y.len(),
        w.len() == p,
        weights_are_parallel(x, y, w, p, k),
        nondegenerate(pred_state(x, y, p, 1, k + 1).scores),
        a < k,
    ensures
        in_span(
            orth_state(x, w, p, k).scores[a as int],
            pred_state(x, y, p, 1, k + 1).scores,
            x.len(),
        ),
{
    let o = orth_state(x, w, p, k);
    let s = pred_state(x, y, p, 1, k + 1);
    orth_state_shape(x, w, p, k);
    pred_state_shape(x, y, p, 1, k + 1);
    let u = o.weights[a as int];
    assert(u.len() == p);
    let next = s.weights[a as int + 1];
    assert(parallel(u, next));
    let c = choose|c: S| is_multiple(u, c, next);
    span_holds(s.weights, a as int + 1, p);
    span_scales(u, c, next, s.weights, p);
    filtered_product_in_span(x, y, w, p, k, a, u);
    orth_state_prefix(x, w, p, a + 1, k);
    orth_state_shape(x, w, p, a);
    let first = orth_state(x, w, p, a + 1);
    assert(o.scores[a as int] == first.scores[a as int]);
    assert(o.weights[a as int] == first.weights[a as int]);
    assert(first.scores[a as int] == spec_dot_mv(orth_state(x, w, p, a).x, u));
}

proof fn residual_columns_agree<S: ExactScalar>(
    x: Seq<Seq<S>>,
    y: Seq<Seq<S>>,
    w: Seq<S>,
    p: nat,
    k: nat,
    j: int,
)
    requires
        has_width(x, p),
        has_width(y, 1),
        x.len() == y.len(),
        w == x_weight(x, spec_column(y, 0), p),
        spec_dot(w, w) != S::spec_zero(),
        nondegenerate(orth_state(x, w, p, k).scores),
        nondegenerate(pred_state(orth_state(x, w, p, k).x, y, p, 1, 1).scores),
        nondegenerate(pred_state(x, y, p, 1, k + 1).scores),
        weights_are_parallel(x, y, w, p, k),
        0 <= j < p,
    ensures
        spec_column(pred_state(orth_state(x, w, p, k).x, y, p, 1, 1).x, j) == spec_column(
            pred_state(x, y, p, 1, k + 1).x,
            j,
        ),
{
    let n = x.len();
    let o = orth_state(x, w, p, k);
    let one = pred_state(o.x, y, p, 1, 1);
    let s = pred_state(x, y, p, 1, k + 1);
    let t = spec_dot_mv(o.x, w);
    let (c1, c2) = (spec_column(one.x, j), spec_column(s.x, j));
    orth_state_shape(x, w, p, k);
    pred_state_shape(o.x, y, p, 1, 1);
    pred_state_shape(x, y, p, 1, k + 1);
    filtered_component(x, y, w, p, k);
    first_weight(x, y, p, k);
    orthogonal_extraction_peels(x, w, p, k);
    predictive_extraction_peels(o.x, y, p, 1, 1);
    predictive_extraction_peels(x, y, p, 1, k + 1);

    // Both columns are orthogonal to every score, and so is their difference.
    predictive_scores_are_orthogonal(o.x, y, p, 1);
    predictive_scores_are_orthogonal(x, y, p, k + 1);
    orthogonal_scores(x, w, p, k);
    assert(spec_dot_mtv(one.x, one.scores[0], p) == spec_zeros::<S>(p));
    assert(spec_dot_mtv(one.x, t, p)[j] == S::spec_zero());
    assert forall|a: nat| a < k implies spec_dot(#[trigger] peel_score(x, o.weights, p, a), c1)
        == S::spec_zero() by {
        let u = o.scores[a as int];
        assert(u == peel_score(x, o.weights, p, a));
        assert(u.len() == n);
        assert(spec_dot_mtv(o.x, u, p) == spec_zeros::<S>(p));
        orthogonal_to_scores(o.x, u, w, p);
        deflation_keeps(o.x, t, loading(o.x, t, p), u, p);
        reveal_with_fuel(pred_state, 2);
        assert(spec_dot_mtv(one.x, u, p)[j] == S::spec_zero());
        dot_commutes(c1, u, n as int);
    }
    covariance_is_kept(x, o.weights, p, k, c1);
    orthogonal_to_both(x, y, w, p, k, c1);
    let d = Seq::new(n, |i: int| c1[i].spec_sub(c2[i]));
    assert forall|a: int| 0 <= a < k + 1 implies spec_dot(#[trigger] s.scores[a], d)
        == S::spec_zero() by {
        let u = s.scores[a];
        assert(u.len() == n);
        assert(spec_dot_mtv(s.x, u, p)[j] == S::spec_zero());
        dot_commutes(c2, u, n as int);
        difference_is_orthogonal(u, d, c1, c2);
    }

    // The difference is a combination of the scores.
    span_holds(s.weights, 0, p);
    filtered_product_in_span(x, y, w, p, k, k, w);
    let e = unit::<S>(j, p);
    let by_one = row_times(
        spec_dot_mv(peel_loadings(o.x, one.weights, p, 1), e),
        peel_scores(o.x, one.weights, p, 1),
        n,
    );
    let by_orth = row_times(
        spec_dot_mv(peel_loadings(x, o.weights, p, k), e),
        peel_scores(x, o.weights, p, k),
        n,
    );
    let by_all = row_times(
        spec_dot_mv(peel_loadings(x, s.weights, p, k + 1), e),
        peel_scores(x, s.weights, p, k + 1),
        n,
    );
    column_decomposes(o.x, one.weights, p, 1, j);
    column_decomposes(x, o.weights, p, k, j);
    column_decomposes(x, s.weights, p, k + 1, j);
    assert forall|a: int| 0 <= a < one.scores.len() implies in_span(
        #[trigger] one.scores[a],
        s.scores,
        n,
    ) by {
    }
    span_is_transitive(by_one, one.scores, s.scores, n);
    assert forall|a: int| 0 <= a < o.scores.len() implies in_span(
        #[trigger] o.scores[a],
        s.scores,
        n,
    ) by {
        orthogonal_score_in_span(x, y, w, p, k, a as nat);
    }
    span_is_transitive(by_orth, o.scores, s.scores, n);
    let one_s = S::spec_one();
    let both = Seq::new(n, |i: int| by_orth[i].spec_add(one_s.spec_mul(by_one[i])));
    span_combines(both, by_orth, one_s, by_one, s.scores, n);
    assert forall|i: int| 0 <= i < n implies #[trigger] d[i] == by_all[i].spec_add(
        one_s.spec_neg().spec_mul(both[i]),
    ) by {
        assert(x[i][j] == o.x[i][j].spec_add(by_orth[i]));
        assert(o.x[i][j] == one.x[i][j].spec_add(by_one[i]));
        assert(x[i][j] == s.x[i][j].spec_add(by_all[i]));
        one_mul(by_one[i]);
        difference_of_columns(c1[i], by_one[i], by_orth[i], c2[i], by_all[i]);
    }
    span_combines(d, by_all, one_s.spec_neg(), both, s.scores, n);
    orthogonal_combination_of_scores(x, y, p, k + 1, d);
    assert forall|i: int| 0 <= i < n implies c1[i] == c2[i] by {
        assert(d[i] == S::spec_zero());
        zero_difference(c1[i], c2[i]);
    }
    assert(c1 =~= c2);
}

/// One predictive component after `k` orthogonal ones leaves of the data and of a single
/// response what `k + 1` predictive components leave.
pub proof fn orthogonal_components_leave_the_same<S: ExactScalar>(
    x: Seq<Seq<S>>,
    y: Seq<Seq<S>>,
    w: Seq<S>,
    p: nat,
    k: nat,
)
    requires
        has_width(x, p),
        has_width(y, 1),
        x.len() == y.len(),
        w == x_weight(x, spec_column(y, 0), p),
        spec_dot(w, w) != S::spec_zero(),
        nondegenerate(orth_state(x, w, p, k).scores),
        forall|a: nat|
            a <= k ==> nondegenerate(
                #[trigger] pred_state(orth_state(x, w, p, a).x, y, p, 1, 1).scores,
            ),
        nondegenerate(pred_state(x, y, p, 1, k + 1).scores),
    ensures
        weights_are_parallel(x, y, w, p, k),
        pred_state(orth_state(x, w, p, k).x, y, p, 1, 1).x == pred_state(x, y, p, 1, k + 1).x,
        pred_state(orth_state(x, w, p, k).x, y, p, 1, 1).y == pred_state(x, y, p, 1, k + 1).y,
    decreases k,
{
    let o = orth_state(x, w, p, k);
    let s = pred_state(x, y, p, 1, k + 1);
    orth_state_shape(x, w, p, k);
    pred_state_shape(x, y, p, 1, k + 1);
    assert(nondegenerate(pred_state(orth_state(x, w, p, k).x, y, p, 1, 1).scores));
    if k > 0 {
        let j = (k - 1) as nat;
        let o0 = orth_state(x, w, p, j);
        let s0 = pred_state(x, y, p, 1, k);
        orth_state_shape(x, w, p, j);
        pred_state_shape(x, y, p, 1, k);
        orth_state_prefix(x, w, p, j, k);
        pred_state_prefix(x, y, p, 1, k, k + 1);
        assert(nondegenerate(o0.scores)) by {
            assert forall|a: int| 0 <= a < j implies spec_dot(
                #[trigger] o0.scores[a],
                o0.scores[a],
            ) != S::spec_zero() by {
                assert(o.scores[a] == o0.scores[a]);
            }
        }
        assert(nondegenerate(s0.scores)) by {
            assert forall|a: int| 0 <= a < k implies spec_dot(
                #[trigger] s0.scores[a],
                s0.scores[a],
            ) != S::spec_zero() by {
                assert(s.scores[a] == s0.scores[a]);
            }
        }
        assert(j + 1 == k);
        orthogonal_components_leave_the_same(x, y, w, p, j);
        assert(nondegenerate(pred_state(orth_state(x, w, p, j).x, y, p, 1, 1).scores));
        next_weights_are_parallel(x, y, w, p, j);
        assert forall|a: int| 0 <= a < k implies parallel(
            #[trigger] o.weights[a],
            s.weights[a + 1],
        ) by {
            if a < j {
                assert(o.weights[a] == o0.weights[a]);
                assert(s.weights[a + 1] == s0.weights[a + 1]);
            }
        }
    }
    residuals_agree(x, y, w, p, k);
    residual_data_agree(x, y, w, p, k);
}

/// From the same data and responses, the same components follow.
proof fn later_components_coincide<S: Scalar>(
    xa: Seq<Seq<S>>,
    xb: Seq<Seq<S>>,
    y: Seq<Seq<S>>,
    p: nat,
    a: nat,
    b: nat,
    j: nat,
)
    requires
        has_width(xa, p),
        has_width(xb, p),
        has_width(y, 1),
        xa.len() == y.len(),
        xb.len() == y.len(),
        pred_state(xa, y, p, 1, a).x == pred_state(xb, y, p, 1, b).x,
        pred_state(xa, y, p, 1, a).y == pred_state(xb, y, p, 1, b).y,
    ensures
        pred_state(xa, y, p, 1, a + j).x == pred_state(xb, y, p, 1, b + j).x,
        pred_state(xa, y, p, 1, a + j).y == pred_state(xb, y, p, 1, b + j).y,
        forall|i: int|
            0 <= i < j ==> #[trigger] pred_state(xa, y, p, 1, a + j).weights[a + i]
                == pred_state(xb, y, p, 1, b + j).weights[b + i],
        forall|i: int|
            0 <= i < j ==> #[trigger] pred_state(xa, y, p, 1, a + j).scores[a + i]
                == pred_state(xb, y, p, 1, b + j).scores[b + i],
    decreases j,
{
    if j > 0 {
        let h = (j - 1) as nat;
        later_components_coincide(xa, xb, y, p, a, b, h);
        pred_state_shape(xa, y, p, 1, a + h);
        pred_state_shape(xb, y, p, 1, b + h);
        let (sa, sb) = (pred_state(xa, y, p, 1, a + j), pred_state(xb, y, p, 1, b + j));
        let (ra, rb) = (pred_state(xa, y, p, 1, a + h), pred_state(xb, y, p, 1, b + h));
        assert(sa == pred_step(ra, p, 1) && sb == pred_step(rb, p, 1));
        assert forall|i: int| 0 <= i < j implies #[trigger] sa.weights[a + i] == sb.weights[b + i]
            && sa.scores[a + i] == sb.scores[b + i] by {
            if i < h {
                assert(sa.weights[a + i] == ra.weights[a + i]);
                assert(sb.weights[b + i] == rb.weights[b + i]);
                assert(ra.weights[a + i] == rb.weights[b + i]);
                assert(sa.scores[a + i] == ra.scores[a + i]);
                assert(sb.scores[b + i] == rb.scores[b + i]);
                assert(ra.scores[a + i] == rb.scores[b + i]);
            }
        }
    }
}

/// The coefficients of a single response are a combination of the weight vectors.
proof fn coefficients_in_span<S: ExactScalar>(
    weights: Seq<Seq<S>>,
    loadings_x: Seq<Seq<S>>,
    loadings_y: Seq<Seq<S>>,
    p: nat,
)
    requires
        has_width(weights, p),
        has_width(loadings_x, p),
        has_width(loadings_y, 1),
        loadings_x.len() == weights.len(),
        loadings_y.len() == weights.len(),
    ensures
        ({
            let b = spec_coefficients(
                transposed(weights, p),
                transposed(loadings_x, p),
                transposed(loadings_y, 1),
                weights.len(),
            );
            &&& b.len() == p
            &&& in_span(spec_column(b, 0), weights, p)
        }),
{
    let k = weights.len();
    let (w, l, c) = (
        transposed(weights, p),
        transposed(loadings_x, p),
        transposed(loadings_y, 1),
    );
    transposed_twice(loadings_x, p);
    transposed_twice(loadings_y, 1);
    let square = loadings_by_weights(l, w, k);
    let r = spec_inverse(square);
    inverse_shape(square);
    let b = spec_column(spec_coefficients(w, l, c, k), 0);
    let y = spec_column(loadings_y, 0);
    let q = spec_dot_mv(r, y);
    assert forall|j: int| 0 <= j < p implies b[j] == row_times(q, weights, p)[j] by {
        row_times_dot(w[j], r, y, k);
        dot_commutes(w[j], q, k as int);
    }
    assert(b =~= row_times(q, weights, p));
    assert(combines(b, q, weights, p));
}

/// A combination of the weight vectors that the data map to zero is zero.
proof fn regression_is_unique<S: ExactScalar>(
    x: Seq<Seq<S>>,
    y: Seq<Seq<S>>,
    p: nat,
    k: nat,
    v: Seq<S>,
)
    requires
        has_width(x, p),
        has_width(y, 1),
        x.len() == y.len(),
        nondegenerate(pred_state(x, y, p, 1, k).scores),
        ({
            let s = pred_state(x, y, p, 1, k);
            nonsingular(
                loadings_by_weights(transposed(s.loadings_x, p), transposed(s.weights, p), k),
            )
        }),
        in_span(v, pred_state(x, y, p, 1, k).weights, p),
        spec_dot_mv(x, v) == spec_zeros::<S>(x.len()),
    ensures
        v == spec_zeros::<S>(p),
{
    let n = x.len();
    let s = pred_state(x, y, p, 1, k);
    let m = loadings_by_weights(transposed(s.loadings_x, p), transposed(s.weights, p), k);
    let r = spec_inverse(m);
    let a = choose|a: Seq<S>| combines(v, a, s.weights, p);
    let q = spec_dot_mv(s.loadings_x, v);
    pred_state_shape(x, y, p, 1, k);
    transposed_twice(s.weights, p);
    transposed_twice(s.loadings_x, p);

    // P^T v is zero
    combinations_leave_nothing(x, y, p, k, v);
    let zero = spec_zeros::<S>(n);
    assert(combines(zero, q, s.scores, n));
    predictive_extraction_peels(x, y, p, 1, k);
    nondegenerate_is_regular(x, s.weights, p, k);
    scores_are_orthogonal(x, s.weights, p, k);
    assert forall|b: int, c: int|
        0 <= b < s.scores.len() && 0 <= c < s.scores.len() && b != c implies spec_dot(
        #[trigger] s.scores[b],
        #[trigger] s.scores[c],
    ) == S::spec_zero() by {
        assert(s.scores[b] == peel_score(x, s.weights, p, b as nat));
        assert(s.scores[c] == peel_score(x, s.weights, p, c as nat));
    }
    assert forall|b: int| 0 <= b < k implies spec_dot(#[trigger] s.scores[b], zero)
        == S::spec_zero() by {
        assert(s.scores[b].len() == n);
        dot_zeros(zero, s.scores[b], n as int);
    }
    orthogonal_combination_is_zero(zero, q, s.scores, n);

    // P^T v == M a, so a is zero
    assert(m.len() == k);
    assert(has_width(m, k));
    let ma = spec_dot_mv(m, a);
    assert forall|b: int| 0 <= b < k implies #[trigger] ma[b] == S::spec_zero() by {
        let l = s.loadings_x[b];
        assert(l.len() == p);
        let row = spec_dot_mv(s.weights, l);
        assert forall|c: int| 0 <= c < k implies m[b][c] == row[c] by {
            assert(s.weights[c].len() == p);
            dot_commutes(l, s.weights[c], p as int);
        }
        assert(m[b] =~= row);
        row_times_dot(a, s.weights, l, p);
        dot_commutes(l, v, p as int);
        dot_commutes(a, row, k as int);
        assert(q[b] == S::spec_zero());
    }
    inverse_shape(m);
    inverse_times_matrix(m);
    assert forall|b: int| 0 <= b < k implies #[trigger] a[b] == S::spec_zero() by {
        assert(r[b].len() == k);
        row_times_dot(r[b], m, a, k);
        assert(spec_product(r, m, k)[b] == unit::<S>(b, k));
        dot_unit(a, b);
        dot_zeros(ma, r[b], k as int);
    }
    assert forall|j: int| 0 <= j < p implies v[j] == S::spec_zero() by {
        dot_zeros(a, spec_column(s.weights, j), k as int);
    }
    assert(v =~= spec_zeros::<S>(p));
}

/// Both ways regress by the same coefficients: those of `j + 1` components after `k`
/// orthogonal ones, pulled back to unfiltered data, are those of `k + 1 + j` predictive
/// components.
proof fn coefficients_agree<S: ExactScalar>(
    x: Seq<Seq<S>>,
    y: Seq<Seq<S>>,
    w: Seq<S>,
    p: nat,
    k: nat,
    j: nat,
    b1: Seq<Seq<S>>,
    b2: Seq<Seq<S>>,
)
    requires
        has_width(x, p),
        has_width(y, 1),
        x.len() == y.len(),
        w == x_weight(x, spec_column(y, 0), p),
        spec_dot(w, w) != S::spec_zero(),
        nondegenerate(orth_state(x, w, p, k).scores),
        forall|a: nat|
            a <= k ==> nondegenerate(
                #[trigger] pred_state(orth_state(x, w, p, a).x, y, p, 1, 1).scores,
            ),
        nondegenerate(pred_state(x, y, p, 1, k + 1 + j).scores),
        ({
            let s = pred_state(orth_state(x, w, p, k).x, y, p, 1, 1 + j);
            &&& nonsingular(
                loadings_by_weights(
                    transposed(s.loadings_x, p),
                    transposed(s.weights, p),
                    1 + j,
                ),
            )
            &&& b1 == spec_coefficients(
                transposed(s.weights, p),
                transposed(s.loadings_x, p),
                transposed(s.loadings_y, 1),
                1 + j,
            )
        }),
        ({
            let s = pred_state(x, y, p, 1, k + 1 + j);
            &&& nonsingular(
                loadings_by_weights(
                    transposed(s.loadings_x, p),
                    transposed(s.weights, p),
                    k + 1 + j,
                ),
            )
            &&& b2 == spec_coefficients(
                transposed(s.weights, p),
                transposed(s.loadings_x, p),
                transposed(s.loadings_y, 1),
                k + 1 + j,
            )
        }),
    ensures
        b1.len() == p,
        b2.len() == p,
        ({
            let o = orth_state(x, w, p, k);
            pulled_back(
                spec_column(b1, 0),
                transposed(o.weights, p),
                transposed(o.loadings, p),
                k,
            ) == spec_column(b2, 0)
        }),
{
    let n = x.len();
    let o = orth_state(x, w, p, k);
    let few = pred_state(o.x, y, p, 1, 1 + j);
    let start = pred_state(x, y, p, 1, k + 1);
    let s = pred_state(x, y, p, 1, k + 1 + j);
    let (wo, lo) = (transposed(o.weights, p), transposed(o.loadings, p));
    let (c1, c2) = (spec_column(b1, 0), spec_column(b2, 0));
    orth_state_shape(x, w, p, k);
    pred_state_shape(o.x, y, p, 1, 1 + j);
    pred_state_shape(x, y, p, 1, k + 1);
    pred_state_shape(x, y, p, 1, k + 1 + j);
    pred_state_prefix(x, y, p, 1, k + 1, k + 1 + j);
    pred_state_prefix(o.x, y, p, 1, 1, 1 + j);
    assert(nondegenerate(start.scores)) by {
        assert forall|a: int| 0 <= a < k + 1 implies spec_dot(
            #[trigger] start.scores[a],
            start.scores[a],
        ) != S::spec_zero() by {
            assert(s.scores[a] == start.scores[a]);
        }
    }
    assert(nondegenerate(pred_state(orth_state(x, w, p, k).x, y, p, 1, 1).scores));
    orthogonal_components_leave_the_same(x, y, w, p, k);
    filtered_component(x, y, w, p, k);
    first_weight(x, y, p, k);
    later_components_coincide(o.x, x, y, p, 1, k + 1, j);
    coefficients_in_span(few.weights, few.loadings_x, few.loadings_y, p);
    coefficients_in_span(s.weights, s.loadings_x, s.loadings_y, p);

    // The weight vectors of the filtered data are among those of the unfiltered data.
    let one = pred_state(o.x, y, p, 1, 1);
    assert forall|a: int| 0 <= a < 1 + j implies in_span(
        #[trigger] few.weights[a],
        s.weights,
        p,
    ) by {
        if a == 0 {
            assert(few.weights[0] == one.weights[0]);
            assert(s.weights[0] == start.weights[0]);
            span_holds(s.weights, 0, p);
        } else {
            assert(few.weights[1 + (a - 1)] == s.weights[k + 1 + (a - 1)]);
            span_holds(s.weights, k + 1 + (a - 1), p);
        }
    }
    assert(nondegenerate(few.scores)) by {
        assert forall|a: int| 0 <= a < 1 + j implies spec_dot(
            #[trigger] few.scores[a],
            few.scores[a],
        ) != S::spec_zero() by {
            if a == 0 {
                assert(few.scores[0] == one.scores[0]);
            } else {
                assert(few.scores[1 + (a - 1)] == s.scores[k + 1 + (a - 1)]);
            }
        }
    }
    span_is_transitive(c1, few.weights, s.weights, p);
    assert forall|b: int| 0 <= b < k + 1 implies in_span(
        #[trigger] start.weights[b],
        s.weights,
        p,
    ) by {
        assert(s.weights[b] == start.weights[b]);
        span_holds(s.weights, b, p);
    }
    pulled_back_by_parallel(x, y, w, p, k, k, c1, s.weights);
    let v = pulled_back(c1, wo, lo, k);

    // The difference is a combination of the weight vectors that the data map to zero.
    let minus = S::spec_one().spec_neg();
    let d = Seq::new(p, |l: int| v[l].spec_add(minus.spec_mul(c2[l])));
    span_combines(d, v, minus, c2, s.weights, p);
    filter_follows(x, w, p, k, k);
    assert forall|i: int| 0 <= i < n implies spec_dot_mv(x, d)[i] == S::spec_zero() by {
        assert(x[i].len() == p);
        filter_is_linear(x, wo, lo, k, c1, p, i);
        regression_reproduces(o.x, y, p, 1, 1 + j, i);
        regression_reproduces(x, y, p, 1, k + 1 + j, i);
        responses_decompose(o.x, y, p, 1, 1 + j, i, 0);
        responses_decompose(x, y, p, 1, k + 1 + j, i, 0);
        let (f1, f2) = (spec_dot(o.x[i], c1), spec_dot(x[i], c2));
        assert(row_times(o.x[i], b1, 1)[0] == f1);
        assert(row_times(x[i], b2, 1)[0] == f2);
        let e = s.y[i][0];
        S::add_commutes(e, f1);
        S::add_commutes(e, f2);
        add_cancel(f1, f2, e);
        dot_linear_right(x[i], d, v, minus, c2, p as int);
        one_mul(f2);
        neg_mul(S::spec_one(), f2);
        S::add_neg(f2);
    }
    assert(spec_dot_mv(x, d) =~= spec_zeros::<S>(n));
    regression_is_unique(x, y, p, k + 1 + j, d);
    assert forall|l: int| 0 <= l < p implies v[l] == c2[l] by {
        assert(d[l] == S::spec_zero());
        one_mul(c2[l]);
        neg_mul(S::spec_one(), c2[l]);
        S::add_neg(c2[l]);
        add_cancel(v[l], c2[l], c2[l].spec_neg());
    }
    assert(v =~= c2);
}

/// A model with `n_pred` predictive and `k` orthogonal components predicts of a single
/// response, for all new data, what a model with `k + n_pred` predictive components
/// predicts.
pub proof fn orthogonal_components_keep_predictions<S: ExactScalar>(
    z: Seq<Seq<S>>,
    y: Seq<Seq<S>>,
    p: nat,
    n_pred: nat,
    k: nat,
    new: Seq<Seq<S>>,
)
    requires
        has_width(z, p),
        has_width(y, 1),
        z.len() == y.len(),
        has_width(new, p),
        n_pred > 0,
        solvable(z, y, p, 1, n_pred, k),
        solvable(z, y, p, 1, k + n_pred, 0),
        ({
            let w = spec_component(centered(z, p), centered(y, 1), p, 1).0;
            spec_dot(w, w) != S::spec_zero()
        }),
        nondegenerate(orth_fit(z, y, p, 1, k).scores),
        forall|a: nat|
            a <= k ==> nondegenerate(#[trigger] pred_fit(z, y, p, 1, 1, a).scores),
        nondegenerate(pred_fit(z, y, p, 1, k + n_pred, 0).scores),
    ensures
        predicted(fitted(z, y, p, 1, n_pred, k), k, 1, new) == predicted(
            fitted(z, y, p, 1, k + n_pred, 0),
            0,
            1,
            new,
        ),
{
    let (xc, yc) = (centered(z, p), centered(y, 1));
    let w = spec_component(xc, yc, p, 1).0;
    let (few, all) = (fitted(z, y, p, 1, n_pred, k), fitted(z, y, p, 1, k + n_pred, 0));
    let (b1, b2) = (few.coefficients, all.coefficients);
    let j = (n_pred - 1) as nat;
    centered_shape(z, p);
    centered_shape(y, 1);
    orth_state_shape(xc, w, p, k);
    assert(orth_fit(z, y, p, 1, 0).x == xc);
    assert(n_pred == 1 + j && k + n_pred == k + 1 + j);
    assert forall|a: nat| a <= k implies nondegenerate(
        #[trigger] pred_state(orth_state(xc, w, p, a).x, yc, p, 1, 1).scores,
    ) by {
        assert(nondegenerate(pred_fit(z, y, p, 1, 1, a).scores));
    }
    coefficients_agree(xc, yc, w, p, k, j, b1, b2);
    let (p1, p2) = (predicted(few, k, 1, new), predicted(all, 0, 1, new));
    let shifted = rows_minus(new, few.x_mean);
    assert(has_width(shifted, p)) by {
        assert forall|i: int| 0 <= i < new.len() implies (#[trigger] shifted[i]).len() == p by {
            assert(new[i].len() == p);
        }
    }
    filtered_shape(shifted, few.weights_orth, few.loadings_orth, k, p);
    assert forall|i: int| 0 <= i < new.len() implies p1[i] == p2[i] by {
        filter_is_linear(
            shifted,
            few.weights_orth,
            few.loadings_orth,
            k,
            spec_column(b1, 0),
            p,
            i,
        );
        assert(p1[i][0] == p2[i][0]);
        assert(p1[i] =~= p2[i]);
    }
    assert(p1 =~= p2);
}

} // verus!
