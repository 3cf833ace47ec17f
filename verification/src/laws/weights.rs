//! The weight vectors of a fit, and how loadings meet them.
use crate::laws::algebra::{dot_commutes, dot_linear_right, dot_zeros, mul_zero, sub_mul, sub_zero};
use crate::laws::orthogonality::{
    last_score_len, orth_state_shape, orthogonal_to_normalized, orthogonal_weights,
    y_score_of_fit,
};
use crate::laws::peeling::{
    ignored_stays_ignored, loading_dot, loadings_meet_weights, nondegenerate,
    nondegenerate_is_regular, orthogonal_extraction_peels, peel_loading, peel_prefix, peel_shape,
    peeled, predictive_extraction_peels, regular, residual_ignores_weights,
};
use crate::laws::products::adjoint;
use crate::laws::training::{
    centered_shape, component_shape, orth_state_prefix, pred_state_prefix, pred_state_shape,
    transposed_twice,
};
use crate::matrix::{has_width, spec_column, spec_dot_mtv, spec_dot_mv, transposed};
use crate::model::{
    centered, fitted, orth_fit, orth_state, orthogonal_part, pred_fit, pred_state, solvable,
    spec_component, MAX_ITER, TOLERANCE_SCALE,
};
use crate::nipals::{loading, x_weight};
use crate::scalar::{spec_reciprocal, ExactScalar, Scalar};
use crate::solve::{
    acceptable, augmented, eliminated, lemma_eliminated_shape, loadings_by_weights, nonsingular,
    pivot_row_prefix, pivoted, spec_pivot,
};
use crate::vector::{divided, minus_scaled, normalized, spec_dot, spec_zeros};
use vstd::prelude::*;

verus! {

/// The weight vector of a component comes from a Y-score.
pub proof fn component_weight<S: Scalar>(x: Seq<Seq<S>>, y: Seq<Seq<S>>, p: nat, m: nat)
    ensures
        spec_component(x, y, p, m).0 == x_weight(x, y_score_of_fit(x, y, p, m), p),
        y_score_of_fit(x, y, p, m).len() == y.len(),
{
    if m != 1 {
        last_score_len(
            x,
            y,
            p,
            m,
            spec_column(y, 0),
            MAX_ITER as nat,
            spec_reciprocal::<S>(TOLERANCE_SCALE),
        );
    }
}

/// What the data map to zero is orthogonal to every weight vector that they give.
proof fn weight_avoids<S: ExactScalar>(x: Seq<Seq<S>>, u: Seq<S>, v: Seq<S>, p: nat)
    requires
        has_width(x, p),
        u.len() == x.len(),
        v.len() == p,
        spec_dot_mv(x, v) == spec_zeros::<S>(x.len()),
    ensures
        spec_dot(v, x_weight(x, u, p)) == S::spec_zero(),
{
    let g = spec_dot_mtv(x, u, p);
    adjoint(x, u, v, p);
    dot_zeros(spec_dot_mv(x, v), u, u.len() as int);
    dot_commutes(g, v, p as int);
    orthogonal_to_normalized(v, g);
}

/// Predictive component `b`: its weight vector comes from what the components before leave.
proof fn predictive_weight_of<S: Scalar>(
    x: Seq<Seq<S>>,
    y: Seq<Seq<S>>,
    p: nat,
    m: nat,
    k: nat,
    b: nat,
)
    requires
        has_width(x, p),
        has_width(y, m),
        x.len() == y.len(),
        b < k,
    ensures
        ({
            let s = pred_state(x, y, p, m, k);
            let left = pred_state(x, y, p, m, b);
            &&& left.x == peeled(x, s.weights, p, b)
            &&& s.weights[b as int] == spec_component(left.x, left.y, p, m).0
        }),
{
    let s = pred_state(x, y, p, m, k);
    let left = pred_state(x, y, p, m, b);
    pred_state_shape(x, y, p, m, b);
    pred_state_shape(x, y, p, m, k);
    pred_state_prefix(x, y, p, m, b, k);
    pred_state_prefix(x, y, p, m, b + 1, k);
    predictive_extraction_peels(x, y, p, m, b);
    peel_prefix(x, left.weights, s.weights, p, b);
    assert(s.weights[b as int] == pred_state(x, y, p, m, b + 1).weights[b as int]);
}

/// Predictive weight vectors are orthogonal to one another.
pub proof fn predictive_weights_are_orthogonal<S: ExactScalar>(
    x: Seq<Seq<S>>,
    y: Seq<Seq<S>>,
    p: nat,
    m: nat,
    k: nat,
)
    requires
        has_width(x, p),
        has_width(y, m),
        x.len() == y.len(),
        nondegenerate(pred_state(x, y, p, m, k).scores),
    ensures
        forall|a: int, b: int|
            0 <= a < k && 0 <= b < k && a != b ==> spec_dot(
                #[trigger] pred_state(x, y, p, m, k).weights[a],
                #[trigger] pred_state(x, y, p, m, k).weights[b],
            ) == S::spec_zero(),
{
    let s = pred_state(x, y, p, m, k);
    pred_state_shape(x, y, p, m, k);
    predictive_extraction_peels(x, y, p, m, k);
    nondegenerate_is_regular(x, s.weights, p, k);
    assert forall|a: int, b: int| 0 <= a < b < k implies spec_dot(
        #[trigger] s.weights[a],
        #[trigger] s.weights[b],
    ) == S::spec_zero() && spec_dot(s.weights[b], s.weights[a]) == S::spec_zero() by {
        let left = pred_state(x, y, p, m, b as nat);
        pred_state_shape(x, y, p, m, b as nat);
        predictive_weight_of(x, y, p, m, k, b as nat);
        assert(s.weights[a].len() == p && s.weights[b].len() == p);
        residual_ignores_weights(x, s.weights, p, b as nat, a as nat);
        component_weight(left.x, left.y, p, m);
        weight_avoids(left.x, y_score_of_fit(left.x, left.y, p, m), s.weights[a], p);
        dot_commutes(s.weights[a], s.weights[b], p as int);
    }
}

/// The score of the weight vector `w` after `b` orthogonal components.
pub open spec fn score_after<S: Scalar>(x: Seq<Seq<S>>, w: Seq<S>, p: nat, b: nat) -> Seq<S> {
    spec_dot_mv(orth_state(x, w, p, b).x, w)
}

/// Orthogonal weight vectors are orthogonal to one another.
pub proof fn orthogonal_weights_are_orthogonal<S: ExactScalar>(
    x: Seq<Seq<S>>,
    w: Seq<S>,
    p: nat,
    k: nat,
)
    requires
        has_width(x, p),
        w.len() == p,
        spec_dot(w, w) != S::spec_zero(),
        nondegenerate(orth_state(x, w, p, k).scores),
        forall|b: nat|
            b < k ==> spec_dot(#[trigger] score_after(x, w, p, b), score_after(x, w, p, b))
                != S::spec_zero(),
    ensures
        forall|a: int, b: int|
            0 <= a < k && 0 <= b < k && a != b ==> spec_dot(
                #[trigger] orth_state(x, w, p, k).weights[a],
                #[trigger] orth_state(x, w, p, k).weights[b],
            ) == S::spec_zero(),
{
    let s = orth_state(x, w, p, k);
    orth_state_shape(x, w, p, k);
    orthogonal_extraction_peels(x, w, p, k);
    nondegenerate_is_regular(x, s.weights, p, k);
    assert forall|a: int, b: int| 0 <= a < b < k implies spec_dot(
        #[trigger] s.weights[a],
        #[trigger] s.weights[b],
    ) == S::spec_zero() && spec_dot(s.weights[b], s.weights[a]) == S::spec_zero() by {
        let v = s.weights[a];
        let h = b as nat;
        let left = orth_state(x, w, p, h);
        let t = score_after(x, w, p, h);
        let l = loading(left.x, t, p);
        let q = orthogonal_part(l, w);
        orth_state_shape(x, w, p, h);
        orth_state_prefix(x, w, p, h, k);
        orth_state_prefix(x, w, p, h + 1, k);
        orthogonal_extraction_peels(x, w, p, h);
        peel_prefix(x, left.weights, s.weights, p, h);
        assert(v.len() == p && s.weights[b].len() == p);
        assert(s.weights[b] == orth_state(x, w, p, h + 1).weights[b]);
        assert(s.weights[b] == normalized(q));
        // The loading is orthogonal to the earlier weight vector, and so is `w`.
        residual_ignores_weights(x, s.weights, p, h, a as nat);
        assert(spec_dot(t, t) != S::spec_zero());
        loading_dot(left.x, t, v, p);
        dot_zeros(spec_dot_mv(left.x, v), t, t.len() as int);
        mul_zero(S::spec_one().spec_div(spec_dot(t, t)));
        dot_commutes(l, v, p as int);
        orthogonal_weights(x, w, p, k, a);
        dot_commutes(w, v, p as int);
        // So is the part of the loading that is orthogonal to `w`.
        let c = spec_dot(w, l).spec_div(spec_dot(w, w));
        assert forall|i: int| 0 <= i < p implies #[trigger] q[i] == l[i].spec_add(
            c.spec_neg().spec_mul(w[i]),
        ) by {
            S::mul_commutes(w[i], c);
            sub_mul(l[i], c, w[i]);
        }
        dot_linear_right(v, q, l, c.spec_neg(), w, p as int);
        mul_zero(c.spec_neg());
        S::add_zero(S::spec_zero());
        orthogonal_to_normalized(v, q);
        dot_commutes(v, s.weights[b], p as int);
    }
}

/// All weight vectors of a fit are orthogonal to one another: those of two predictive
/// components, of two orthogonal components, and of one of each.
pub proof fn weights_of_fit_are_orthogonal<S: ExactScalar>(
    z: Seq<Seq<S>>,
    y: Seq<Seq<S>>,
    p: nat,
    m: nat,
    n_pred: nat,
    n_orth: nat,
)
    requires
        has_width(z, p),
        has_width(y, m),
        z.len() == y.len(),
        ({
            let xc = centered(z, p);
            let w = spec_component(xc, centered(y, m), p, m).0;
            &&& spec_dot(w, w) != S::spec_zero()
            &&& forall|b: nat|
                b < n_orth ==> spec_dot(
                    #[trigger] score_after(xc, w, p, b),
                    score_after(xc, w, p, b),
                ) != S::spec_zero()
        }),
        nondegenerate(orth_fit(z, y, p, m, n_orth).scores),
        nondegenerate(pred_fit(z, y, p, m, n_pred, n_orth).scores),
    ensures
        ({
            let orth = orth_fit(z, y, p, m, n_orth).weights;
            let pred = pred_fit(z, y, p, m, n_pred, n_orth).weights;
            &&& forall|a: int, b: int|
                0 <= a < n_orth && 0 <= b < n_orth && a != b ==> spec_dot(
                    #[trigger] orth[a],
                    #[trigger] orth[b],
                ) == S::spec_zero()
            &&& forall|a: int, b: int|
                0 <= a < n_pred && 0 <= b < n_pred && a != b ==> spec_dot(
                    #[trigger] pred[a],
                    #[trigger] pred[b],
                ) == S::spec_zero()
            &&& forall|a: int, b: int|
                0 <= a < n_orth && 0 <= b < n_pred ==> spec_dot(
                    #[trigger] orth[a],
                    #[trigger] pred[b],
                ) == S::spec_zero()
        }),
{
    let (xc, yc) = (centered(z, p), centered(y, m));
    let w = spec_component(xc, yc, p, m).0;
    let o = orth_fit(z, y, p, m, n_orth);
    let s = pred_fit(z, y, p, m, n_pred, n_orth);
    centered_shape(z, p);
    centered_shape(y, m);
    component_shape(xc, yc, p, m);
    orth_state_shape(xc, w, p, n_orth);
    pred_state_shape(o.x, yc, p, m, n_pred);
    orthogonal_weights_are_orthogonal(xc, w, p, n_orth);
    predictive_weights_are_orthogonal(o.x, yc, p, m, n_pred);
    orthogonal_extraction_peels(xc, w, p, n_orth);
    nondegenerate_is_regular(xc, o.weights, p, n_orth);
    predictive_extraction_peels(o.x, yc, p, m, n_pred);
    nondegenerate_is_regular(o.x, s.weights, p, n_pred);
    assert forall|a: int, b: int| 0 <= a < n_orth && 0 <= b < n_pred implies spec_dot(
        #[trigger] o.weights[a],
        #[trigger] s.weights[b],
    ) == S::spec_zero() by {
        let v = o.weights[a];
        let left = pred_state(o.x, yc, p, m, b as nat);
        assert(v.len() == p);
        residual_ignores_weights(xc, o.weights, p, n_orth, a as nat);
        pred_state_shape(o.x, yc, p, m, b as nat);
        predictive_weight_of(o.x, yc, p, m, n_pred, b as nat);
        ignored_stays_ignored(o.x, s.weights, p, b as nat, v);
        component_weight(left.x, left.y, p, m);
        weight_avoids(left.x, y_score_of_fit(left.x, left.y, p, m), v, p);
    }
}

/// Ones on the diagonal, and zeros below.
pub open spec fn unit_upper_triangular<S: Scalar>(m: Seq<Seq<S>>) -> bool {
    forall|a: int, b: int|
        0 <= b <= a < m.len() ==> #[trigger] m[a][b] == (if a == b {
            S::spec_one()
        } else {
            S::spec_zero()
        })
}

proof fn peel_is_triangular<S: ExactScalar>(
    x: Seq<Seq<S>>,
    weights: Seq<Seq<S>>,
    loadings: Seq<Seq<S>>,
    p: nat,
    k: nat,
)
    requires
        has_width(x, p),
        has_width(weights, p),
        weights.len() == k,
        loadings.len() == k,
        forall|a: int|
            0 <= a < k ==> #[trigger] loadings[a] == peel_loading(x, weights, p, a as nat),
        regular(x, weights, p, k),
    ensures
        unit_upper_triangular(
            loadings_by_weights(transposed(loadings, p), transposed(weights, p), k),
        ),
{
    let m = loadings_by_weights(transposed(loadings, p), transposed(weights, p), k);
    assert(has_width(loadings, p)) by {
        assert forall|a: int| 0 <= a < k implies (#[trigger] loadings[a]).len() == p by {
            peel_shape(x, weights, p, a as nat);
        }
    }
    transposed_twice(weights, p);
    transposed_twice(loadings, p);
    assert forall|a: int, b: int| 0 <= b <= a < k implies #[trigger] m[a][b] == (if a == b {
        S::spec_one()
    } else {
        S::spec_zero()
    }) by {
        assert(weights[b].len() == p);
        assert(spec_column(transposed(weights, p), b) == weights[b]);
        assert(m[a][b] == spec_dot(loadings[a], weights[b]));
        loadings_meet_weights(x, weights, p, k, a as nat, b as nat);
    }
}

/// `P^T W` of a fit is upper triangular with ones on the diagonal, for the predictive and
/// for the orthogonal components.
pub proof fn loadings_by_weights_is_triangular<S: ExactScalar>(
    z: Seq<Seq<S>>,
    y: Seq<Seq<S>>,
    p: nat,
    m: nat,
    n_pred: nat,
    n_orth: nat,
)
    requires
        has_width(z, p),
        has_width(y, m),
        z.len() == y.len(),
    ensures
        ({
            let model = fitted(z, y, p, m, n_pred, n_orth);
            &&& nondegenerate(pred_fit(z, y, p, m, n_pred, n_orth).scores)
                ==> unit_upper_triangular(
                loadings_by_weights(model.loadings_x, model.weights, n_pred),
            )
            &&& nondegenerate(orth_fit(z, y, p, m, n_orth).scores) ==> unit_upper_triangular(
                loadings_by_weights(model.loadings_orth, model.weights_orth, n_orth),
            )
        }),
{
    let (xc, yc) = (centered(z, p), centered(y, m));
    let w = spec_component(xc, yc, p, m).0;
    let o = orth_fit(z, y, p, m, n_orth);
    let s = pred_fit(z, y, p, m, n_pred, n_orth);
    centered_shape(z, p);
    centered_shape(y, m);
    component_shape(xc, yc, p, m);
    orth_state_shape(xc, w, p, n_orth);
    pred_state_shape(o.x, yc, p, m, n_pred);
    orthogonal_extraction_peels(xc, w, p, n_orth);
    predictive_extraction_peels(o.x, yc, p, m, n_pred);
    if nondegenerate(s.scores) {
        nondegenerate_is_regular(o.x, s.weights, p, n_pred);
        peel_is_triangular(o.x, s.weights, s.loadings_x, p, n_pred);
    }
    if nondegenerate(o.scores) {
        nondegenerate_is_regular(xc, o.weights, p, n_orth);
        peel_is_triangular(xc, o.weights, o.loadings, p, n_orth);
    }
}

/// The pivot of a column whose elements below the diagonal are zero is on the diagonal.
proof fn pivot_stays<S: ExactScalar>(e: Seq<Seq<S>>, c: int, k: int)
    requires
        0 <= c < k <= e.len(),
        forall|r: int| c < r < e.len() ==> (#[trigger] e[r])[c] == S::spec_zero(),
    ensures
        pivot_row_prefix(e, c, k) == c,
    decreases k,
{
    if k > c + 1 {
        pivot_stays(e, c, k - 1);
        assert(e[k - 1][c] == S::spec_zero());
        S::zero_is_least(e[c][c]);
    }
}

/// The elimination of a column leaves the rows below as they are.
proof fn elimination_passes<S: ExactScalar>(m: Seq<Seq<S>>, c: int)
    requires
        has_width(m, m.len()),
        unit_upper_triangular(m),
        0 <= c <= m.len(),
    ensures
        eliminated(augmented(m), c).len() == m.len(),
        forall|r: int|
            c <= r < m.len() ==> #[trigger] eliminated(augmented(m), c)[r] == augmented(m)[r],
        c < m.len() ==> spec_pivot(eliminated(augmented(m), c), c) == S::spec_one(),
        c < m.len() ==> pivoted(eliminated(augmented(m), c), c) == eliminated(augmented(m), c),
    decreases c,
{
    let n = m.len();
    let g = augmented(m);
    let e = eliminated(g, c);
    assert(has_width(g, 2 * n)) by {
        assert forall|r: int| 0 <= r < n implies (#[trigger] g[r]).len() == 2 * n by {
            assert(m[r].len() == n);
        }
    }
    lemma_eliminated_shape(g, c, 2 * n);
    if c > 0 {
        elimination_passes(m, c - 1);
        let before = eliminated(g, c - 1);
        lemma_eliminated_shape(g, c - 1, 2 * n);
        assert forall|r: int| c <= r < n implies #[trigger] e[r] == g[r] by {
            assert(m[r].len() == n);
            assert(before[r] == g[r]);
            assert(m[r][c - 1] == S::spec_zero());
            let lead = divided(before[c - 1], before[c - 1][c - 1]);
            assert(e[r] == minus_scaled(g[r], S::spec_zero(), lead));
            assert forall|i: int| 0 <= i < g[r].len() implies e[r][i] == g[r][i] by {
                mul_zero(lead[i]);
                sub_zero(g[r][i]);
            }
            assert(e[r] =~= g[r]);
        }
    }
    if c < n {
        assert forall|r: int| c < r < n implies (#[trigger] e[r])[c] == S::spec_zero() by {
            assert(e[r] == g[r]);
            assert(m[r].len() == n);
            assert(m[r][c] == S::spec_zero());
        }
        pivot_stays(e, c, n as int);
        assert(pivoted(e, c) =~= e);
        assert(m[c].len() == n);
        assert(e[c] == g[c]);
        assert(m[c][c] == S::spec_one());
    }
}

/// An upper triangular matrix with ones on the diagonal is nonsingular.
pub proof fn triangular_is_nonsingular<S: ExactScalar>(m: Seq<Seq<S>>)
    requires
        has_width(m, m.len()),
        unit_upper_triangular(m),
        acceptable(S::spec_one()),
    ensures
        nonsingular(m),
{
    assert forall|c: int| 0 <= c < m.len() implies acceptable(
        #[trigger] spec_pivot(eliminated(augmented(m), c), c),
    ) by {
        elimination_passes(m, c);
    }
}

/// A fit none of whose predictive scores is degenerate has a solution.
pub proof fn regular_fit_is_solvable<S: ExactScalar>(
    z: Seq<Seq<S>>,
    y: Seq<Seq<S>>,
    p: nat,
    m: nat,
    n_pred: nat,
    n_orth: nat,
)
    requires
        has_width(z, p),
        has_width(y, m),
        z.len() == y.len(),
        acceptable(S::spec_one()),
        nondegenerate(pred_fit(z, y, p, m, n_pred, n_orth).scores),
    ensures
        solvable(z, y, p, m, n_pred, n_orth),
{
    let s = pred_fit(z, y, p, m, n_pred, n_orth);
    let square = loadings_by_weights(
        transposed(s.loadings_x, p),
        transposed(s.weights, p),
        n_pred,
    );
    loadings_by_weights_is_triangular(z, y, p, m, n_pred, n_orth);
    assert(has_width(square, square.len()));
    triangular_is_nonsingular(square);
}

} // verus!
