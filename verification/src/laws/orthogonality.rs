//! What is orthogonal to what.
use crate::laws::algebra::{
    div_is_mul, dot_commutes, dot_linear, dot_linear_right, dot_zeros, mul_zero, neg_mul,
    one_mul, sub_mul, zero_add,
};
use crate::laws::peeling::{
    nondegenerate, nondegenerate_is_regular, orthogonal_extraction_peels, peel_score,
    scores_are_orthogonal,
};
use crate::laws::products::adjoint;
use crate::matrix::{
    deflated, has_width, spec_column, spec_dot_mtv, spec_dot_mv,
};
use crate::model::{
    centered, orth_fit, orth_state, orth_step, orthogonal_part, spec_component, MAX_ITER,
    TOLERANCE_SCALE,
};
use crate::nipals::{last_score, loading, next_score, x_weight};
use crate::scalar::{spec_reciprocal, ExactScalar, Scalar};
use crate::vector::{divided, normalized, spec_dot, spec_norm, spec_zeros};
use vstd::prelude::*;

verus! {

/// Dividing by a number other than zero multiplies by its reciprocal.
pub proof fn divided_is_multiple<S: ExactScalar>(v: Seq<S>, d: S)
    requires
        d != S::spec_zero(),
    ensures
        forall|i: int|
            0 <= i < v.len() ==> #[trigger] divided(v, d)[i] == S::spec_one().spec_div(d).spec_mul(
                v[i],
            ),
        forall|i: int| 0 <= i < v.len() ==> v[i] == d.spec_mul(#[trigger] divided(v, d)[i]),
{
    assert forall|i: int| 0 <= i < v.len() implies #[trigger] divided(v, d)[i]
        == S::spec_one().spec_div(d).spec_mul(v[i]) && v[i] == d.spec_mul(divided(v, d)[i]) by {
        div_is_mul(v[i], d);
        S::div_mul(v[i], d);
        S::mul_commutes(v[i].spec_div(d), d);
    }
}

/// The inner product with a multiple.
pub proof fn dot_multiple<S: ExactScalar>(u: Seq<S>, c: Seq<S>, s: S, v: Seq<S>)
    requires
        c.len() == v.len(),
        forall|i: int| 0 <= i < v.len() ==> #[trigger] c[i] == s.spec_mul(v[i]),
        u.len() == v.len(),
    ensures
        spec_dot(u, c) == s.spec_mul(spec_dot(u, v)),
        spec_dot(c, u) == s.spec_mul(spec_dot(u, v)),
{
    let n = v.len();
    let z = spec_zeros::<S>(n);
    assert forall|i: int| 0 <= i < n implies #[trigger] c[i] == z[i].spec_add(s.spec_mul(v[i])) by {
        zero_add(s.spec_mul(v[i]));
    }
    dot_linear_right(u, c, z, s, v, n as int);
    dot_zeros(z, u, n as int);
    zero_add(s.spec_mul(spec_dot(u, v)));
    dot_commutes(c, u, n as int);
}

/// A vector is a multiple of its normalization, and the other way round.
pub proof fn normalized_is_multiple<S: ExactScalar>(v: Seq<S>) -> (r: (S, S))
    ensures
        normalized(v).len() == v.len(),
        forall|i: int| 0 <= i < v.len() ==> #[trigger] normalized(v)[i] == r.0.spec_mul(v[i]),
        forall|i: int| 0 <= i < v.len() ==> v[i] == r.1.spec_mul(#[trigger] normalized(v)[i]),
{
    let d = spec_norm(v);
    if d.spec_exceeds(S::spec_zero()) {
        S::exceeds_is_irreflexive(d);
        divided_is_multiple(v, d);
        (S::spec_one().spec_div(d), d)
    } else {
        assert forall|i: int| 0 <= i < v.len() implies #[trigger] normalized(v)[i]
            == S::spec_one().spec_mul(v[i]) by {
            one_mul(v[i]);
        }
        (S::spec_one(), S::spec_one())
    }
}

/// A vector whose length has an exact root other than zero is normalized to length one.
pub proof fn normalized_has_unit_length<S: ExactScalar>(v: Seq<S>)
    requires
        spec_norm(v).spec_exceeds(S::spec_zero()),
        spec_norm(v).spec_mul(spec_norm(v)) == spec_dot(v, v),
    ensures
        spec_dot(normalized(v), normalized(v)) == S::spec_one(),
{
    let d = spec_norm(v);
    S::exceeds_is_irreflexive(d);
    divided_is_multiple(v, d);
    let u = normalized(v);
    let i = S::spec_one().spec_div(d);
    dot_multiple(u, u, i, v);
    dot_multiple(v, u, i, v);
    dot_commutes(u, v, v.len() as int);
    // u . u == i * (i * (d * d))
    S::div_mul(S::spec_one(), d);
    S::mul_associates(i, d, d);
    one_mul(d);
}

/// The orthogonal part of a loading is orthogonal to the weight vector.
pub proof fn orthogonal_part_is_orthogonal<S: ExactScalar>(l: Seq<S>, w: Seq<S>)
    requires
        l.len() == w.len(),
        spec_dot(w, w) != S::spec_zero(),
    ensures
        spec_dot(w, orthogonal_part(l, w)) == S::spec_zero(),
{
    let s = spec_dot(w, l).spec_div(spec_dot(w, w));
    let part = orthogonal_part(l, w);
    assert forall|i: int| 0 <= i < w.len() implies #[trigger] part[i] == l[i].spec_add(
        s.spec_neg().spec_mul(w[i]),
    ) by {
        S::mul_commutes(w[i], s);
        sub_mul(l[i], s, w[i]);
    }
    dot_linear_right(w, part, l, s.spec_neg(), w, w.len() as int);
    S::div_mul(spec_dot(w, l), spec_dot(w, w));
    neg_mul(s, spec_dot(w, w));
    S::add_neg(spec_dot(w, l));
}

/// What is orthogonal to a vector is orthogonal to its normalization.
pub proof fn orthogonal_to_normalized<S: ExactScalar>(w: Seq<S>, v: Seq<S>)
    requires
        w.len() == v.len(),
        spec_dot(w, v) == S::spec_zero(),
    ensures
        spec_dot(w, normalized(v)) == S::spec_zero(),
{
    let (k, _) = normalized_is_multiple(v);
    dot_multiple(w, normalized(v), k, v);
    mul_zero(k);
}

/// How a deflation changes the products with a vector:
/// `(X - t l^T)^T u == X^T u - (t . u) l`.
pub proof fn deflated_dot_mtv<S: ExactScalar>(
    x: Seq<Seq<S>>,
    t: Seq<S>,
    l: Seq<S>,
    u: Seq<S>,
    p: nat,
)
    requires
        has_width(x, p),
        t.len() == x.len(),
        u.len() == x.len(),
        l.len() == p,
    ensures
        forall|j: int|
            0 <= j < p ==> #[trigger] spec_dot_mtv(deflated(x, t, l), u, p)[j] == spec_dot_mtv(
                x,
                u,
                p,
            )[j].spec_add(l[j].spec_neg().spec_mul(spec_dot(t, u))),
{
    let d = deflated(x, t, l);
    assert forall|j: int| 0 <= j < p implies #[trigger] spec_dot_mtv(d, u, p)[j] == spec_dot_mtv(
        x,
        u,
        p,
    )[j].spec_add(l[j].spec_neg().spec_mul(spec_dot(t, u))) by {
        let (c, b) = (spec_column(d, j), spec_column(x, j));
        assert forall|i: int| 0 <= i < x.len() implies #[trigger] c[i] == b[i].spec_add(
            l[j].spec_neg().spec_mul(t[i]),
        ) by {
            assert(x[i].len() == p);
            S::mul_commutes(t[i], l[j]);
            sub_mul(b[i], l[j], t[i]);
        }
        dot_linear(c, b, l[j].spec_neg(), t, u, x.len() as int);
    }
}

/// A deflation by a score that is orthogonal to `u` keeps `X^T u`.
pub proof fn deflation_keeps<S: ExactScalar>(
    x: Seq<Seq<S>>,
    t: Seq<S>,
    l: Seq<S>,
    u: Seq<S>,
    p: nat,
)
    requires
        has_width(x, p),
        t.len() == x.len(),
        u.len() == x.len(),
        l.len() == p,
        spec_dot(t, u) == S::spec_zero(),
    ensures
        spec_dot_mtv(deflated(x, t, l), u, p) == spec_dot_mtv(x, u, p),
{
    deflated_dot_mtv(x, t, l, u, p);
    assert forall|j: int| 0 <= j < p implies spec_dot_mtv(deflated(x, t, l), u, p)[j]
        == spec_dot_mtv(x, u, p)[j] by {
        mul_zero(l[j].spec_neg());
        S::add_zero(spec_dot_mtv(x, u, p)[j]);
    }
    assert(spec_dot_mtv(deflated(x, t, l), u, p) =~= spec_dot_mtv(x, u, p));
}

/// A deflation by a score and its loading leaves nothing that correlates with the score.
pub proof fn deflation_clears<S: ExactScalar>(x: Seq<Seq<S>>, t: Seq<S>, p: nat)
    requires
        has_width(x, p),
        t.len() == x.len(),
        spec_dot(t, t) != S::spec_zero(),
    ensures
        spec_dot_mtv(deflated(x, t, loading(x, t, p)), t, p) == spec_zeros::<S>(p),
{
    let l = loading(x, t, p);
    let after = spec_dot_mtv(deflated(x, t, l), t, p);
    deflated_dot_mtv(x, t, l, t, p);
    assert forall|j: int| 0 <= j < p implies after[j] == S::spec_zero() by {
        let g = spec_dot_mtv(x, t, p)[j];
        S::div_mul(g, spec_dot(t, t));
        neg_mul(l[j], spec_dot(t, t));
        S::add_neg(g);
    }
    assert(after =~= spec_zeros::<S>(p));
}

/// Where `X^T u` is zero, `u` is orthogonal to every score `X w`.
pub proof fn orthogonal_to_scores<S: ExactScalar>(
    x: Seq<Seq<S>>,
    u: Seq<S>,
    w: Seq<S>,
    p: nat,
)
    requires
        has_width(x, p),
        u.len() == x.len(),
        w.len() == p,
        spec_dot_mtv(x, u, p) == spec_zeros::<S>(p),
    ensures
        spec_dot(u, spec_dot_mv(x, w)) == S::spec_zero(),
        spec_dot(spec_dot_mv(x, w), u) == S::spec_zero(),
{
    adjoint(x, u, w, p);
    dot_zeros(spec_zeros::<S>(p), w, p as int);
    dot_commutes(u, spec_dot_mv(x, w), u.len() as int);
}

/// The shapes of the extraction of orthogonal components.
pub proof fn orth_state_shape<S: Scalar>(x: Seq<Seq<S>>, w: Seq<S>, p: nat, k: nat)
    requires
        has_width(x, p),
        w.len() == p,
    ensures
        ({
            let s = orth_state(x, w, p, k);
            &&& has_width(s.x, p)
            &&& s.x.len() == x.len()
            &&& s.weights.len() == k
            &&& s.loadings.len() == k
            &&& s.scores.len() == k
            &&& forall|a: int| 0 <= a < k ==> (#[trigger] s.weights[a]).len() == p
            &&& forall|a: int| 0 <= a < k ==> (#[trigger] s.loadings[a]).len() == p
            &&& forall|a: int| 0 <= a < k ==> (#[trigger] s.scores[a]).len() == x.len()
        }),
    decreases k,
{
    if k > 0 {
        let before = orth_state(x, w, p, (k - 1) as nat);
        orth_state_shape(x, w, p, (k - 1) as nat);
        let s = orth_step(before, w, p);
        assert forall|i: int| 0 <= i < s.x.len() implies (#[trigger] s.x[i]).len() == p by {
            assert(before.x[i].len() == p);
        }
    }
}

/// Every orthogonal weight vector is orthogonal to the predictive weight vector.
pub proof fn orthogonal_weights<S: ExactScalar>(
    x: Seq<Seq<S>>,
    w: Seq<S>,
    p: nat,
    k: nat,
    a: int,
)
    requires
        has_width(x, p),
        w.len() == p,
        spec_dot(w, w) != S::spec_zero(),
        0 <= a < k,
    ensures
        spec_dot(w, orth_state(x, w, p, k).weights[a]) == S::spec_zero(),
    decreases k,
{
    let before = orth_state(x, w, p, (k - 1) as nat);
    orth_state_shape(x, w, p, (k - 1) as nat);
    if a == k - 1 {
        let l = loading(before.x, spec_dot_mv(before.x, w), p);
        orthogonal_part_is_orthogonal(l, w);
        orthogonal_to_normalized(w, orthogonal_part(l, w));
    } else {
        orthogonal_weights(x, w, p, (k - 1) as nat, a);
    }
}

/// Removing orthogonal components keeps the covariance of the data with the score from
/// which the weight vector comes.
pub proof fn orthogonal_filter_keeps_covariance<S: ExactScalar>(
    x: Seq<Seq<S>>,
    u: Seq<S>,
    p: nat,
    k: nat,
)
    requires
        has_width(x, p),
        u.len() == x.len(),
        spec_dot(x_weight(x, u, p), x_weight(x, u, p)) != S::spec_zero(),
    ensures
        spec_dot_mtv(orth_state(x, x_weight(x, u, p), p, k).x, u, p) == spec_dot_mtv(x, u, p),
        forall|a: int|
            0 <= a < k ==> spec_dot(
                #[trigger] orth_state(x, x_weight(x, u, p), p, k).scores[a],
                u,
            ) == S::spec_zero(),
    decreases k,
{
    let g = spec_dot_mtv(x, u, p);
    let w = x_weight(x, u, p);
    let (_, c) = normalized_is_multiple(g);
    orth_state_shape(x, w, p, k);
    if k > 0 {
        let before = orth_state(x, w, p, (k - 1) as nat);
        let after = orth_state(x, w, p, k);
        orth_state_shape(x, w, p, (k - 1) as nat);
        orthogonal_filter_keeps_covariance(x, u, p, (k - 1) as nat);
        let w_orth = after.weights[k - 1];
        let t_orth = after.scores[k - 1];
        orthogonal_weights(x, w, p, k, k - 1);
        // The new score is orthogonal to `u`: t . u == w_orth . (X^T u) == c (w_orth . w).
        adjoint(before.x, u, w_orth, p);
        dot_commutes(w, w_orth, p as int);
        dot_multiple(w_orth, g, c, w);
        mul_zero(c);
        dot_commutes(t_orth, u, u.len() as int);
        deflation_keeps(before.x, t_orth, after.loadings[k - 1], u, p);
        assert forall|a: int| 0 <= a < k implies spec_dot(#[trigger] after.scores[a], u)
            == S::spec_zero() by {
            if a < k - 1 {
                assert(after.scores[a] == before.scores[a]);
            }
        }
    }
}

/// The scores of different orthogonal components are orthogonal, and what is left of the
/// data correlates with none of them.
pub proof fn orthogonal_scores<S: ExactScalar>(x: Seq<Seq<S>>, w: Seq<S>, p: nat, k: nat)
    requires
        has_width(x, p),
        w.len() == p,
        nondegenerate(orth_state(x, w, p, k).scores),
    ensures
        forall|a: int|
            0 <= a < k ==> spec_dot_mtv(
                orth_state(x, w, p, k).x,
                #[trigger] orth_state(x, w, p, k).scores[a],
                p,
            ) == spec_zeros::<S>(p),
        forall|a: int, b: int|
            0 <= a < k && 0 <= b < k && a != b ==> spec_dot(
                #[trigger] orth_state(x, w, p, k).scores[a],
                #[trigger] orth_state(x, w, p, k).scores[b],
            ) == S::spec_zero(),
{
    let s = orth_state(x, w, p, k);
    orth_state_shape(x, w, p, k);
    orthogonal_extraction_peels(x, w, p, k);
    nondegenerate_is_regular(x, s.weights, p, k);
    scores_are_orthogonal(x, s.weights, p, k);
    assert forall|a: int| 0 <= a < k implies #[trigger] s.scores[a] == peel_score(
        x,
        s.weights,
        p,
        a as nat,
    ) by {
    }
}

/// The Y-score from which the weight vector of a fit comes.
pub open spec fn y_score_of_fit<S: Scalar>(
    x: Seq<Seq<S>>,
    y: Seq<Seq<S>>,
    p: nat,
    m: nat,
) -> Seq<S> {
    if m == 1 {
        spec_column(y, 0)
    } else {
        last_score(
            x,
            y,
            p,
            m,
            spec_column(y, 0),
            MAX_ITER as nat,
            spec_reciprocal::<S>(TOLERANCE_SCALE),
        )
    }
}

/// The last Y-score has one element per row.
pub proof fn last_score_len<S: Scalar>(
    x: Seq<Seq<S>>,
    y: Seq<Seq<S>>,
    p: nat,
    m: nat,
    u: Seq<S>,
    rounds: nat,
    tol: S,
)
    requires
        u.len() == y.len(),
    ensures
        last_score(x, y, p, m, u, rounds, tol).len() == y.len(),
    decreases rounds,
{
    if rounds > 0 {
        last_score_len(
            x,
            y,
            p,
            m,
            next_score(x, y, p, m, u),
            (rounds - 1) as nat,
            tol,
        );
    }
}

/// The orthogonal components of a fit are uncorrelated with the Y-score from which its
/// weight vector comes.  For a single response, that score is the centered response.
pub proof fn orthogonal_components_are_uncorrelated<S: ExactScalar>(
    z: Seq<Seq<S>>,
    y: Seq<Seq<S>>,
    p: nat,
    m: nat,
    n_orth: nat,
    a: int,
)
    requires
        has_width(z, p),
        z.len() == y.len(),
        0 <= a < n_orth,
        ({
            let w = spec_component(centered(z, p), centered(y, m), p, m).0;
            spec_dot(w, w) != S::spec_zero()
        }),
    ensures
        spec_dot(
            orth_fit(z, y, p, m, n_orth).scores[a],
            y_score_of_fit(centered(z, p), centered(y, m), p, m),
        ) == S::spec_zero(),
{
    let (xc, yc) = (centered(z, p), centered(y, m));
    let u = y_score_of_fit(xc, yc, p, m);
    assert(has_width(xc, p)) by {
        assert forall|i: int| 0 <= i < xc.len() implies (#[trigger] xc[i]).len() == p by {
            assert(z[i].len() == p);
        }
    }
    if m != 1 {
        last_score_len(
            xc,
            yc,
            p,
            m,
            spec_column(yc, 0),
            MAX_ITER as nat,
            spec_reciprocal::<S>(TOLERANCE_SCALE),
        );
    }
    orthogonal_filter_keeps_covariance(xc, u, p, n_orth);
}

} // verus!
