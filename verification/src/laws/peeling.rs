//! Peeling: removing from a matrix, one after another, the components of given weight
//! vectors.
//!
//! The extraction of orthogonal and of predictive components both peel.  They differ in
//! where their weight vectors come from.
use crate::laws::algebra::{
    dot_commutes, dot_ext, dot_linear, dot_zeros, mul_zero, neg_mul, sub_mul, zero_add,
};
use crate::laws::orthogonality::{
    deflation_clears, deflation_keeps, divided_is_multiple, dot_multiple, orthogonal_to_scores,
};
use crate::laws::products::adjoint;
use crate::matrix::{deflated, has_width, spec_column, spec_dot_mtv, spec_dot_mv};
use crate::model::{orth_state, pred_state};
use crate::nipals::loading;
use crate::scalar::{ExactScalar, Scalar};
use crate::vector::{spec_dot, spec_zeros};
use vstd::prelude::*;

verus! {

/// What is left of `x` after the components of the first `k` weight vectors are removed.
pub open spec fn peeled<S: Scalar>(x: Seq<Seq<S>>, weights: Seq<Seq<S>>, p: nat, k: nat) -> Seq<
    Seq<S>,
>
    decreases k,
{
    if k == 0 {
        x
    } else {
        let before = peeled(x, weights, p, (k - 1) as nat);
        let t = spec_dot_mv(before, weights[k - 1]);
        deflated(before, t, loading(before, t, p))
    }
}

/// The score of component `a`.
pub open spec fn peel_score<S: Scalar>(
    x: Seq<Seq<S>>,
    weights: Seq<Seq<S>>,
    p: nat,
    a: nat,
) -> Seq<S> {
    spec_dot_mv(peeled(x, weights, p, a), weights[a as int])
}

/// The loading of component `a`.
pub open spec fn peel_loading<S: Scalar>(
    x: Seq<Seq<S>>,
    weights: Seq<Seq<S>>,
    p: nat,
    a: nat,
) -> Seq<S> {
    loading(peeled(x, weights, p, a), peel_score(x, weights, p, a), p)
}

/// The scores of the first `k` components.
pub open spec fn peel_scores<S: Scalar>(
    x: Seq<Seq<S>>,
    weights: Seq<Seq<S>>,
    p: nat,
    k: nat,
) -> Seq<Seq<S>> {
    Seq::new(k, |a: int| peel_score(x, weights, p, a as nat))
}

/// The loadings of the first `k` components.
pub open spec fn peel_loadings<S: Scalar>(
    x: Seq<Seq<S>>,
    weights: Seq<Seq<S>>,
    p: nat,
    k: nat,
) -> Seq<Seq<S>> {
    Seq::new(k, |a: int| peel_loading(x, weights, p, a as nat))
}

/// No score is orthogonal to itself.
pub open spec fn nondegenerate<S: Scalar>(scores: Seq<Seq<S>>) -> bool {
    forall|a: int|
        0 <= a < scores.len() ==> spec_dot(#[trigger] scores[a], scores[a]) != S::spec_zero()
}

/// None of the first `k` scores is orthogonal to itself.
pub open spec fn regular<S: Scalar>(
    x: Seq<Seq<S>>,
    weights: Seq<Seq<S>>,
    p: nat,
    k: nat,
) -> bool {
    forall|a: nat|
        a < k ==> spec_dot(
            #[trigger] peel_score(x, weights, p, a),
            peel_score(x, weights, p, a),
        ) != S::spec_zero()
}

/// `nondegenerate` and `regular` say the same.
pub proof fn nondegenerate_is_regular<S: Scalar>(
    x: Seq<Seq<S>>,
    weights: Seq<Seq<S>>,
    p: nat,
    k: nat,
)
    requires
        nondegenerate(peel_scores(x, weights, p, k)),
    ensures
        regular(x, weights, p, k),
{
    assert forall|a: nat| a < k implies spec_dot(
        #[trigger] peel_score(x, weights, p, a),
        peel_score(x, weights, p, a),
    ) != S::spec_zero() by {
        assert(peel_scores(x, weights, p, k)[a as int] == peel_score(x, weights, p, a));
    }
}

/// Peeling keeps the shape.
pub proof fn peel_shape<S: Scalar>(x: Seq<Seq<S>>, weights: Seq<Seq<S>>, p: nat, k: nat)
    requires
        has_width(x, p),
    ensures
        peeled(x, weights, p, k).len() == x.len(),
        has_width(peeled(x, weights, p, k), p),
        has_width(peel_loadings(x, weights, p, k), p),
        has_width(peel_scores(x, weights, p, k), x.len()),
    decreases k,
{
    if k > 0 {
        peel_shape(x, weights, p, (k - 1) as nat);
        let before = peeled(x, weights, p, (k - 1) as nat);
        assert forall|i: int| 0 <= i < x.len() implies (#[trigger] peeled(
            x,
            weights,
            p,
            k,
        )[i]).len() == p by {
            assert(before[i].len() == p);
        }
        assert forall|a: int| 0 <= a < k implies (#[trigger] peel_scores(
            x,
            weights,
            p,
            k,
        )[a]).len() == x.len() by {
            if a < k - 1 {
                assert(peel_scores(x, weights, p, (k - 1) as nat)[a].len() == x.len());
            }
        }
    }
}

/// Peeling reads only the weight vectors of the components that it removes.
pub proof fn peel_prefix<S: Scalar>(
    x: Seq<Seq<S>>,
    v: Seq<Seq<S>>,
    w: Seq<Seq<S>>,
    p: nat,
    k: nat,
)
    requires
        forall|a: int| 0 <= a < k ==> v[a] == w[a],
    ensures
        peeled(x, v, p, k) == peeled(x, w, p, k),
    decreases k,
{
    if k > 0 {
        peel_prefix(x, v, w, p, (k - 1) as nat);
    }
}

/// How a deflation changes the product with a vector:
/// `(X - t l^T) v == X v - (l . v) t`.
pub proof fn deflated_dot<S: ExactScalar>(
    x: Seq<Seq<S>>,
    t: Seq<S>,
    l: Seq<S>,
    v: Seq<S>,
    p: nat,
    i: int,
)
    requires
        has_width(x, p),
        l.len() == p,
        v.len() == p,
        0 <= i < x.len(),
    ensures
        spec_dot(deflated(x, t, l)[i], v) == spec_dot(x[i], v).spec_add(
            t[i].spec_neg().spec_mul(spec_dot(l, v)),
        ),
{
    let d = deflated(x, t, l)[i];
    assert(x[i].len() == p);
    assert forall|j: int| 0 <= j < p implies #[trigger] d[j] == x[i][j].spec_add(
        t[i].spec_neg().spec_mul(l[j]),
    ) by {
        sub_mul(x[i][j], t[i], l[j]);
    }
    dot_linear(d, x[i], t[i].spec_neg(), l, v, p as int);
}

/// The inner product with the loading of a score: `l . v == (1 / t . t) (t . (X v))`.
pub proof fn loading_dot<S: ExactScalar>(x: Seq<Seq<S>>, t: Seq<S>, v: Seq<S>, p: nat)
    requires
        has_width(x, p),
        t.len() == x.len(),
        v.len() == p,
        spec_dot(t, t) != S::spec_zero(),
    ensures
        spec_dot(loading(x, t, p), v) == S::spec_one().spec_div(spec_dot(t, t)).spec_mul(
            spec_dot(t, spec_dot_mv(x, v)),
        ),
{
    let g = spec_dot_mtv(x, t, p);
    divided_is_multiple(g, spec_dot(t, t));
    dot_multiple(v, loading(x, t, p), S::spec_one().spec_div(spec_dot(t, t)), g);
    adjoint(x, t, v, p);
    dot_commutes(v, g, p as int);
}

/// What peeling leaves of the data is mapped to zero by every weight vector so far.
pub proof fn residual_ignores_weights<S: ExactScalar>(
    x: Seq<Seq<S>>,
    weights: Seq<Seq<S>>,
    p: nat,
    k: nat,
    a: nat,
)
    requires
        has_width(x, p),
        weights[a as int].len() == p,
        a < k,
        regular(x, weights, p, k),
    ensures
        spec_dot_mv(peeled(x, weights, p, k), weights[a as int]) == spec_zeros::<S>(x.len()),
    decreases k,
{
    let before = peeled(x, weights, p, (k - 1) as nat);
    let after = peeled(x, weights, p, k);
    peel_shape(x, weights, p, (k - 1) as nat);
    peel_shape(x, weights, p, k);
    let t = peel_score(x, weights, p, (k - 1) as nat);
    let l = peel_loading(x, weights, p, (k - 1) as nat);
    let v = weights[a as int];
    assert(spec_dot(t, t) != S::spec_zero());
    loading_dot(before, t, v, p);
    let c = S::spec_one().spec_div(spec_dot(t, t));
    let products = spec_dot_mv(before, v);
    if a < k - 1 {
        residual_ignores_weights(x, weights, p, (k - 1) as nat, a);
        dot_zeros(products, t, t.len() as int);
        mul_zero(c);
    } else {
        assert(products == t);
        S::div_mul(S::spec_one(), spec_dot(t, t));
    }
    let left = spec_dot_mv(after, v);
    assert forall|i: int| 0 <= i < x.len() implies left[i] == S::spec_zero() by {
        deflated_dot(before, t, l, v, p, i);
        assert(spec_dot(before[i], v) == products[i]);
        if a < k - 1 {
            mul_zero(t[i].spec_neg());
            S::add_zero(S::spec_zero());
        } else {
            S::mul_one(t[i].spec_neg());
            S::add_neg(t[i]);
        }
    }
    assert(left =~= spec_zeros::<S>(x.len()));
}

/// Appending a term to an inner product.
pub proof fn dot_push<S: Scalar>(a: Seq<S>, b: Seq<S>, c: Seq<S>, d: Seq<S>)
    requires
        a.len() == b.len(),
        c.len() == a.len() + 1,
        d.len() == a.len() + 1,
        forall|i: int| 0 <= i < a.len() ==> c[i] == a[i] && d[i] == b[i],
    ensures
        spec_dot(c, d) == spec_dot(a, b).spec_add(c[a.len() as int].spec_mul(d[a.len() as int])),
{
    dot_ext(c, d, a, b, a.len() as int);
}

/// `a + (-b) + (s + b) == a + s`.
pub proof fn neg_moves<S: ExactScalar>(a: S, b: S, s: S)
    ensures
        a.spec_add(b.spec_neg()).spec_add(s.spec_add(b)) == a.spec_add(s),
{
    S::add_commutes(s, b);
    S::add_associates(a, b.spec_neg(), b.spec_add(s));
    S::add_associates(b.spec_neg(), b, s);
    S::add_commutes(b.spec_neg(), b);
    S::add_neg(b);
    zero_add(s);
}

/// The data are what peeling leaves plus the scores times the loadings, seen through any
/// vector: `X v == X_k v + T (P^T v)`.
pub proof fn data_decompose<S: ExactScalar>(
    x: Seq<Seq<S>>,
    weights: Seq<Seq<S>>,
    p: nat,
    k: nat,
    i: int,
    v: Seq<S>,
)
    requires
        has_width(x, p),
        0 <= i < x.len(),
        v.len() == p,
    ensures
        spec_dot(x[i], v) == spec_dot(peeled(x, weights, p, k)[i], v).spec_add(
            spec_dot(
                spec_column(peel_scores(x, weights, p, k), i),
                spec_dot_mv(peel_loadings(x, weights, p, k), v),
            ),
        ),
    decreases k,
{
    if k == 0 {
        S::add_zero(spec_dot(x[i], v));
    } else {
        let j = (k - 1) as nat;
        let before = peeled(x, weights, p, j);
        peel_shape(x, weights, p, j);
        data_decompose(x, weights, p, j, i, v);
        let t = peel_score(x, weights, p, j);
        let l = peel_loading(x, weights, p, j);
        deflated_dot(before, t, l, v, p, i);
        let b = t[i].spec_mul(spec_dot(l, v));
        let (c0, d0) = (
            spec_column(peel_scores(x, weights, p, j), i),
            spec_dot_mv(peel_loadings(x, weights, p, j), v),
        );
        let (c1, d1) = (
            spec_column(peel_scores(x, weights, p, k), i),
            spec_dot_mv(peel_loadings(x, weights, p, k), v),
        );
        dot_push(c0, d0, c1, d1);
        neg_mul(t[i], spec_dot(l, v));
        neg_moves(spec_dot(before[i], v), b, spec_dot(c0, d0));
    }
}

/// The scores of different components are orthogonal, and what peeling leaves of the data
/// correlates with none of them.
pub proof fn scores_are_orthogonal<S: ExactScalar>(
    x: Seq<Seq<S>>,
    weights: Seq<Seq<S>>,
    p: nat,
    k: nat,
)
    requires
        has_width(x, p),
        forall|a: int| 0 <= a < k ==> (#[trigger] weights[a]).len() == p,
        regular(x, weights, p, k),
    ensures
        forall|a: nat|
            a < k ==> spec_dot_mtv(
                peeled(x, weights, p, k),
                #[trigger] peel_score(x, weights, p, a),
                p,
            ) == spec_zeros::<S>(p),
        forall|a: nat, b: nat|
            a < k && b < k && a != b ==> spec_dot(
                #[trigger] peel_score(x, weights, p, a),
                #[trigger] peel_score(x, weights, p, b),
            ) == S::spec_zero(),
    decreases k,
{
    if k > 0 {
        let j = (k - 1) as nat;
        let before = peeled(x, weights, p, j);
        let t = peel_score(x, weights, p, j);
        let l = peel_loading(x, weights, p, j);
        peel_shape(x, weights, p, j);
        scores_are_orthogonal(x, weights, p, j);
        assert(weights[j as int].len() == p);
        assert forall|a: nat| a < j implies spec_dot(#[trigger] peel_score(x, weights, p, a), t)
            == S::spec_zero() && spec_dot(t, peel_score(x, weights, p, a)) == S::spec_zero()
            && spec_dot_mtv(peeled(x, weights, p, k), peel_score(x, weights, p, a), p)
            == spec_zeros::<S>(p) by {
            let u = peel_score(x, weights, p, a);
            peel_shape(x, weights, p, a);
            orthogonal_to_scores(before, u, weights[j as int], p);
            deflation_keeps(before, t, l, u, p);
        }
        assert(spec_dot(t, t) != S::spec_zero());
        deflation_clears(before, t, p);
    }
}

/// Peeling keeps the covariance of the data with what is orthogonal to the scores.
pub proof fn covariance_is_kept<S: ExactScalar>(
    x: Seq<Seq<S>>,
    weights: Seq<Seq<S>>,
    p: nat,
    k: nat,
    u: Seq<S>,
)
    requires
        has_width(x, p),
        u.len() == x.len(),
        forall|a: nat|
            a < k ==> spec_dot(#[trigger] peel_score(x, weights, p, a), u) == S::spec_zero(),
    ensures
        spec_dot_mtv(peeled(x, weights, p, k), u, p) == spec_dot_mtv(x, u, p),
    decreases k,
{
    if k > 0 {
        let j = (k - 1) as nat;
        covariance_is_kept(x, weights, p, j, u);
        peel_shape(x, weights, p, j);
        assert(spec_dot(peel_score(x, weights, p, j), u) == S::spec_zero());
        deflation_keeps(
            peeled(x, weights, p, j),
            peel_score(x, weights, p, j),
            peel_loading(x, weights, p, j),
            u,
            p,
        );
    }
}

/// What correlates with no column of the data correlates with no score, nor with what
/// peeling leaves.
pub proof fn scores_avoid<S: ExactScalar>(
    x: Seq<Seq<S>>,
    weights: Seq<Seq<S>>,
    p: nat,
    k: nat,
    u: Seq<S>,
)
    requires
        has_width(x, p),
        u.len() == x.len(),
        forall|a: int| 0 <= a < k ==> (#[trigger] weights[a]).len() == p,
        spec_dot_mtv(x, u, p) == spec_zeros::<S>(p),
    ensures
        spec_dot_mtv(peeled(x, weights, p, k), u, p) == spec_zeros::<S>(p),
        forall|a: nat|
            a < k ==> spec_dot(u, #[trigger] peel_score(x, weights, p, a)) == S::spec_zero(),
    decreases k,
{
    if k > 0 {
        let j = (k - 1) as nat;
        let before = peeled(x, weights, p, j);
        peel_shape(x, weights, p, j);
        scores_avoid(x, weights, p, j, u);
        assert(weights[j as int].len() == p);
        orthogonal_to_scores(before, u, weights[j as int], p);
        deflation_keeps(
            before,
            peel_score(x, weights, p, j),
            peel_loading(x, weights, p, j),
            u,
            p,
        );
    }
}

/// A vector that the data map to zero is mapped to zero by what peeling leaves.
pub proof fn ignored_stays_ignored<S: ExactScalar>(
    x: Seq<Seq<S>>,
    weights: Seq<Seq<S>>,
    p: nat,
    k: nat,
    v: Seq<S>,
)
    requires
        has_width(x, p),
        v.len() == p,
        spec_dot_mv(x, v) == spec_zeros::<S>(x.len()),
        regular(x, weights, p, k),
    ensures
        spec_dot_mv(peeled(x, weights, p, k), v) == spec_zeros::<S>(x.len()),
    decreases k,
{
    if k > 0 {
        let j = (k - 1) as nat;
        let before = peeled(x, weights, p, j);
        let t = peel_score(x, weights, p, j);
        let l = peel_loading(x, weights, p, j);
        peel_shape(x, weights, p, j);
        ignored_stays_ignored(x, weights, p, j, v);
        assert(spec_dot(t, t) != S::spec_zero());
        loading_dot(before, t, v, p);
        dot_zeros(spec_dot_mv(before, v), t, t.len() as int);
        mul_zero(S::spec_one().spec_div(spec_dot(t, t)));
        let left = spec_dot_mv(peeled(x, weights, p, k), v);
        assert forall|i: int| 0 <= i < x.len() implies left[i] == S::spec_zero() by {
            deflated_dot(before, t, l, v, p, i);
            assert(spec_dot_mv(before, v)[i] == S::spec_zero());
            mul_zero(t[i].spec_neg());
            S::add_zero(S::spec_zero());
        }
        assert(left =~= spec_zeros::<S>(x.len()));
    }
}

/// The loading of a component meets its own weight vector in one, and those of the
/// components before in zero.
pub proof fn loadings_meet_weights<S: ExactScalar>(
    x: Seq<Seq<S>>,
    weights: Seq<Seq<S>>,
    p: nat,
    k: nat,
    a: nat,
    b: nat,
)
    requires
        has_width(x, p),
        b <= a < k,
        weights[b as int].len() == p,
        regular(x, weights, p, k),
    ensures
        spec_dot(peel_loading(x, weights, p, a), weights[b as int]) == (if a == b {
            S::spec_one()
        } else {
            S::spec_zero()
        }),
{
    let left = peeled(x, weights, p, a);
    let t = peel_score(x, weights, p, a);
    let v = weights[b as int];
    peel_shape(x, weights, p, a);
    assert(spec_dot(t, t) != S::spec_zero());
    loading_dot(left, t, v, p);
    let c = S::spec_one().spec_div(spec_dot(t, t));
    if a == b {
        S::div_mul(S::spec_one(), spec_dot(t, t));
    } else {
        residual_ignores_weights(x, weights, p, a, b);
        dot_zeros(spec_dot_mv(left, v), t, t.len() as int);
        mul_zero(c);
    }
}

/// The extraction of orthogonal components peels.
pub proof fn orthogonal_extraction_peels<S: Scalar>(
    x: Seq<Seq<S>>,
    w: Seq<S>,
    p: nat,
    k: nat,
)
    ensures
        ({
            let s = orth_state(x, w, p, k);
            &&& s.weights.len() == k
            &&& s.x == peeled(x, s.weights, p, k)
            &&& s.scores == peel_scores(x, s.weights, p, k)
            &&& s.loadings == peel_loadings(x, s.weights, p, k)
        }),
    decreases k,
{
    let s = orth_state(x, w, p, k);
    if k > 0 {
        let j = (k - 1) as nat;
        let before = orth_state(x, w, p, j);
        orthogonal_extraction_peels(x, w, p, j);
        assert forall|a: nat| a <= j implies #[trigger] peeled(x, before.weights, p, a) == peeled(
            x,
            s.weights,
            p,
            a,
        ) by {
            peel_prefix(x, before.weights, s.weights, p, a);
        }
        assert(peeled(x, before.weights, p, j) == peeled(x, s.weights, p, j));
        assert(s.x == peeled(x, s.weights, p, k));
        assert forall|a: int| 0 <= a < k implies s.scores[a] == peel_scores(
            x,
            s.weights,
            p,
            k,
        )[a] && s.loadings[a] == peel_loadings(x, s.weights, p, k)[a] by {
            assert(peeled(x, before.weights, p, a as nat) == peeled(x, s.weights, p, a as nat));
            if a < j {
                assert(before.scores[a] == peel_score(x, before.weights, p, a as nat));
                assert(before.loadings[a] == peel_loading(x, before.weights, p, a as nat));
            }
        }
    }
    assert(s.scores =~= peel_scores(x, s.weights, p, k));
    assert(s.loadings =~= peel_loadings(x, s.weights, p, k));
}

/// The extraction of predictive components peels.
pub proof fn predictive_extraction_peels<S: Scalar>(
    x: Seq<Seq<S>>,
    y: Seq<Seq<S>>,
    p: nat,
    m: nat,
    k: nat,
)
    ensures
        ({
            let s = pred_state(x, y, p, m, k);
            &&& s.weights.len() == k
            &&& s.x == peeled(x, s.weights, p, k)
            &&& s.scores == peel_scores(x, s.weights, p, k)
            &&& s.loadings_x == peel_loadings(x, s.weights, p, k)
        }),
    decreases k,
{
    let s = pred_state(x, y, p, m, k);
    if k > 0 {
        let j = (k - 1) as nat;
        let before = pred_state(x, y, p, m, j);
        predictive_extraction_peels(x, y, p, m, j);
        assert forall|a: nat| a <= j implies #[trigger] peeled(x, before.weights, p, a) == peeled(
            x,
            s.weights,
            p,
            a,
        ) by {
            peel_prefix(x, before.weights, s.weights, p, a);
        }
        assert(peeled(x, before.weights, p, j) == peeled(x, s.weights, p, j));
        assert(s.x == peeled(x, s.weights, p, k));
        assert forall|a: int| 0 <= a < k implies s.scores[a] == peel_scores(
            x,
            s.weights,
            p,
            k,
        )[a] && s.loadings_x[a] == peel_loadings(x, s.weights, p, k)[a] by {
            assert(peeled(x, before.weights, p, a as nat) == peeled(x, s.weights, p, a as nat));
            if a < j {
                assert(before.scores[a] == peel_score(x, before.weights, p, a as nat));
                assert(before.loadings_x[a] == peel_loading(x, before.weights, p, a as nat));
            }
        }
    }
    assert(s.scores =~= peel_scores(x, s.weights, p, k));
    assert(s.loadings_x =~= peel_loadings(x, s.weights, p, k));
}

} // verus!
