//! What the NIPALS iteration ends in.
use crate::laws::algebra::{dot_commutes, dot_zeros, mul_cancel, mul_zero, one_mul, zero_add};
use crate::laws::orthogonality::{divided_is_multiple, dot_multiple, normalized_is_multiple};
use crate::laws::products::adjoint;
use crate::laws::span::{is_multiple, multiple_composes, parallel};
use crate::matrix::{has_width, spec_column, spec_dot_mtv, spec_dot_mv};
use crate::model::spec_component;
use crate::nipals::{last_score, next_score, nipals, x_weight, y_loading, y_score};
use crate::scalar::{ExactScalar, Scalar};
use crate::vector::{
    difference, divided, dot_prefix, normalized, spec_dot, spec_norm, spec_zeros,
};
use vstd::prelude::*;

verus! {

/// A product of numbers other than zero is not zero.
proof fn product_is_not_zero<S: ExactScalar>(a: S, b: S)
    requires
        a != S::spec_zero(),
        b != S::spec_zero(),
    ensures
        a.spec_mul(b) != S::spec_zero(),
{
    mul_zero(b);
    if a.spec_mul(b) == S::spec_zero() {
        mul_cancel(a, S::spec_zero(), b);
    }
}

/// The weight vector of a multiple of a response is parallel to that of the response.
proof fn weight_of_multiple<S: ExactScalar>(
    x: Seq<Seq<S>>,
    p: nat,
    y: Seq<S>,
    s: S,
    u: Seq<S>,
) -> (r: S)
    requires
        has_width(x, p),
        y.len() == x.len(),
        is_multiple(u, s, y),
        s != S::spec_zero(),
        spec_dot(x_weight(x, y, p), x_weight(x, y, p)) != S::spec_zero(),
    ensures
        r != S::spec_zero(),
        is_multiple(x_weight(x, u, p), r, x_weight(x, y, p)),
        parallel(x_weight(x, u, p), x_weight(x, y, p)),
{
    let (g, h) = (spec_dot_mtv(x, y, p), spec_dot_mtv(x, u, p));
    let (w, v) = (x_weight(x, y, p), x_weight(x, u, p));
    assert forall|j: int| 0 <= j < p implies #[trigger] h[j] == s.spec_mul(g[j]) by {
        dot_multiple(spec_column(x, j), u, s, y);
    }
    let i = S::spec_one().spec_div(s);
    S::div_mul(S::spec_one(), s);
    assert forall|j: int| 0 <= j < p implies #[trigger] g[j] == i.spec_mul(h[j]) by {
        assert(h[j] == s.spec_mul(g[j]));
        S::mul_associates(i, s, g[j]);
        one_mul(g[j]);
    }
    let (to_w, from_w) = normalized_is_multiple(g);
    let (to_v, from_v) = normalized_is_multiple(h);
    multiple_composes(v, to_v, h, s, g);
    multiple_composes(v, to_v.spec_mul(s), g, from_w, w);
    multiple_composes(w, to_w, g, i, h);
    multiple_composes(w, to_w.spec_mul(i), h, from_v, v);
    let r = to_v.spec_mul(s).spec_mul(from_w);
    let back = to_w.spec_mul(i).spec_mul(from_v);
    if r == S::spec_zero() {
        dot_multiple(w, w, back, v);
        dot_multiple(w, v, r, w);
        mul_zero(spec_dot(w, w));
        mul_zero(back);
    }
    r
}

/// The Y-score of the Y-loading of a single response is the response over the loading.
proof fn loading_divides<S: ExactScalar>(y: Seq<Seq<S>>, c: Seq<S>, next: Seq<S>)
    requires
        has_width(y, 1),
        c.len() == 1,
        c[0] != S::spec_zero(),
        next == y_score(y, c),
    ensures
        is_multiple(next, S::spec_one().spec_div(c[0]), spec_column(y, 0)),
{
    let response = spec_column(y, 0);
    let r = S::spec_one().spec_div(c[0]);
    let cc = c[0].spec_mul(c[0]);
    S::div_mul(S::spec_one(), c[0]);
    product_is_not_zero(c[0], c[0]);
    reveal_with_fuel(dot_prefix, 2);
    zero_add(cc);
    assert(spec_dot(c, c) == cc);
    assert forall|i: int| 0 <= i < y.len() implies #[trigger] next[i] == r.spec_mul(
        response[i],
    ) by {
        let e = response[i];
        assert(y[i].len() == 1);
        zero_add(e.spec_mul(c[0]));
        assert(next[i] == e.spec_mul(c[0]).spec_div(cc));
        // (r e) (c c) == (e r) (c c) == e ((r c) c) == e c
        S::div_mul(e.spec_mul(c[0]), cc);
        S::mul_commutes(r, e);
        S::mul_associates(e, r, cc);
        S::mul_associates(r, c[0], c[0]);
        one_mul(c[0]);
        mul_cancel(next[i], r.spec_mul(e), cc);
    }
}

/// One round of the iteration keeps to multiples of a single response.
proof fn next_score_is_multiple<S: ExactScalar>(
    x: Seq<Seq<S>>,
    y: Seq<Seq<S>>,
    p: nat,
    s: S,
    u: Seq<S>,
) -> (r: S)
    requires
        has_width(x, p),
        has_width(y, 1),
        x.len() == y.len(),
        is_multiple(u, s, spec_column(y, 0)),
        s != S::spec_zero(),
        ({
            let w = x_weight(x, spec_column(y, 0), p);
            let t = spec_dot_mv(x, w);
            spec_dot(w, w) != S::spec_zero() && spec_dot(t, t) != S::spec_zero()
        }),
    ensures
        r != S::spec_zero(),
        is_multiple(next_score(x, y, p, 1, u), r, spec_column(y, 0)),
{
    let response = spec_column(y, 0);
    let g = spec_dot_mtv(x, response, p);
    let w = x_weight(x, response, p);
    let v = x_weight(x, u, p);
    let (t, z) = (spec_dot_mv(x, w), spec_dot_mv(x, v));
    let k = weight_of_multiple(x, p, response, s, u);

    // The score is a multiple of that of the response, and not orthogonal to itself.
    assert forall|i: int| 0 <= i < x.len() implies #[trigger] z[i] == k.spec_mul(t[i]) by {
        assert(x[i].len() == p);
        dot_multiple(x[i], v, k, w);
    }
    dot_multiple(z, z, k, t);
    dot_multiple(t, z, k, t);
    let square = spec_dot(z, z);
    product_is_not_zero(k, spec_dot(t, t));
    product_is_not_zero(k, k.spec_mul(spec_dot(t, t)));

    // Nor is it orthogonal to the response.
    let kappa = spec_dot(response, t);
    adjoint(x, response, w, p);
    let (to_w, _from_w) = normalized_is_multiple(g);
    if kappa == S::spec_zero() {
        dot_multiple(w, w, to_w, g);
        dot_multiple(g, w, to_w, g);
        dot_commutes(w, g, p as int);
        mul_zero(to_w);
    }
    dot_multiple(response, z, k, t);
    product_is_not_zero(k, kappa);

    // So the Y-loading is not zero.
    let c = y_loading(x, y, v, 1);
    assert(c[0] == spec_dot(response, z).spec_div(square));
    S::div_mul(spec_dot(response, z), square);
    if c[0] == S::spec_zero() {
        mul_zero(square);
    }
    let r = S::spec_one().spec_div(c[0]);
    S::div_mul(S::spec_one(), c[0]);
    if r == S::spec_zero() {
        mul_zero(c[0]);
        S::one_is_not_zero();
    }
    loading_divides(y, c, next_score(x, y, p, 1, u));
    r
}

proof fn last_score_is_multiple<S: ExactScalar>(
    x: Seq<Seq<S>>,
    y: Seq<Seq<S>>,
    p: nat,
    s: S,
    u: Seq<S>,
    rounds: nat,
    tol: S,
) -> (r: S)
    requires
        has_width(x, p),
        has_width(y, 1),
        x.len() == y.len(),
        is_multiple(u, s, spec_column(y, 0)),
        s != S::spec_zero(),
        ({
            let w = x_weight(x, spec_column(y, 0), p);
            let t = spec_dot_mv(x, w);
            spec_dot(w, w) != S::spec_zero() && spec_dot(t, t) != S::spec_zero()
        }),
    ensures
        r != S::spec_zero(),
        is_multiple(last_score(x, y, p, 1, u, rounds, tol), r, spec_column(y, 0)),
    decreases rounds,
{
    if rounds == 0 {
        s
    } else {
        let next = next_score(x, y, p, 1, u);
        let r = next_score_is_multiple(x, y, p, s, u);
        if tol.spec_exceeds(spec_norm(difference(next, u))) {
            r
        } else {
            last_score_is_multiple(x, y, p, r, next, (rounds - 1) as nat, tol)
        }
    }
}

/// For a single response, the weight vector of the iteration is parallel to that of the
/// response.
pub proof fn single_response_weights_are_parallel<S: ExactScalar>(
    x: Seq<Seq<S>>,
    y: Seq<Seq<S>>,
    p: nat,
    rounds: nat,
    tol: S,
)
    requires
        has_width(x, p),
        has_width(y, 1),
        x.len() == y.len(),
        ({
            let w = x_weight(x, spec_column(y, 0), p);
            let t = spec_dot_mv(x, w);
            spec_dot(w, w) != S::spec_zero() && spec_dot(t, t) != S::spec_zero()
        }),
    ensures
        parallel(nipals(x, y, p, 1, rounds, tol).0, x_weight(x, spec_column(y, 0), p)),
{
    let response = spec_column(y, 0);
    S::one_is_not_zero();
    assert(is_multiple(response, S::spec_one(), response)) by {
        assert forall|i: int| 0 <= i < response.len() implies #[trigger] response[i]
            == S::spec_one().spec_mul(response[i]) by {
            one_mul(response[i]);
        }
    }
    let s = last_score_is_multiple(x, y, p, S::spec_one(), response, rounds, tol);
    let last = last_score(x, y, p, 1, response, rounds, tol);
    let _k = weight_of_multiple(x, p, response, s, last);
}

/// The norm of `s v` is `s` times that of `v`, and both are positive.
pub open spec fn norm_scales<S: Scalar>(s: S, v: Seq<S>) -> bool {
    let scaled = Seq::new(v.len(), |i: int| s.spec_mul(v[i]));
    &&& spec_norm(v).spec_exceeds(S::spec_zero())
    &&& spec_norm(scaled).spec_exceeds(S::spec_zero())
    &&& spec_norm(scaled) == s.spec_mul(spec_norm(v))
}

/// Normalization takes out a factor with which the norm scales.
proof fn normalization_takes_out<S: ExactScalar>(u: Seq<S>, s: S, v: Seq<S>)
    requires
        is_multiple(u, s, v),
        norm_scales(s, v),
    ensures
        normalized(u) == normalized(v),
{
    let (d, e) = (spec_norm(v), spec_norm(u));
    assert(u =~= Seq::new(v.len(), |i: int| s.spec_mul(v[i])));
    S::exceeds_is_irreflexive(S::spec_zero());
    assert forall|i: int| 0 <= i < v.len() implies normalized(u)[i] == normalized(v)[i] by {
        let q = v[i].spec_div(d);
        // q (s d) == s (q d) == s v
        S::mul_associates(q, s, d);
        S::mul_commutes(q, s);
        S::mul_associates(s, q, d);
        S::div_mul(v[i], d);
        S::div_mul(u[i], e);
        mul_cancel(u[i].spec_div(e), q, e);
    }
    assert(normalized(u) =~= normalized(v));
}

/// The Y-loading of the component of a single response.
pub open spec fn single_loading<S: Scalar>(x: Seq<Seq<S>>, y: Seq<Seq<S>>, p: nat) -> S {
    let response = spec_column(y, 0);
    let t = spec_dot_mv(x, x_weight(x, response, p));
    spec_dot(response, t).spec_div(spec_dot(t, t))
}

/// What holds of a single response with which the iteration can be run.
pub open spec fn iterates<S: Scalar>(x: Seq<Seq<S>>, y: Seq<Seq<S>>, p: nat) -> bool {
    let response = spec_column(y, 0);
    let t = spec_dot_mv(x, x_weight(x, response, p));
    &&& has_width(x, p)
    &&& has_width(y, 1)
    &&& x.len() == y.len()
    &&& spec_dot(t, t) != S::spec_zero()
    &&& single_loading(x, y, p) != S::spec_zero()
    &&& norm_scales(
        S::spec_one().spec_div(single_loading(x, y, p)),
        spec_dot_mtv(x, response, p),
    )
}

/// Where a Y-score has the weight vector of a single response, the one that follows is the
/// response over its Y-loading, and has that weight vector, too.
proof fn round_keeps_weight<S: ExactScalar>(
    x: Seq<Seq<S>>,
    y: Seq<Seq<S>>,
    p: nat,
    u: Seq<S>,
)
    requires
        iterates(x, y, p),
        x_weight(x, u, p) == x_weight(x, spec_column(y, 0), p),
    ensures
        x_weight(x, next_score(x, y, p, 1, u), p) == x_weight(x, spec_column(y, 0), p),
{
    let response = spec_column(y, 0);
    let g = spec_dot_mtv(x, response, p);
    let w = x_weight(x, response, p);
    let c = y_loading(x, y, w, 1);
    let next = next_score(x, y, p, 1, u);
    let r = S::spec_one().spec_div(c[0]);
    assert(c[0] == single_loading(x, y, p));
    loading_divides(y, c, next);
    let h = spec_dot_mtv(x, next, p);
    assert forall|j: int| 0 <= j < p implies #[trigger] h[j] == r.spec_mul(g[j]) by {
        dot_multiple(spec_column(x, j), next, r, response);
    }
    normalization_takes_out(h, r, g);
}

proof fn last_score_keeps_weight<S: ExactScalar>(
    x: Seq<Seq<S>>,
    y: Seq<Seq<S>>,
    p: nat,
    u: Seq<S>,
    rounds: nat,
    tol: S,
)
    requires
        iterates(x, y, p),
        x_weight(x, u, p) == x_weight(x, spec_column(y, 0), p),
    ensures
        x_weight(x, last_score(x, y, p, 1, u, rounds, tol), p) == x_weight(
            x,
            spec_column(y, 0),
            p,
        ),
    decreases rounds,
{
    if rounds > 0 {
        let next = next_score(x, y, p, 1, u);
        round_keeps_weight(x, y, p, u);
        if !tol.spec_exceeds(spec_norm(difference(next, u))) {
            last_score_keeps_weight(x, y, p, next, (rounds - 1) as nat, tol);
        }
    }
}

/// For a single response, the iteration gives `X^T y`, normalized, and its Y-loading
/// `(y . t) / (t . t)`, after however many rounds.  The norm has to scale with the one
/// factor that occurs, the reciprocal of the Y-loading.
pub proof fn single_response_needs_no_iteration<S: ExactScalar>(
    x: Seq<Seq<S>>,
    y: Seq<Seq<S>>,
    p: nat,
    rounds: nat,
    tol: S,
)
    requires
        iterates(x, y, p),
    ensures
        ({
            let response = spec_column(y, 0);
            let w = x_weight(x, response, p);
            let t = spec_dot_mv(x, w);
            nipals(x, y, p, 1, rounds, tol) == (
                w,
                seq![spec_dot(response, t).spec_div(spec_dot(t, t))],
            )
        }),
        nipals(x, y, p, 1, rounds, tol) == spec_component(x, y, p, 1),
{
    let response = spec_column(y, 0);
    last_score_keeps_weight(x, y, p, response, rounds, tol);
    assert(nipals(x, y, p, 1, rounds, tol).1 =~= spec_component(x, y, p, 1).1);
}

/// Norms are lengths: positive on vectors other than zero, with the inner product as square,
/// and scaling with positive factors.
pub open spec fn norms_are_lengths<S: Scalar>() -> bool {
    &&& forall|v: Seq<S>|
        v != spec_zeros::<S>(v.len()) ==> (#[trigger] spec_norm(v)).spec_exceeds(S::spec_zero())
    &&& forall|v: Seq<S>| (#[trigger] spec_norm(v)).spec_mul(spec_norm(v)) == spec_dot(v, v)
    &&& forall|u: Seq<S>, s: S, v: Seq<S>|
        s.spec_exceeds(S::spec_zero()) && #[trigger] is_multiple(u, s, v) ==> spec_norm(u)
            == s.spec_mul(spec_norm(v))
}

/// Where norms are lengths, only a vector of zeros is orthogonal to itself.
pub proof fn only_zeros_are_degenerate<S: ExactScalar>(v: Seq<S>)
    requires
        norms_are_lengths::<S>(),
        v != spec_zeros::<S>(v.len()),
    ensures
        spec_dot(v, v) != S::spec_zero(),
{
    let d = spec_norm(v);
    assert(d.spec_exceeds(S::spec_zero()));
    S::exceeds_is_irreflexive(S::spec_zero());
    product_is_not_zero(d, d);
}

/// Where norms are lengths, the iteration can be run with every single response for which
/// `X^T y` is not zero.
pub proof fn correlated_response_iterates<S: ExactScalar>(
    x: Seq<Seq<S>>,
    y: Seq<Seq<S>>,
    p: nat,
)
    requires
        norms_are_lengths::<S>(),
        has_width(x, p),
        has_width(y, 1),
        x.len() == y.len(),
        spec_dot_mtv(x, spec_column(y, 0), p) != spec_zeros::<S>(p),
    ensures
        iterates(x, y, p),
{
    let zero = S::spec_zero();
    let n = x.len();
    let response = spec_column(y, 0);
    let g = spec_dot_mtv(x, response, p);
    let w = x_weight(x, response, p);
    let t = spec_dot_mv(x, w);
    let d = spec_norm(g);
    S::exceeds_is_irreflexive(zero);

    // g == d w, so y . t == g . w == d, and |w| == 1
    assert(d.spec_exceeds(zero));
    divided_is_multiple(g, d);
    assert(is_multiple(g, d, w));
    one_mul(d);
    S::mul_commutes(d, spec_norm(w));
    mul_cancel(spec_norm(w), S::spec_one(), d);
    dot_multiple(w, g, d, w);
    assert(spec_norm(w).spec_mul(spec_norm(w)) == spec_dot(w, w));
    S::mul_one(S::spec_one());
    S::mul_one(d);
    adjoint(x, response, w, p);
    assert(spec_dot(response, t) == d);

    // So t is not zero, nor is t . t.
    if t == spec_zeros::<S>(n) {
        dot_zeros(t, response, n as int);
    }
    let length = spec_norm(t);
    let square = spec_dot(t, t);
    only_zeros_are_degenerate(t);
    let c = single_loading(x, y, p);
    S::div_mul(d, square);
    if c == zero {
        mul_zero(square);
    }

    // (1 / c) g == (t . t) w == |t| (|t| w), whose norm is |t| |t| == (1 / c) d
    let r = S::spec_one().spec_div(c);
    let scaled = Seq::new(p, |i: int| r.spec_mul(g[i]));
    let once = Seq::new(p, |i: int| length.spec_mul(w[i]));
    S::div_mul(S::spec_one(), c);
    S::mul_associates(r, c, square);
    one_mul(square);
    assert(r.spec_mul(d) == square);
    assert(is_multiple(once, length, w));
    assert forall|i: int| 0 <= i < p implies #[trigger] scaled[i] == length.spec_mul(once[i]) by {
        assert(g[i] == d.spec_mul(w[i]));
        S::mul_associates(r, d, w[i]);
        S::mul_associates(length, length, w[i]);
    }
    assert(is_multiple(scaled, length, once));
    S::mul_one(length);
    assert(spec_norm(scaled) == r.spec_mul(d));

    // It is not zero, either.
    if scaled == spec_zeros::<S>(p) {
        if r == zero {
            mul_zero(c);
            S::one_is_not_zero();
        }
        assert forall|i: int| 0 <= i < p implies g[i] == zero by {
            assert(scaled[i] == zero);
            if g[i] != zero {
                product_is_not_zero(r, g[i]);
            }
        }
        assert(g =~= spec_zeros::<S>(p));
    }
    assert(scaled =~= Seq::new(g.len(), |i: int| r.spec_mul(g[i])));
    assert(norm_scales(r, g));
}

/// Where norms are lengths, the iteration gives for every single response for which `X^T y`
/// is not zero what the direct way gives: `X^T y`, normalized, and its Y-loading
/// `(y . t) / (t . t)`, after however many rounds.
pub proof fn iteration_reduces_to_single_response<S: ExactScalar>(
    x: Seq<Seq<S>>,
    y: Seq<Seq<S>>,
    p: nat,
    rounds: nat,
    tol: S,
)
    requires
        norms_are_lengths::<S>(),
        has_width(x, p),
        has_width(y, 1),
        x.len() == y.len(),
        spec_dot_mtv(x, spec_column(y, 0), p) != spec_zeros::<S>(p),
    ensures
        ({
            let response = spec_column(y, 0);
            let w = x_weight(x, response, p);
            let t = spec_dot_mv(x, w);
            nipals(x, y, p, 1, rounds, tol) == (
                w,
                seq![spec_dot(response, t).spec_div(spec_dot(t, t))],
            )
        }),
        nipals(x, y, p, 1, rounds, tol) == spec_component(x, y, p, 1),
{
    correlated_response_iterates(x, y, p);
    single_response_needs_no_iteration(x, y, p, rounds, tol);
}

/// Where the iteration comes to rest, the weight vector is a singular vector: it is parallel
/// to `X^T Y Y^T X w`.
pub proof fn rest_is_singular_vector<S: ExactScalar>(
    x: Seq<Seq<S>>,
    y: Seq<Seq<S>>,
    p: nat,
    m: nat,
    u: Seq<S>,
) -> (factor: S)
    requires
        has_width(x, p),
        has_width(y, m),
        x.len() == y.len(),
        next_score(x, y, p, m, u) == u,
        ({
            let w = x_weight(x, u, p);
            let (t, c) = (spec_dot_mv(x, w), y_loading(x, y, w, m));
            spec_dot(t, t) != S::spec_zero() && spec_dot(c, c) != S::spec_zero()
        }),
    ensures
        ({
            let w = x_weight(x, u, p);
            let t = spec_dot_mv(x, w);
            is_multiple(
                spec_dot_mtv(x, spec_dot_mv(y, spec_dot_mtv(y, t, m)), p),
                factor,
                w,
            )
        }),
{
    let w = x_weight(x, u, p);
    let (t, c) = (spec_dot_mv(x, w), y_loading(x, y, w, m));
    let (tt, cc) = (spec_dot(t, t), spec_dot(c, c));
    let a = spec_dot_mtv(y, t, m);
    let b = spec_dot_mv(y, a);
    let (g, h) = (spec_dot_mtv(x, u, p), spec_dot_mtv(x, b, p));
    // Y^T t == (t . t) c, so Y Y^T t == (t . t) Y c == (t . t) (c . c) u
    divided_is_multiple(a, tt);
    let yc = spec_dot_mv(y, c);
    divided_is_multiple(yc, cc);
    assert(u == divided(yc, cc));
    let k = tt.spec_mul(cc);
    assert forall|i: int| 0 <= i < y.len() implies #[trigger] b[i] == k.spec_mul(u[i]) by {
        assert(y[i].len() == m);
        dot_multiple(y[i], a, tt, c);
        assert(yc[i] == cc.spec_mul(u[i]));
        S::mul_associates(tt, cc, u[i]);
    }
    assert forall|j: int| 0 <= j < p implies #[trigger] h[j] == k.spec_mul(g[j]) by {
        dot_multiple(spec_column(x, j), b, k, u);
    }
    let (_to, from) = normalized_is_multiple(g);
    multiple_composes(h, k, g, from, w);
    k.spec_mul(from)
}

} // verus!
