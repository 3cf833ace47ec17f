//! What the rounds of the NIPALS iteration compute, for any number of responses.
use crate::laws::algebra::one_mul;
use crate::laws::orthogonality::{divided_is_multiple, dot_multiple, normalized_is_multiple};
use crate::laws::span::{is_multiple, multiple_composes, parallel};
use crate::matrix::{has_width, spec_column, spec_dot_mtv, spec_dot_mv};
use crate::model::spec_component;
use crate::nipals::{last_score, loading, next_score, nipals, x_weight};
use crate::scalar::{ExactScalar, Scalar};
use crate::vector::{difference, divided, normalized, spec_dot, spec_norm};
use vstd::prelude::*;

verus! {

/// The weight vector that a Y-score `u` gives: `X^T u`, normalized.
pub open spec fn weight_from<S: Scalar>(x: Seq<Seq<S>>, u: Seq<S>, p: nat) -> Seq<S> {
    normalized(spec_dot_mtv(x, u, p))
}

/// The Y-loading that a weight vector `w` gives: `Y^T t / (t . t)` for the score `t = X w`.
pub open spec fn loading_from<S: Scalar>(
    x: Seq<Seq<S>>,
    y: Seq<Seq<S>>,
    w: Seq<S>,
    m: nat,
) -> Seq<S> {
    let t = spec_dot_mv(x, w);
    divided(spec_dot_mtv(y, t, m), spec_dot(t, t))
}

/// The `k`-th iterate, from `u`, of the map that takes a Y-score to `Y c / (c . c)`, where
/// `c` is the Y-loading of its weight vector.
pub open spec fn iterate<S: Scalar>(
    x: Seq<Seq<S>>,
    y: Seq<Seq<S>>,
    p: nat,
    m: nat,
    u: Seq<S>,
    k: nat,
) -> Seq<S>
    decreases k,
{
    if k == 0 {
        u
    } else {
        let before = iterate(x, y, p, m, u, (k - 1) as nat);
        let c = loading_from(x, y, weight_from(x, before, p), m);
        divided(spec_dot_mv(y, c), spec_dot(c, c))
    }
}

/// Round `k` gives a Y-score that lies closer than `tol` to the one before.
pub open spec fn close<S: Scalar>(
    x: Seq<Seq<S>>,
    y: Seq<Seq<S>>,
    p: nat,
    m: nat,
    u: Seq<S>,
    k: nat,
    tol: S,
) -> bool {
    tol.spec_exceeds(
        spec_norm(
            difference(
                iterate(x, y, p, m, u, k),
                iterate(x, y, p, m, u, (k - 1) as nat),
            ),
        ),
    )
}

/// The weight vector of a Y-score is `X^T u`, normalized, and element `j` of the loading of a
/// score is the inner product of column `j` and the score, over that of the score with itself.
pub proof fn weights_and_loadings<S: Scalar>(
    a: Seq<Seq<S>>,
    u: Seq<S>,
    cols: nat,
    j: int,
)
    requires
        0 <= j < cols,
    ensures
        x_weight(a, u, cols) == normalized(
            Seq::new(cols, |k: int| spec_dot(spec_column(a, k), u)),
        ),
        loading(a, u, cols).len() == cols,
        loading(a, u, cols)[j] == spec_dot(spec_column(a, j), u).spec_div(spec_dot(u, u)),
{
    assert(spec_dot_mtv(a, u, cols) =~= Seq::new(
        cols,
        |k: int| spec_dot(spec_column(a, k), u),
    ));
}

/// Iterating once and then `k` times is iterating one time more.
proof fn iterate_shifts<S: Scalar>(
    x: Seq<Seq<S>>,
    y: Seq<Seq<S>>,
    p: nat,
    m: nat,
    u: Seq<S>,
    k: nat,
)
    ensures
        iterate(x, y, p, m, next_score(x, y, p, m, u), k) == iterate(x, y, p, m, u, k + 1),
    decreases k,
{
    if k == 0 {
        reveal_with_fuel(iterate, 2);
    } else {
        iterate_shifts(x, y, p, m, u, (k - 1) as nat);
    }
}

/// Every round starts from what the round before gave: the score at which the iteration
/// from `u` ends is an iterate, that of the first round that comes close to the one before,
/// or that of the last round where none does.
pub proof fn iteration_ends_at_first_close_round<S: Scalar>(
    x: Seq<Seq<S>>,
    y: Seq<Seq<S>>,
    p: nat,
    m: nat,
    u: Seq<S>,
    rounds: nat,
    tol: S,
) -> (k: nat)
    ensures
        k <= rounds,
        last_score(x, y, p, m, u, rounds, tol) == iterate(x, y, p, m, u, k),
        forall|a: nat| 1 <= a < k ==> !#[trigger] close(x, y, p, m, u, a, tol),
        k == rounds || (k >= 1 && close(x, y, p, m, u, k, tol)),
    decreases rounds,
{
    if rounds == 0 {
        0
    } else {
        let next = next_score(x, y, p, m, u);
        iterate_shifts(x, y, p, m, u, 0);
        assert(iterate(x, y, p, m, next, 0) == next);
        assert(iterate(x, y, p, m, u, 0) == u);
        if tol.spec_exceeds(spec_norm(difference(next, u))) {
            assert(close(x, y, p, m, u, 1, tol));
            1
        } else {
            assert(!close(x, y, p, m, u, 1, tol));
            let k = iteration_ends_at_first_close_round(
                x,
                y,
                p,
                m,
                next,
                (rounds - 1) as nat,
                tol,
            );
            iterate_shifts(x, y, p, m, u, k);
            assert forall|a: nat| 1 <= a < k + 1 implies !#[trigger] close(
                x,
                y,
                p,
                m,
                u,
                a,
                tol,
            ) by {
                if a > 1 {
                    let b = (a - 1) as nat;
                    iterate_shifts(x, y, p, m, u, b);
                    iterate_shifts(x, y, p, m, u, (b - 1) as nat);
                    assert(!close(x, y, p, m, next, b, tol));
                }
            }
            if k >= 1 {
                iterate_shifts(x, y, p, m, u, (k - 1) as nat);
                assert(close(x, y, p, m, next, k, tol) ==> close(x, y, p, m, u, k + 1, tol));
            }
            k + 1
        }
    }
}

/// The iteration starts from the first response, runs until a round comes close to the one
/// before, and gives the weight vector and the Y-loading of the iterate that it reaches.
pub proof fn iteration_gives_an_iterate<S: Scalar>(
    x: Seq<Seq<S>>,
    y: Seq<Seq<S>>,
    p: nat,
    m: nat,
    rounds: nat,
    tol: S,
) -> (k: nat)
    ensures
        k <= rounds,
        ({
            let first = spec_column(y, 0);
            let w = weight_from(x, iterate(x, y, p, m, first, k), p);
            &&& forall|a: nat| 1 <= a < k ==> !#[trigger] close(x, y, p, m, first, a, tol)
            &&& k == rounds || (k >= 1 && close(x, y, p, m, first, k, tol))
            &&& nipals(x, y, p, m, rounds, tol) == (w, loading_from(x, y, w, m))
        }),
{
    iteration_ends_at_first_close_round(x, y, p, m, spec_column(y, 0), rounds, tol)
}

/// The component of several responses is what the iteration gives after at most five
/// hundred rounds, which stops where a score moves by less than one over ten to the tenth.
pub proof fn component_of_several_responses<S: Scalar>(
    x: Seq<Seq<S>>,
    y: Seq<Seq<S>>,
    p: nat,
    m: nat,
) -> (k: nat)
    requires
        m != 1,
    ensures
        k <= 500,
        ({
            let first = spec_column(y, 0);
            let tol = S::spec_one().spec_div(S::spec_from_u64(10_000_000_000));
            let w = weight_from(x, iterate(x, y, p, m, first, k), p);
            &&& forall|a: nat| 1 <= a < k ==> !#[trigger] close(x, y, p, m, first, a, tol)
            &&& k == 500 || (k >= 1 && close(x, y, p, m, first, k, tol))
            &&& spec_component(x, y, p, m) == (w, loading_from(x, y, w, m))
        }),
{
    let tol = S::spec_one().spec_div(S::spec_from_u64(10_000_000_000));
    iteration_gives_an_iterate(x, y, p, m, 500, tol)
}

/// The component of a single response has the weight vector of the response itself.
pub proof fn component_of_one_response<S: Scalar>(x: Seq<Seq<S>>, y: Seq<Seq<S>>, p: nat)
    ensures
        ({
            let w = weight_from(x, spec_column(y, 0), p);
            spec_component(x, y, p, 1) == (w, loading_from(x, y, w, 1))
        }),
{
    let w = weight_from(x, spec_column(y, 0), p);
    assert(spec_component(x, y, p, 1).1 =~= loading_from(x, y, w, 1));
}

/// The image of `g` under the `k`-th power of `X^T Y Y^T X`.
pub open spec fn power<S: Scalar>(
    x: Seq<Seq<S>>,
    y: Seq<Seq<S>>,
    p: nat,
    m: nat,
    g: Seq<S>,
    k: nat,
) -> Seq<S>
    decreases k,
{
    if k == 0 {
        g
    } else {
        let t = spec_dot_mv(x, power(x, y, p, m, g, (k - 1) as nat));
        spec_dot_mtv(x, spec_dot_mv(y, spec_dot_mtv(y, t, m)), p)
    }
}

/// The scores and Y-loadings of the first `k` rounds from `u` are not orthogonal to
/// themselves, so that the rounds divide by no zero.
pub open spec fn rounds_divide<S: Scalar>(
    x: Seq<Seq<S>>,
    y: Seq<Seq<S>>,
    p: nat,
    m: nat,
    u: Seq<S>,
    k: nat,
) -> bool {
    forall|a: nat|
        a < k ==> {
            let w = weight_from(x, #[trigger] iterate(x, y, p, m, u, a), p);
            let (t, c) = (spec_dot_mv(x, w), loading_from(x, y, w, m));
            spec_dot(t, t) != S::spec_zero() && spec_dot(c, c) != S::spec_zero()
        }
}

proof fn product_of_multiple<S: ExactScalar>(a: Seq<Seq<S>>, p: nat, u: Seq<S>, s: S, v: Seq<S>)
    requires
        has_width(a, p),
        v.len() == p,
        is_multiple(u, s, v),
    ensures
        is_multiple(spec_dot_mv(a, u), s, spec_dot_mv(a, v)),
{
    assert forall|i: int| 0 <= i < a.len() implies #[trigger] spec_dot_mv(a, u)[i] == s.spec_mul(
        spec_dot_mv(a, v)[i],
    ) by {
        assert(a[i].len() == p);
        dot_multiple(a[i], u, s, v);
    }
}

proof fn transposed_product_of_multiple<S: ExactScalar>(
    a: Seq<Seq<S>>,
    p: nat,
    u: Seq<S>,
    s: S,
    v: Seq<S>,
)
    requires
        v.len() == a.len(),
        is_multiple(u, s, v),
    ensures
        is_multiple(spec_dot_mtv(a, u, p), s, spec_dot_mtv(a, v, p)),
{
    assert forall|j: int| 0 <= j < p implies #[trigger] spec_dot_mtv(a, u, p)[j] == s.spec_mul(
        spec_dot_mtv(a, v, p)[j],
    ) by {
        dot_multiple(spec_column(a, j), u, s, v);
    }
}

/// `X^T Y Y^T X` takes multiples to multiples.
proof fn power_step_of_multiple<S: ExactScalar>(
    x: Seq<Seq<S>>,
    y: Seq<Seq<S>>,
    p: nat,
    m: nat,
    u: Seq<S>,
    s: S,
    v: Seq<S>,
)
    requires
        has_width(x, p),
        has_width(y, m),
        x.len() == y.len(),
        v.len() == p,
        is_multiple(u, s, v),
    ensures
        is_multiple(power(x, y, p, m, u, 1), s, power(x, y, p, m, v, 1)),
{
    reveal_with_fuel(power, 2);
    let (t, z) = (spec_dot_mv(x, u), spec_dot_mv(x, v));
    product_of_multiple(x, p, u, s, v);
    transposed_product_of_multiple(y, m, t, s, z);
    product_of_multiple(y, m, spec_dot_mtv(y, t, m), s, spec_dot_mtv(y, z, m));
    transposed_product_of_multiple(
        x,
        p,
        spec_dot_mv(y, spec_dot_mtv(y, t, m)),
        s,
        spec_dot_mv(y, spec_dot_mtv(y, z, m)),
    );
}

/// A vector is parallel to its normalization.
proof fn normalized_is_parallel<S: ExactScalar>(v: Seq<S>) -> (r: (S, S))
    ensures
        is_multiple(normalized(v), r.0, v),
        is_multiple(v, r.1, normalized(v)),
{
    normalized_is_multiple(v)
}

proof fn divided_is_parallel<S: ExactScalar>(v: Seq<S>, d: S)
    requires
        d != S::spec_zero(),
    ensures
        is_multiple(divided(v, d), S::spec_one().spec_div(d), v),
        is_multiple(v, d, divided(v, d)),
{
    divided_is_multiple(v, d);
}

/// One round applies `X^T Y Y^T X` to `X^T u`, up to a factor.
proof fn round_applies_the_power<S: ExactScalar>(
    x: Seq<Seq<S>>,
    y: Seq<Seq<S>>,
    p: nat,
    m: nat,
    u: Seq<S>,
) -> (r: (S, S))
    requires
        has_width(x, p),
        has_width(y, m),
        x.len() == y.len(),
        u.len() == x.len(),
        rounds_divide(x, y, p, m, u, 1),
    ensures
        ({
            let h = spec_dot_mtv(x, iterate(x, y, p, m, u, 1), p);
            let g = power(x, y, p, m, spec_dot_mtv(x, u, p), 1);
            is_multiple(h, r.0, g) && is_multiple(g, r.1, h)
        }),
{
    reveal_with_fuel(iterate, 2);
    reveal_with_fuel(power, 2);
    assert(iterate(x, y, p, m, u, 0) == u);
    let g = spec_dot_mtv(x, u, p);
    let w = normalized(g);
    let t = spec_dot_mv(x, w);
    let yt = spec_dot_mtv(y, t, m);
    let c = divided(yt, spec_dot(t, t));
    let yc = spec_dot_mv(y, c);
    let next = divided(yc, spec_dot(c, c));
    assert(c == loading_from(x, y, weight_from(x, u, p), m));
    assert(next == iterate(x, y, p, m, u, 1));
    let h = spec_dot_mtv(x, next, p);
    let (tt, cc) = (spec_dot(t, t), spec_dot(c, c));
    let (it, ic) = (S::spec_one().spec_div(tt), S::spec_one().spec_div(cc));
    let (to, from) = normalized_is_parallel(g);
    divided_is_parallel(yt, tt);
    divided_is_parallel(yc, cc);
    let y_yt = spec_dot_mv(y, yt);
    let wp = power(x, y, p, m, w, 1);
    let gp = power(x, y, p, m, g, 1);
    assert(wp == spec_dot_mtv(x, y_yt, p));

    // h == X^T Y c / cc == X^T Y Y^T t / (tt cc)
    product_of_multiple(y, m, c, it, yt);
    multiple_composes(next, ic, yc, it, y_yt);
    transposed_product_of_multiple(x, p, next, ic.spec_mul(it), y_yt);
    power_step_of_multiple(x, y, p, m, w, to, g);
    multiple_composes(h, ic.spec_mul(it), wp, to, gp);

    // and back
    product_of_multiple(y, m, yt, tt, c);
    multiple_composes(y_yt, tt, yc, cc, next);
    transposed_product_of_multiple(x, p, y_yt, tt.spec_mul(cc), next);
    power_step_of_multiple(x, y, p, m, g, from, w);
    multiple_composes(gp, from, wp, tt.spec_mul(cc), h);
    (ic.spec_mul(it).spec_mul(to), from.spec_mul(tt.spec_mul(cc)))
}

proof fn iterate_len<S: Scalar>(
    x: Seq<Seq<S>>,
    y: Seq<Seq<S>>,
    p: nat,
    m: nat,
    u: Seq<S>,
    k: nat,
)
    requires
        u.len() == y.len(),
    ensures
        iterate(x, y, p, m, u, k).len() == y.len(),
{
}

/// One round more is one round from the iterate before.
proof fn iterate_once_more<S: Scalar>(
    x: Seq<Seq<S>>,
    y: Seq<Seq<S>>,
    p: nat,
    m: nat,
    u: Seq<S>,
    k: nat,
)
    ensures
        iterate(x, y, p, m, u, k + 1) == iterate(x, y, p, m, iterate(x, y, p, m, u, k), 1),
{
    reveal_with_fuel(iterate, 2);
}

proof fn iterates_are_powers<S: ExactScalar>(
    x: Seq<Seq<S>>,
    y: Seq<Seq<S>>,
    p: nat,
    m: nat,
    u: Seq<S>,
    k: nat,
) -> (r: (S, S))
    requires
        has_width(x, p),
        has_width(y, m),
        x.len() == y.len(),
        u.len() == x.len(),
        rounds_divide(x, y, p, m, u, k),
    ensures
        ({
            let h = spec_dot_mtv(x, iterate(x, y, p, m, u, k), p);
            let g = power(x, y, p, m, spec_dot_mtv(x, u, p), k);
            is_multiple(h, r.0, g) && is_multiple(g, r.1, h)
        }),
    decreases k,
{
    let start = spec_dot_mtv(x, u, p);
    if k == 0 {
        let one = S::spec_one();
        assert forall|j: int| 0 <= j < p implies #[trigger] start[j] == one.spec_mul(start[j]) by {
            one_mul(start[j]);
        }
        (one, one)
    } else {
        let b = (k - 1) as nat;
        let (s, r) = iterates_are_powers(x, y, p, m, u, b);
        let before = iterate(x, y, p, m, u, b);
        iterate_len(x, y, p, m, u, b);
        iterate_once_more(x, y, p, m, u, b);
        assert(iterate(x, y, p, m, before, 0) == before);
        let (f, e) = round_applies_the_power(x, y, p, m, before);
        let (h, g) = (spec_dot_mtv(x, before, p), power(x, y, p, m, start, b));
        let (hp, gp) = (power(x, y, p, m, h, 1), power(x, y, p, m, g, 1));
        let next = spec_dot_mtv(x, iterate(x, y, p, m, u, k), p);
        reveal_with_fuel(power, 2);
        assert(gp == power(x, y, p, m, start, k));
        power_step_of_multiple(x, y, p, m, h, s, g);
        power_step_of_multiple(x, y, p, m, g, r, h);
        multiple_composes(next, f, hp, s, gp);
        multiple_composes(gp, r, hp, e, next);
        (f.spec_mul(s), r.spec_mul(e))
    }
}

/// The iteration is a power iteration: where the `k` rounds that it runs divide by no zero,
/// its weight vector is parallel to `(X^T Y Y^T X)^k X^T y`, for the first response `y` and
/// any number of responses.
pub proof fn iteration_applies_powers<S: ExactScalar>(
    x: Seq<Seq<S>>,
    y: Seq<Seq<S>>,
    p: nat,
    m: nat,
    rounds: nat,
    tol: S,
) -> (k: nat)
    requires
        has_width(x, p),
        has_width(y, m),
        x.len() == y.len(),
    ensures
        ({
            let first = spec_column(y, 0);
            let g = spec_dot_mtv(x, first, p);
            &&& k <= rounds
            &&& forall|a: nat| 1 <= a < k ==> !#[trigger] close(x, y, p, m, first, a, tol)
            &&& k == rounds || (k >= 1 && close(x, y, p, m, first, k, tol))
            &&& rounds_divide(x, y, p, m, first, k) ==> parallel(
                nipals(x, y, p, m, rounds, tol).0,
                power(x, y, p, m, g, k),
            )
        }),
{
    let first = spec_column(y, 0);
    let k = iteration_gives_an_iterate(x, y, p, m, rounds, tol);
    if rounds_divide(x, y, p, m, first, k) {
        let (s, r) = iterates_are_powers(x, y, p, m, first, k);
        let h = spec_dot_mtv(x, iterate(x, y, p, m, first, k), p);
        let g = power(x, y, p, m, spec_dot_mtv(x, first, p), k);
        let (to, from) = normalized_is_parallel(h);
        let w = normalized(h);
        multiple_composes(w, to, h, s, g);
        multiple_composes(g, r, h, from, w);
    }
    k
}

} // verus!
