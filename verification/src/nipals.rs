//! Weight vectors of partial least squares, by the NIPALS iteration.
use crate::matrix::{dot_mtv, dot_mv, spec_column, spec_dot_mtv, spec_dot_mv, Matrix};
use crate::scalar::Scalar;
use crate::vector::{
    difference, divide, divided, dot, norm, normalize, normalized, spec_dot, spec_norm, subtracted,
};
use vstd::prelude::*;

verus! {

/// The weight vector of the Y-score `u`: `X^T u`, normalized.
pub open spec fn x_weight<S: Scalar>(x: Seq<Seq<S>>, u: Seq<S>, p: nat) -> Seq<S> {
    normalized(spec_dot_mtv(x, u, p))
}

/// The loading of the score `t` on the `cols` columns of `m`: `M^T t / (t^T t)`.
pub open spec fn loading<S: Scalar>(m: Seq<Seq<S>>, t: Seq<S>, cols: nat) -> Seq<S> {
    divided(spec_dot_mtv(m, t, cols), spec_dot(t, t))
}

/// The Y-score of the Y-loading `c`: `Y c / (c^T c)`.
pub open spec fn y_score<S: Scalar>(y: Seq<Seq<S>>, c: Seq<S>) -> Seq<S> {
    divided(spec_dot_mv(y, c), spec_dot(c, c))
}

/// The Y-loading of the weight vector `w`.
pub open spec fn y_loading<S: Scalar>(
    x: Seq<Seq<S>>,
    y: Seq<Seq<S>>,
    w: Seq<S>,
    m: nat,
) -> Seq<S> {
    loading(y, spec_dot_mv(x, w), m)
}

/// One round of the iteration: the Y-score that follows `u`.
pub open spec fn next_score<S: Scalar>(
    x: Seq<Seq<S>>,
    y: Seq<Seq<S>>,
    p: nat,
    m: nat,
    u: Seq<S>,
) -> Seq<S> {
    y_score(y, y_loading(x, y, x_weight(x, u, p), m))
}

/// The Y-score at which the iteration from `u` ends: the first that lies closer than `tol`
/// to the one before, or that of round `rounds`.
pub open spec fn last_score<S: Scalar>(
    x: Seq<Seq<S>>,
    y: Seq<Seq<S>>,
    p: nat,
    m: nat,
    u: Seq<S>,
    rounds: nat,
    tol: S,
) -> Seq<S>
    decreases rounds,
{
    if rounds == 0 {
        u
    } else {
        let next = next_score(x, y, p, m, u);
        if tol.spec_exceeds(spec_norm(difference(next, u))) {
            next
        } else {
            last_score(x, y, p, m, next, (rounds - 1) as nat, tol)
        }
    }
}

/// Weight vector and Y-loading of the iteration that starts from the first column of `y`.
pub open spec fn nipals<S: Scalar>(
    x: Seq<Seq<S>>,
    y: Seq<Seq<S>>,
    p: nat,
    m: nat,
    rounds: nat,
    tol: S,
) -> (Seq<S>, Seq<S>) {
    let w = x_weight(x, last_score(x, y, p, m, spec_column(y, 0), rounds, tol), p);
    (w, y_loading(x, y, w, m))
}

/// The weight vector of a single response `y`.
pub fn pls_weight_single<S: Scalar>(x: &Matrix<S>, y: &Vec<S>) -> (w: Vec<S>)
    requires
        x.wf(),
        x@.len() == y@.len(),
    ensures
        w@ == x_weight(x@, y@, x.width()),
{
    let mut w: Vec<S> = dot_mtv(x, y);
    normalize(&mut w);
    w
}

/// The loading of the score `t` on the columns of `a`.
pub fn score_loading<S: Scalar>(a: &Matrix<S>, t: &Vec<S>) -> (r: Vec<S>)
    requires
        a.wf(),
        a@.len() == t@.len(),
    ensures
        r@ == loading(a@, t@, a.width()),
{
    let mut r: Vec<S> = dot_mtv(a, t);
    divide(&mut r, dot(t, t));
    r
}

/// The weight vector and the Y-loading of several responses, by at most `max_iter` rounds
/// of NIPALS.
pub fn pls_weight_multi<S: Scalar>(x: &Matrix<S>, y: &Matrix<S>, max_iter: usize, tol: S) -> (r: (
    Vec<S>,
    Vec<S>,
))
    requires
        x.wf(),
        y.wf(),
        x@.len() == y@.len(),
        y.width() > 0,
    ensures
        (r.0@, r.1@) == nipals(x@, y@, x.width(), y.width(), max_iter as nat, tol),
{
    let ghost first = spec_column(y@, 0);
    let mut u: Vec<S> = y.column(0);
    let mut i: usize = 0;
    let mut converged: bool = false;
    while i < max_iter && !converged
        invariant
            i <= max_iter,
            x.wf(),
            y.wf(),
            x@.len() == y@.len(),
            u@.len() == y@.len(),
            !converged ==> last_score(x@, y@, x.width(), y.width(), first, max_iter as nat, tol)
                == last_score(x@, y@, x.width(), y.width(), u@, (max_iter - i) as nat, tol),
            converged ==> last_score(x@, y@, x.width(), y.width(), first, max_iter as nat, tol)
                == u@,
        decreases max_iter - i,
    {
        let w: Vec<S> = pls_weight_single(x, &u);
        let t: Vec<S> = dot_mv(x, &w);
        let c: Vec<S> = score_loading(y, &t);
        let mut u_new: Vec<S> = dot_mv(y, &c);
        divide(&mut u_new, dot(&c, &c));
        let diff: S = norm(&subtracted(&u_new, &u));
        converged = tol.exceeds(diff);
        u = u_new;
        i += 1;
    }
    let w: Vec<S> = pls_weight_single(x, &u);
    let t: Vec<S> = dot_mv(x, &w);
    let c: Vec<S> = score_loading(y, &t);
    (w, c)
}

} // verus!
