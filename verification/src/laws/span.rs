//! Multiples and linear combinations of vectors.
use crate::laws::algebra::{dot_commutes, dot_linear, dot_zeros, mul_cancel, mul_zero, zero_add};
use crate::laws::orthogonality::dot_multiple;
use crate::laws::peeling::nondegenerate;
use crate::laws::products::{dot_unit, row_times_dot, unit_row_times};
use crate::matrix::{has_width, row_times, spec_column, spec_dot_mv};
use crate::scalar::{ExactScalar, Scalar};
use crate::solve::unit;
use crate::vector::{dot_prefix, spec_dot, spec_zeros};
use vstd::prelude::*;

verus! {

/// `u == s * v`.
pub open spec fn is_multiple<S: Scalar>(u: Seq<S>, s: S, v: Seq<S>) -> bool {
    &&& u.len() == v.len()
    &&& forall|i: int| 0 <= i < v.len() ==> #[trigger] u[i] == s.spec_mul(v[i])
}

/// Each of the vectors is a multiple of the other.
pub open spec fn parallel<S: Scalar>(u: Seq<S>, v: Seq<S>) -> bool {
    &&& exists|s: S| is_multiple(u, s, v)
    &&& exists|s: S| is_multiple(v, s, u)
}

/// A multiple of a multiple is a multiple.
pub proof fn multiple_composes<S: ExactScalar>(u: Seq<S>, s: S, v: Seq<S>, r: S, w: Seq<S>)
    requires
        is_multiple(u, s, v),
        is_multiple(v, r, w),
    ensures
        is_multiple(u, s.spec_mul(r), w),
{
    assert forall|i: int| 0 <= i < w.len() implies #[trigger] u[i] == s.spec_mul(r).spec_mul(
        w[i],
    ) by {
        assert(v[i] == r.spec_mul(w[i]));
        S::mul_associates(s, r, w[i]);
    }
}

/// `v` is the combination of the vectors of `basis` with the given coefficients.
pub open spec fn combines<S: Scalar>(
    v: Seq<S>,
    coefficients: Seq<S>,
    basis: Seq<Seq<S>>,
    p: nat,
) -> bool {
    coefficients.len() == basis.len() && v == row_times(coefficients, basis, p)
}

/// `v` is some combination of the vectors of `basis`, which have `p` elements.
pub open spec fn in_span<S: Scalar>(v: Seq<S>, basis: Seq<Seq<S>>, p: nat) -> bool {
    exists|coefficients: Seq<S>| combines(v, coefficients, basis, p)
}

/// The span is closed under `w == u + s * v`.
pub proof fn span_combines<S: ExactScalar>(
    w: Seq<S>,
    u: Seq<S>,
    s: S,
    v: Seq<S>,
    basis: Seq<Seq<S>>,
    p: nat,
)
    requires
        in_span(u, basis, p),
        in_span(v, basis, p),
        w.len() == p,
        forall|j: int| 0 <= j < p ==> #[trigger] w[j] == u[j].spec_add(s.spec_mul(v[j])),
    ensures
        in_span(w, basis, p),
{
    let a = choose|a: Seq<S>| combines(u, a, basis, p);
    let b = choose|b: Seq<S>| combines(v, b, basis, p);
    let c = Seq::new(basis.len(), |i: int| a[i].spec_add(s.spec_mul(b[i])));
    assert forall|j: int| 0 <= j < p implies w[j] == row_times(c, basis, p)[j] by {
        dot_linear(c, a, s, b, spec_column(basis, j), basis.len() as int);
    }
    assert(w =~= row_times(c, basis, p));
    assert(combines(w, c, basis, p));
}

/// The span holds the vector of zeros.
pub proof fn span_holds_zeros<S: ExactScalar>(basis: Seq<Seq<S>>, p: nat)
    ensures
        in_span(spec_zeros::<S>(p), basis, p),
{
    let c = spec_zeros::<S>(basis.len());
    assert forall|j: int| 0 <= j < p implies row_times(c, basis, p)[j] == S::spec_zero() by {
        dot_zeros(c, spec_column(basis, j), basis.len() as int);
    }
    assert(spec_zeros::<S>(p) =~= row_times(c, basis, p));
    assert(combines(spec_zeros::<S>(p), c, basis, p));
}

/// The span is closed under multiples.
pub proof fn span_scales<S: ExactScalar>(
    w: Seq<S>,
    s: S,
    v: Seq<S>,
    basis: Seq<Seq<S>>,
    p: nat,
)
    requires
        in_span(v, basis, p),
        is_multiple(w, s, v),
    ensures
        in_span(w, basis, p),
{
    let z = spec_zeros::<S>(p);
    span_holds_zeros(basis, p);
    assert forall|j: int| 0 <= j < p implies #[trigger] w[j] == z[j].spec_add(
        s.spec_mul(v[j]),
    ) by {
        zero_add(s.spec_mul(v[j]));
    }
    span_combines(w, z, s, v, basis, p);
}

/// The span holds every vector of the basis.
pub proof fn span_holds<S: ExactScalar>(basis: Seq<Seq<S>>, a: int, p: nat)
    requires
        has_width(basis, p),
        0 <= a < basis.len(),
    ensures
        in_span(basis[a], basis, p),
{
    unit_row_times(basis, a, p);
    assert(combines(basis[a], unit::<S>(a, basis.len()), basis, p));
}

/// What maps every vector of the basis to zero maps the span to zero.
pub proof fn span_annihilated<S: ExactScalar>(
    x: Seq<Seq<S>>,
    v: Seq<S>,
    basis: Seq<Seq<S>>,
    p: nat,
)
    requires
        has_width(x, p),
        has_width(basis, p),
        in_span(v, basis, p),
        forall|a: int|
            0 <= a < basis.len() ==> spec_dot_mv(x, #[trigger] basis[a]) == spec_zeros::<S>(
                x.len(),
            ),
    ensures
        spec_dot_mv(x, v) == spec_zeros::<S>(x.len()),
{
    let c = choose|c: Seq<S>| combines(v, c, basis, p);
    assert forall|i: int| 0 <= i < x.len() implies spec_dot_mv(x, v)[i] == S::spec_zero() by {
        assert(x[i].len() == p);
        dot_commutes(x[i], v, p as int);
        row_times_dot(c, basis, x[i], p);
        let products = spec_dot_mv(basis, x[i]);
        assert forall|a: int| 0 <= a < basis.len() implies #[trigger] products[a]
            == S::spec_zero() by {
            assert(basis[a].len() == p);
            dot_commutes(basis[a], x[i], p as int);
            assert(spec_dot_mv(x, basis[a])[i] == S::spec_zero());
        }
        dot_zeros(products, c, basis.len() as int);
    }
    assert(spec_dot_mv(x, v) =~= spec_zeros::<S>(x.len()));
}

/// A combination of orthogonal vectors that is orthogonal to each of them is zero, and so
/// are its coefficients.
pub proof fn orthogonal_combination_is_zero<S: ExactScalar>(
    d: Seq<S>,
    coefficients: Seq<S>,
    basis: Seq<Seq<S>>,
    n: nat,
)
    requires
        has_width(basis, n),
        nondegenerate(basis),
        forall|a: int, b: int|
            0 <= a < basis.len() && 0 <= b < basis.len() && a != b ==> spec_dot(
                #[trigger] basis[a],
                #[trigger] basis[b],
            ) == S::spec_zero(),
        combines(d, coefficients, basis, n),
        forall|a: int|
            0 <= a < basis.len() ==> spec_dot(#[trigger] basis[a], d) == S::spec_zero(),
    ensures
        forall|a: int| 0 <= a < basis.len() ==> #[trigger] coefficients[a] == S::spec_zero(),
        d == spec_zeros::<S>(n),
{
    let k = basis.len();
    assert forall|a: int| 0 <= a < k implies #[trigger] coefficients[a] == S::spec_zero() by {
        let t = basis[a];
        let square = spec_dot(t, t);
        assert(t.len() == n);
        row_times_dot(coefficients, basis, t, n);
        dot_commutes(d, t, n as int);
        let products = spec_dot_mv(basis, t);
        let e = unit::<S>(a, k);
        assert forall|b: int| 0 <= b < k implies #[trigger] products[b] == square.spec_mul(
            e[b],
        ) by {
            if b == a {
                S::mul_one(square);
            } else {
                assert(spec_dot(basis[b], basis[a]) == S::spec_zero());
                mul_zero(square);
            }
        }
        dot_multiple(coefficients, products, square, e);
        dot_unit(coefficients, a);
        // square * coefficients[a] == 0
        mul_zero(square);
        S::mul_commutes(square, coefficients[a]);
        S::mul_commutes(square, S::spec_zero());
        mul_cancel(coefficients[a], S::spec_zero(), square);
    }
    assert forall|j: int| 0 <= j < n implies d[j] == S::spec_zero() by {
        dot_zeros(coefficients, spec_column(basis, j), k as int);
    }
    assert(d =~= spec_zeros::<S>(n));
}

proof fn span_of_prefix<S: ExactScalar>(
    q: Seq<S>,
    inner: Seq<Seq<S>>,
    basis: Seq<Seq<S>>,
    p: nat,
    k: int,
)
    requires
        0 <= k <= inner.len(),
        q.len() == inner.len(),
        forall|b: int| 0 <= b < inner.len() ==> in_span(#[trigger] inner[b], basis, p),
    ensures
        in_span(Seq::new(p, |j: int| dot_prefix(q, spec_column(inner, j), k)), basis, p),
    decreases k,
{
    let v = Seq::new(p, |j: int| dot_prefix(q, spec_column(inner, j), k));
    if k == 0 {
        span_holds_zeros(basis, p);
        assert(v =~= spec_zeros::<S>(p));
    } else {
        let before = Seq::new(p, |j: int| dot_prefix(q, spec_column(inner, j), k - 1));
        span_of_prefix(q, inner, basis, p, k - 1);
        assert(in_span(inner[k - 1], basis, p));
        span_combines(v, before, q[k - 1], inner[k - 1], basis, p);
    }
}

/// What is in the span of vectors of a span is in that span.
pub proof fn span_is_transitive<S: ExactScalar>(
    v: Seq<S>,
    inner: Seq<Seq<S>>,
    basis: Seq<Seq<S>>,
    p: nat,
)
    requires
        in_span(v, inner, p),
        forall|b: int| 0 <= b < inner.len() ==> in_span(#[trigger] inner[b], basis, p),
    ensures
        in_span(v, basis, p),
{
    let q = choose|q: Seq<S>| combines(v, q, inner, p);
    span_of_prefix(q, inner, basis, p, inner.len() as int);
    assert(v =~= Seq::new(p, |j: int| dot_prefix(q, spec_column(inner, j), inner.len() as int)));
}

} // verus!
