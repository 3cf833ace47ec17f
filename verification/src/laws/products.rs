//! Products of matrices over a field.
use crate::laws::algebra::{dot_commutes, dot_ext, dot_linear, dot_zeros, mul_zero, zero_add};
use crate::matrix::{
    has_width, row_times, spec_column, spec_dot_mtv, spec_dot_mv, spec_product,
};
use crate::scalar::{ExactScalar, Scalar};
use crate::solve::{identity, unit};
use crate::vector::{dot_prefix, spec_dot};
use vstd::prelude::*;

verus! {

/// `A^T u` over the first `k` rows.
spec fn dot_mtv_prefix<S: Scalar>(a: Seq<Seq<S>>, u: Seq<S>, p: nat, k: int) -> Seq<S> {
    Seq::new(p, |j: int| dot_prefix(spec_column(a, j), u, k))
}

proof fn adjoint_prefix<S: ExactScalar>(a: Seq<Seq<S>>, u: Seq<S>, v: Seq<S>, p: nat, k: int)
    requires
        has_width(a, p),
        u.len() == a.len(),
        v.len() == p,
        0 <= k <= a.len(),
    ensures
        dot_prefix(u, spec_dot_mv(a, v), k) == spec_dot(dot_mtv_prefix(a, u, p, k), v),
    decreases k,
{
    let w = dot_mtv_prefix(a, u, p, k);
    if k == 0 {
        dot_zeros(w, v, p as int);
    } else {
        let before = dot_mtv_prefix(a, u, p, k - 1);
        adjoint_prefix(a, u, v, p, k - 1);
        assert forall|j: int| 0 <= j < p implies #[trigger] w[j] == before[j].spec_add(
            u[k - 1].spec_mul(a[k - 1][j]),
        ) by {
            S::mul_commutes(spec_column(a, j)[k - 1], u[k - 1]);
        }
        dot_linear(w, before, u[k - 1], a[k - 1], v, p as int);
        assert(a[k - 1].len() == p);
    }
}

/// A matrix moves to the other side of an inner product by transposition:
/// `u . (A v) == (A^T u) . v`.
pub proof fn adjoint<S: ExactScalar>(a: Seq<Seq<S>>, u: Seq<S>, v: Seq<S>, p: nat)
    requires
        has_width(a, p),
        u.len() == a.len(),
        v.len() == p,
    ensures
        spec_dot(u, spec_dot_mv(a, v)) == spec_dot(spec_dot_mtv(a, u, p), v),
{
    adjoint_prefix(a, u, v, p, a.len() as int);
    dot_ext(
        dot_mtv_prefix(a, u, p, a.len() as int),
        v,
        spec_dot_mtv(a, u, p),
        v,
        p as int,
    );
}

/// Multiplication from the left is transposed multiplication.
pub proof fn row_times_is_dot_mtv<S: ExactScalar>(u: Seq<S>, a: Seq<Seq<S>>, p: nat)
    requires
        u.len() == a.len(),
    ensures
        row_times(u, a, p) == spec_dot_mtv(a, u, p),
{
    assert forall|j: int| 0 <= j < p implies row_times(u, a, p)[j] == spec_dot_mtv(a, u, p)[j] by {
        dot_commutes(u, spec_column(a, j), u.len() as int);
    }
    assert(row_times(u, a, p) =~= spec_dot_mtv(a, u, p));
}

/// `(u A) . v == u . (A v)`.
pub proof fn row_times_dot<S: ExactScalar>(u: Seq<S>, a: Seq<Seq<S>>, v: Seq<S>, p: nat)
    requires
        has_width(a, p),
        u.len() == a.len(),
        v.len() == p,
    ensures
        spec_dot(row_times(u, a, p), v) == spec_dot(u, spec_dot_mv(a, v)),
{
    row_times_is_dot_mtv(u, a, p);
    adjoint(a, u, v, p);
}

/// `(u A) B == u (A B)`.
pub proof fn row_times_associates<S: ExactScalar>(
    u: Seq<S>,
    a: Seq<Seq<S>>,
    b: Seq<Seq<S>>,
    p: nat,
    q: nat,
)
    requires
        has_width(a, p),
        u.len() == a.len(),
        b.len() == p,
    ensures
        row_times(row_times(u, a, p), b, q) == row_times(u, spec_product(a, b, q), q),
{
    let left = row_times(row_times(u, a, p), b, q);
    let right = row_times(u, spec_product(a, b, q), q);
    assert forall|j: int| 0 <= j < q implies left[j] == right[j] by {
        let c = spec_column(b, j);
        row_times_dot(u, a, c, p);
        assert(spec_dot_mv(a, c) =~= spec_column(spec_product(a, b, q), j));
    }
    assert(left =~= right);
}

proof fn dot_unit_prefix<S: ExactScalar>(v: Seq<S>, i: int, n: nat, k: int)
    requires
        0 <= i < n,
        0 <= k <= n,
    ensures
        dot_prefix(v, unit::<S>(i, n), k) == (if k <= i {
            S::spec_zero()
        } else {
            v[i]
        }),
    decreases k,
{
    if k > 0 {
        dot_unit_prefix(v, i, n, k - 1);
        mul_zero(v[k - 1]);
        S::mul_one(v[k - 1]);
        if k - 1 == i {
            zero_add(v[i]);
        } else if k - 1 < i {
            S::add_zero(S::spec_zero());
        } else {
            S::add_zero(v[i]);
        }
    }
}

/// The inner product with a row of the identity picks an element.
pub proof fn dot_unit<S: ExactScalar>(v: Seq<S>, i: int)
    requires
        0 <= i < v.len(),
    ensures
        spec_dot(v, unit::<S>(i, v.len())) == v[i],
        spec_dot(unit::<S>(i, v.len()), v) == v[i],
{
    let e = unit::<S>(i, v.len());
    dot_unit_prefix(v, i, v.len(), v.len() as int);
    dot_commutes(e, v, v.len() as int);
}

/// The identity is neutral: `v I == v`.
pub proof fn row_times_identity<S: ExactScalar>(v: Seq<S>)
    ensures
        row_times(v, identity::<S>(v.len()), v.len()) == v,
{
    let n = v.len();
    assert forall|j: int| 0 <= j < n implies row_times(v, identity::<S>(n), n)[j] == v[j] by {
        assert(spec_column(identity::<S>(n), j) =~= unit::<S>(j, n));
        dot_unit(v, j);
    }
    assert(row_times(v, identity::<S>(n), n) =~= v);
}

/// A row of the identity picks a row: `e_i A == A[i]`.
pub proof fn unit_row_times<S: ExactScalar>(a: Seq<Seq<S>>, i: int, p: nat)
    requires
        has_width(a, p),
        0 <= i < a.len(),
    ensures
        row_times(unit::<S>(i, a.len()), a, p) == a[i],
{
    assert(a[i].len() == p);
    assert forall|j: int| 0 <= j < p implies row_times(unit::<S>(i, a.len()), a, p)[j]
        == a[i][j] by {
        dot_unit(spec_column(a, j), i);
    }
    assert(row_times(unit::<S>(i, a.len()), a, p) =~= a[i]);
}

} // verus!
