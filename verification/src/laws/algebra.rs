//! The algebra of scalars, vectors and matrices over a field.
use crate::scalar::{ExactScalar, Scalar};
use crate::vector::{dot_prefix, total_prefix};
use vstd::prelude::*;

verus! {

/// `0 + a == a`.
pub proof fn zero_add<S: ExactScalar>(a: S)
    ensures
        S::spec_zero().spec_add(a) == a,
{
    S::add_commutes(S::spec_zero(), a);
    S::add_zero(a);
}

/// `1 * a == a`.
pub proof fn one_mul<S: ExactScalar>(a: S)
    ensures
        S::spec_one().spec_mul(a) == a,
{
    S::mul_commutes(S::spec_one(), a);
    S::mul_one(a);
}

/// `(a + b) * c == a * c + b * c`.
pub proof fn add_mul<S: ExactScalar>(a: S, b: S, c: S)
    ensures
        a.spec_add(b).spec_mul(c) == a.spec_mul(c).spec_add(b.spec_mul(c)),
{
    S::mul_commutes(a.spec_add(b), c);
    S::mul_distributes(c, a, b);
    S::mul_commutes(c, a);
    S::mul_commutes(c, b);
}

/// A summand can be cancelled.
pub proof fn add_cancel<S: ExactScalar>(a: S, b: S, c: S)
    requires
        a.spec_add(c) == b.spec_add(c),
    ensures
        a == b,
{
    let n = c.spec_neg();
    S::add_associates(a, c, n);
    S::add_associates(b, c, n);
    S::add_neg(c);
    S::add_zero(a);
    S::add_zero(b);
}

/// `a * 0 == 0` and `0 * a == 0`.
pub proof fn mul_zero<S: ExactScalar>(a: S)
    ensures
        a.spec_mul(S::spec_zero()) == S::spec_zero(),
        S::spec_zero().spec_mul(a) == S::spec_zero(),
{
    let z = S::spec_zero();
    let az = a.spec_mul(z);
    S::mul_distributes(a, z, z);
    S::add_zero(z);
    zero_add(az);
    add_cancel(az, z, az);
    S::mul_commutes(a, z);
}

/// The negative is the only number that adds up to zero.
pub proof fn neg_unique<S: ExactScalar>(a: S, b: S)
    requires
        a.spec_add(b) == S::spec_zero(),
    ensures
        b == a.spec_neg(),
{
    S::add_neg(a);
    S::add_commutes(a, b);
    S::add_commutes(a, a.spec_neg());
    add_cancel(b, a.spec_neg(), a);
}

/// `(-a) * b == -(a * b)`.
pub proof fn neg_mul<S: ExactScalar>(a: S, b: S)
    ensures
        a.spec_neg().spec_mul(b) == a.spec_mul(b).spec_neg(),
{
    add_mul(a, a.spec_neg(), b);
    S::add_neg(a);
    mul_zero(b);
    neg_unique(a.spec_mul(b), a.spec_neg().spec_mul(b));
}

/// `-0 == 0`.
pub proof fn neg_zero<S: ExactScalar>()
    ensures
        S::spec_zero().spec_neg() == S::spec_zero(),
{
    S::add_zero(S::spec_zero());
    neg_unique(S::spec_zero(), S::spec_zero());
}

/// `a - a == 0`.
pub proof fn sub_self<S: ExactScalar>(a: S)
    ensures
        a.spec_sub(a) == S::spec_zero(),
{
    S::sub_is_add_neg(a, a);
    S::add_neg(a);
}

/// `a - 0 == a`.
pub proof fn sub_zero<S: ExactScalar>(a: S)
    ensures
        a.spec_sub(S::spec_zero()) == a,
{
    S::sub_is_add_neg(a, S::spec_zero());
    neg_zero::<S>();
    S::add_zero(a);
}

/// `a - b + b == a`.
pub proof fn sub_add<S: ExactScalar>(a: S, b: S)
    ensures
        a.spec_sub(b).spec_add(b) == a,
{
    let n = b.spec_neg();
    S::sub_is_add_neg(a, b);
    S::add_associates(a, n, b);
    S::add_commutes(n, b);
    S::add_neg(b);
    S::add_zero(a);
}

/// `(a + b) + (c + d) == (a + c) + (b + d)`.
pub proof fn add_interchange<S: ExactScalar>(a: S, b: S, c: S, d: S)
    ensures
        a.spec_add(b).spec_add(c.spec_add(d)) == a.spec_add(c).spec_add(b.spec_add(d)),
{
    S::add_associates(a, b, c.spec_add(d));
    S::add_associates(b, c, d);
    S::add_commutes(b, c);
    S::add_associates(c, b, d);
    S::add_associates(a, c, b.spec_add(d));
}

/// `a - s * b == a + (-s) * b`.
pub proof fn sub_mul<S: ExactScalar>(a: S, s: S, b: S)
    ensures
        a.spec_sub(s.spec_mul(b)) == a.spec_add(s.spec_neg().spec_mul(b)),
{
    S::sub_is_add_neg(a, s.spec_mul(b));
    neg_mul(s, b);
}

/// A factor that is not zero can be cancelled.
pub proof fn mul_cancel<S: ExactScalar>(a: S, b: S, c: S)
    requires
        c != S::spec_zero(),
        a.spec_mul(c) == b.spec_mul(c),
    ensures
        a == b,
{
    let i = S::spec_one().spec_div(c);
    S::div_mul(S::spec_one(), c);
    S::mul_commutes(i, c);
    S::mul_associates(a, c, i);
    S::mul_associates(b, c, i);
    S::mul_one(a);
    S::mul_one(b);
}

/// Division multiplies by the reciprocal: `a / b == (1 / b) * a`.
pub proof fn div_is_mul<S: ExactScalar>(a: S, b: S)
    requires
        b != S::spec_zero(),
    ensures
        a.spec_div(b) == S::spec_one().spec_div(b).spec_mul(a),
{
    let i = S::spec_one().spec_div(b);
    S::div_mul(a, b);
    S::div_mul(S::spec_one(), b);
    S::mul_commutes(i, a);
    S::mul_associates(a, i, b);
    S::mul_one(a);
    mul_cancel(a.spec_div(b), i.spec_mul(a), b);
}

/// `a / a == 1`.
pub proof fn div_self<S: ExactScalar>(a: S)
    requires
        a != S::spec_zero(),
    ensures
        a.spec_div(a) == S::spec_one(),
{
    S::div_mul(a, a);
    one_mul(a);
    mul_cancel(a.spec_div(a), S::spec_one(), a);
}

/// The inner product reads only the elements.
pub proof fn dot_ext<S: Scalar>(a: Seq<S>, b: Seq<S>, c: Seq<S>, d: Seq<S>, k: int)
    requires
        forall|i: int| 0 <= i < k ==> a[i] == c[i] && b[i] == d[i],
    ensures
        dot_prefix(a, b, k) == dot_prefix(c, d, k),
    decreases k,
{
    if k > 0 {
        dot_ext(a, b, c, d, k - 1);
    }
}

/// The inner product commutes.
pub proof fn dot_commutes<S: ExactScalar>(a: Seq<S>, b: Seq<S>, k: int)
    ensures
        dot_prefix(a, b, k) == dot_prefix(b, a, k),
    decreases k,
{
    if k > 0 {
        dot_commutes(a, b, k - 1);
        S::mul_commutes(a[k - 1], b[k - 1]);
    }
}

/// The inner product is linear: where `c == a + s * b`, `c . v == a . v + s * (b . v)`.
pub proof fn dot_linear<S: ExactScalar>(c: Seq<S>, a: Seq<S>, s: S, b: Seq<S>, v: Seq<S>, k: int)
    requires
        forall|i: int| 0 <= i < k ==> #[trigger] c[i] == a[i].spec_add(s.spec_mul(b[i])),
    ensures
        dot_prefix(c, v, k) == dot_prefix(a, v, k).spec_add(s.spec_mul(dot_prefix(b, v, k))),
    decreases k,
{
    if k <= 0 {
        mul_zero(s);
        S::add_zero(S::spec_zero());
    } else {
        let (ci, ai, bi, vi) = (c[k - 1], a[k - 1], b[k - 1], v[k - 1]);
        let (da, db) = (dot_prefix(a, v, k - 1), dot_prefix(b, v, k - 1));
        dot_linear(c, a, s, b, v, k - 1);
        assert(ci == ai.spec_add(s.spec_mul(bi)));
        add_mul(ai, s.spec_mul(bi), vi);
        S::mul_associates(s, bi, vi);
        add_interchange(
            da,
            s.spec_mul(db),
            ai.spec_mul(vi),
            s.spec_mul(bi.spec_mul(vi)),
        );
        S::mul_distributes(s, db, bi.spec_mul(vi));
    }
}

/// The inner product is linear on the right, too.
pub proof fn dot_linear_right<S: ExactScalar>(
    v: Seq<S>,
    c: Seq<S>,
    a: Seq<S>,
    s: S,
    b: Seq<S>,
    k: int,
)
    requires
        forall|i: int| 0 <= i < k ==> #[trigger] c[i] == a[i].spec_add(s.spec_mul(b[i])),
    ensures
        dot_prefix(v, c, k) == dot_prefix(v, a, k).spec_add(s.spec_mul(dot_prefix(v, b, k))),
{
    dot_linear(c, a, s, b, v, k);
    dot_commutes(v, c, k);
    dot_commutes(v, a, k);
    dot_commutes(v, b, k);
}

/// The inner product with a vector of zeros.
pub proof fn dot_zeros<S: ExactScalar>(a: Seq<S>, v: Seq<S>, k: int)
    requires
        forall|i: int| 0 <= i < k ==> #[trigger] a[i] == S::spec_zero(),
    ensures
        dot_prefix(a, v, k) == S::spec_zero(),
        dot_prefix(v, a, k) == S::spec_zero(),
    decreases k,
{
    if k > 0 {
        dot_zeros(a, v, k - 1);
        assert(a[k - 1] == S::spec_zero());
        mul_zero(v[k - 1]);
        S::add_zero(S::spec_zero());
    }
}

/// The sum is linear: where `c == a + s * b`, `sum(c) == sum(a) + s * sum(b)`.
pub proof fn total_linear<S: ExactScalar>(c: Seq<S>, a: Seq<S>, s: S, b: Seq<S>, k: int)
    requires
        forall|i: int| 0 <= i < k ==> #[trigger] c[i] == a[i].spec_add(s.spec_mul(b[i])),
    ensures
        total_prefix(c, k) == total_prefix(a, k).spec_add(s.spec_mul(total_prefix(b, k))),
    decreases k,
{
    if k <= 0 {
        mul_zero(s);
        S::add_zero(S::spec_zero());
    } else {
        total_linear(c, a, s, b, k - 1);
        assert(c[k - 1] == a[k - 1].spec_add(s.spec_mul(b[k - 1])));
        add_interchange(
            total_prefix(a, k - 1),
            s.spec_mul(total_prefix(b, k - 1)),
            a[k - 1],
            s.spec_mul(b[k - 1]),
        );
        S::mul_distributes(s, total_prefix(b, k - 1), b[k - 1]);
    }
}

} // verus!
