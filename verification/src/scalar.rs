//! The number types that the solver computes with.
//!
//! Every algorithm of this crate is written once, over [`Scalar`].  A scalar type fixes
//! what each elementary operation returns, through its specification functions, and the
//! contracts of the algorithms say which operations are applied to which operands.
//! Nothing is presumed of the operations themselves, so the contracts hold of arithmetic
//! that rounds.
//!
//! [`ExactScalar`] is the subclass of number types whose operations obey the field laws.
//! The algebraic theorems about the solver are stated for these.
use vstd::prelude::*;

verus! {

/// A number type: constants, field operations, magnitude, square root and logarithm.
///
/// Every operation is total, and a function of its operands.  A type with values that are not numbers (such as the result
/// of a division by zero) represents them as ordinary members.
pub trait Scalar: Copy {
    spec fn spec_zero() -> Self;

    spec fn spec_one() -> Self;

    /// The integer `n`, in this number type.
    spec fn spec_from_u64(n: u64) -> Self;

    spec fn spec_add(self, other: Self) -> Self;

    spec fn spec_sub(self, other: Self) -> Self;

    spec fn spec_mul(self, other: Self) -> Self;

    spec fn spec_div(self, other: Self) -> Self;

    spec fn spec_neg(self) -> Self;

    spec fn spec_abs(self) -> Self;

    spec fn spec_sqrt(self) -> Self;

    spec fn spec_ln(self) -> Self;

    /// `self > other`.
    spec fn spec_exceeds(self, other: Self) -> bool;

    fn zero() -> (r: Self)
        ensures
            r == Self::spec_zero(),
    ;

    fn one() -> (r: Self)
        ensures
            r == Self::spec_one(),
    ;

    fn from_u64(n: u64) -> (r: Self)
        ensures
            r == Self::spec_from_u64(n),
    ;

    fn add(self, other: Self) -> (r: Self)
        ensures
            r == self.spec_add(other),
    ;

    fn sub(self, other: Self) -> (r: Self)
        ensures
            r == self.spec_sub(other),
    ;

    fn mul(self, other: Self) -> (r: Self)
        ensures
            r == self.spec_mul(other),
    ;

    fn div(self, other: Self) -> (r: Self)
        ensures
            r == self.spec_div(other),
    ;

    fn neg(self) -> (r: Self)
        ensures
            r == self.spec_neg(),
    ;

    fn abs(self) -> (r: Self)
        ensures
            r == self.spec_abs(),
    ;

    fn sqrt(self) -> (r: Self)
        ensures
            r == self.spec_sqrt(),
    ;

    fn ln(self) -> (r: Self)
        ensures
            r == self.spec_ln(),
    ;

    fn exceeds(self, other: Self) -> (r: bool)
        ensures
            r == self.spec_exceeds(other),
    ;
}

/// A number type whose operations are those of a field, without rounding.
pub trait ExactScalar: Scalar {
    proof fn add_commutes(a: Self, b: Self)
        ensures
            a.spec_add(b) == b.spec_add(a),
    ;

    proof fn add_associates(a: Self, b: Self, c: Self)
        ensures
            a.spec_add(b).spec_add(c) == a.spec_add(b.spec_add(c)),
    ;

    proof fn add_zero(a: Self)
        ensures
            a.spec_add(Self::spec_zero()) == a,
    ;

    proof fn add_neg(a: Self)
        ensures
            a.spec_add(a.spec_neg()) == Self::spec_zero(),
    ;

    proof fn sub_is_add_neg(a: Self, b: Self)
        ensures
            a.spec_sub(b) == a.spec_add(b.spec_neg()),
    ;

    proof fn mul_commutes(a: Self, b: Self)
        ensures
            a.spec_mul(b) == b.spec_mul(a),
    ;

    proof fn mul_associates(a: Self, b: Self, c: Self)
        ensures
            a.spec_mul(b).spec_mul(c) == a.spec_mul(b.spec_mul(c)),
    ;

    proof fn mul_one(a: Self)
        ensures
            a.spec_mul(Self::spec_one()) == a,
    ;

    proof fn mul_distributes(a: Self, b: Self, c: Self)
        ensures
            a.spec_mul(b.spec_add(c)) == a.spec_mul(b).spec_add(a.spec_mul(c)),
    ;

    proof fn div_mul(a: Self, b: Self)
        requires
            b != Self::spec_zero(),
        ensures
            a.spec_div(b).spec_mul(b) == a,
    ;

    proof fn one_is_not_zero()
        ensures
            Self::spec_one() != Self::spec_zero(),
    ;

    proof fn from_zero()
        ensures
            Self::spec_from_u64(0) == Self::spec_zero(),
    ;

    proof fn from_successor(n: u64)
        requires
            n < u64::MAX,
        ensures
            Self::spec_from_u64((n + 1) as u64) == Self::spec_from_u64(n).spec_add(
                Self::spec_one(),
            ),
    ;

    /// Nothing exceeds itself.
    proof fn exceeds_is_irreflexive(a: Self)
        ensures
            !a.spec_exceeds(a),
    ;

    /// The magnitude of zero exceeds no magnitude.
    proof fn zero_is_least(a: Self)
        ensures
            !Self::spec_zero().spec_abs().spec_exceeds(a.spec_abs()),
    ;

    /// The magnitude of zero exceeds no reciprocal of a positive integer.
    proof fn zero_is_small(n: u64)
        requires
            n > 0,
        ensures
            !Self::spec_zero().spec_abs().spec_exceeds(
                Self::spec_one().spec_div(Self::spec_from_u64(n)),
            ),
    ;
}

/// `1 / n`, by one division.
pub open spec fn spec_reciprocal<S: Scalar>(n: u64) -> S {
    S::spec_one().spec_div(S::spec_from_u64(n))
}

pub fn reciprocal<S: Scalar>(n: u64) -> (r: S)
    ensures
        r == spec_reciprocal::<S>(n),
{
    S::one().div(S::from_u64(n))
}

} // verus!
