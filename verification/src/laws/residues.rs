//! What the operations on residues compute.
use crate::residue::{
    exponent_from, generator_power, lemma_representative, root_from, Residue,
};
use crate::scalar::Scalar;
use vstd::prelude::*;

verus! {

/// Residues are added, subtracted, multiplied, negated and compared by their representatives,
/// modulo the prime.
pub proof fn residues_follow_representatives(a: Residue, b: Residue, n: u64)
    ensures
        Residue::spec_from_u64(n).spec_value() == n % 257,
        a.spec_add(b).spec_value() == (a.spec_value() + b.spec_value()) % 257,
        a.spec_sub(b).spec_value() == (a.spec_value() - b.spec_value()) % 257,
        a.spec_mul(b).spec_value() == (a.spec_value() * b.spec_value()) % 257,
        a.spec_neg().spec_value() == (-a.spec_value()) % 257,
        a.spec_exceeds(b) <==> a.spec_value() > b.spec_value(),
        a.spec_abs().spec_value() == (if a.spec_value() == 0 {
            0int
        } else {
            256int
        }),
{
    let (u, v) = (a.spec_value(), b.spec_value());
    lemma_representative(a, n as int);
    lemma_representative(a, u + v);
    lemma_representative(a, u - v);
    lemma_representative(a, u * v);
    lemma_representative(a, -u);
    lemma_representative(a, 0);
    lemma_representative(a, 256);
}

proof fn root_is_found(v: int, k: int, j: int)
    requires
        0 <= k <= j < 257,
        (j * j) % 257 == v,
    ensures
        ({
            let r = root_from(v, k);
            k <= r <= j && (r * r) % 257 == v
        }),
    decreases j - k,
{
    if (k * k) % 257 != v {
        root_is_found(v, k + 1, j);
    }
}

/// The root of a square, squared, is the square, and no lesser representative has that
/// square.
pub proof fn roots_square_back(b: Residue)
    ensures
        ({
            let a = b.spec_mul(b);
            let r = a.spec_sqrt();
            r.spec_mul(r) == a && r.spec_value() <= b.spec_value()
        }),
{
    let v = b.spec_value();
    let a = b.spec_mul(b);
    lemma_representative(b, v * v);
    root_is_found(a.spec_value(), 0, v);
    let root = root_from(a.spec_value(), 0);
    lemma_representative(a, root);
    assert(root % 257 == root);
    assert(a.spec_sqrt().spec_value() == root);
    lemma_representative(a, root * root);
    lemma_representative(a.spec_sqrt().spec_mul(a.spec_sqrt()), 0);
}

proof fn exponent_is_found(v: int, k: nat, j: nat)
    requires
        k <= j < 257,
        generator_power(j) == v,
    ensures
        k <= exponent_from(v, k) <= j,
        generator_power(exponent_from(v, k) as nat) == v,
    decreases j - k,
{
    if generator_power(k) != v {
        exponent_is_found(v, k + 1, j);
    }
}

/// The logarithm of a power of the generator is the least exponent that gives it.
pub proof fn logarithms_are_exponents(a: Residue, k: nat)
    requires
        k < 257,
        generator_power(k) == a.spec_value(),
    ensures
        a.spec_ln().spec_value() <= k,
        generator_power(a.spec_ln().spec_value() as nat) == a.spec_value(),
{
    exponent_is_found(a.spec_value(), 0, k);
    let e = exponent_from(a.spec_value(), 0);
    lemma_representative(a, e);
    assert(e % 257 == e);
}

/// The powers of the generator start at one, and each is three times the one before.
pub proof fn generator_powers_triple(k: nat)
    ensures
        generator_power(0) == 1,
        generator_power(k + 1) == (generator_power(k) * 3) % 257,
{
}

} // verus!
