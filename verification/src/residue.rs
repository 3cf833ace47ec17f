//! Exact arithmetic modulo a prime.
//!
//! Residues run the solver without rounding, so that the identities between its results
//! hold on the nose.  Root and logarithm are the discrete ones.
use crate::scalar::{ExactScalar, Scalar};
use vstd::arithmetic::div_mod::{
    lemma_add_mod_noop, lemma_fundamental_div_mod, lemma_fundamental_div_mod_converse,
    lemma_mul_mod_noop, lemma_mul_mod_noop_left, lemma_mul_mod_noop_right, lemma_small_mod,
};
use vstd::prelude::*;

verus! {

/// The modulus, a prime.
pub const MODULUS: u64 = 257;

/// A generator of the residues other than zero.
pub const GENERATOR: u64 = 3;

/// A residue.  `None` stands for the greatest, which does not fit into a byte.
#[derive(Clone, Copy, Debug, PartialEq, Eq, Structural)]
pub struct Residue {
    low: Option<u8>,
}

impl Residue {
    /// The representative between zero and the modulus.
    pub closed spec fn spec_value(self) -> int {
        match self.low {
            Some(b) => b as int,
            None => 256,
        }
    }

    /// The residue of an integer.
    pub closed spec fn of(v: int) -> Residue {
        let r = v % (MODULUS as int);
        if r == 256 {
            Residue { low: None }
        } else {
            Residue { low: Some(r as u8) }
        }
    }

    /// The residue of `v`.
    pub fn new(v: u64) -> (r: Residue)
        ensures
            r == Residue::of(v as int),
    {
        let r: u64 = v % MODULUS;
        if r == 256 {
            Residue { low: None }
        } else {
            Residue { low: Some(r as u8) }
        }
    }

    /// The representative between zero and the modulus.
    pub fn value(self) -> (r: u64)
        ensures
            r == self.spec_value(),
            r < MODULUS,
    {
        match self.low {
            Some(b) => b as u64,
            None => 256,
        }
    }
}

/// Residues and their representatives correspond.
pub proof fn lemma_representative(r: Residue, v: int)
    ensures
        0 <= r.spec_value() < MODULUS,
        Residue::of(r.spec_value()) == r,
        Residue::of(v).spec_value() == v % (MODULUS as int),
{
    let q = v % (MODULUS as int);
    assert(0 <= q < 257);
    assert(q != 256 ==> (q as u8) as int == q);
}

/// The least root of `v` from `k` on; zero where there is none.
pub open spec fn root_from(v: int, k: int) -> int
    decreases MODULUS - k,
{
    if k >= MODULUS {
        0
    } else if (k * k) % (MODULUS as int) == v {
        k
    } else {
        root_from(v, k + 1)
    }
}

/// The powers of the generator.
pub open spec fn generator_power(k: nat) -> int
    decreases k,
{
    if k == 0 {
        1
    } else {
        (generator_power((k - 1) as nat) * GENERATOR) % (MODULUS as int)
    }
}

/// The least exponent from `k` on whose power is `v`; zero where there is none.
pub open spec fn exponent_from(v: int, k: nat) -> int
    decreases MODULUS - k,
{
    if k >= MODULUS {
        0
    } else if generator_power(k) == v {
        k as int
    } else {
        exponent_from(v, k + 1)
    }
}

/// `v` and `c` are reciprocal.
pub open spec fn reciprocals(v: int, c: int) -> bool {
    0 <= c < MODULUS && (v * c) % (MODULUS as int) == 1
}

/// The reciprocal of `v`; zero for zero.
pub open spec fn inverse_of(v: int) -> int {
    if exists|c: int| reciprocals(v, c) {
        choose|c: int| reciprocals(v, c)
    } else {
        0
    }
}

/// The greatest common divisor `g` of `a` and `b`, with `g == x a + y b`, `a == g p` and
/// `b == g q`.
proof fn bezout(a: int, b: int) -> (r: (int, int, int, int, int))
    requires
        a >= 0,
        b >= 0,
        a + b > 0,
    ensures
        r.0 > 0,
        r.1 * a + r.2 * b == r.0,
        a == r.0 * r.3,
        b == r.0 * r.4,
    decreases b,
{
    if b == 0 {
        (a, 1, 0, 1, 0)
    } else {
        let (d, m) = (a / b, a % b);
        lemma_fundamental_div_mod(a, b);
        let (g, x, y, p, q) = bezout(b, m);
        assert(y * a + (x - y * d) * b == g) by (nonlinear_arith)
            requires
                x * b + y * m == g,
                a == b * d + m,
        ;
        assert(a == g * (d * p + q)) by (nonlinear_arith)
            requires
                a == b * d + m,
                b == g * p,
                m == g * q,
        ;
        (g, y, x - y * d, d * p + q, p)
    }
}

/// The modulus is a prime.
proof fn modulus_is_prime(g: int, h: int)
    requires
        g > 0,
        g * h == MODULUS,
    ensures
        g == 1 || g == MODULUS,
{
    assert(0 < h <= 257 && g <= 257) by (nonlinear_arith)
        requires
            g > 0,
            g * h == 257,
    ;
    let (a, b) = (g as u32, h as u32);
    assert(a <= 257 && b <= 257 && a * b == 257 ==> a == 1 || a == 257) by (bit_vector);
}

/// Every residue other than zero has a reciprocal.
proof fn lemma_inverse(v: int)
    requires
        0 < v < MODULUS,
    ensures
        reciprocals(v, inverse_of(v)),
{
    let n = MODULUS as int;
    let (g, x, y, p, q) = bezout(v, n);
    modulus_is_prime(g, q);
    if g == n {
        assert(v >= n) by (nonlinear_arith)
            requires
                v == n * p,
                v > 0,
                n == 257,
        ;
    }
    let c = x % n;
    lemma_fundamental_div_mod(x, n);
    assert(v * c == n * (-y - v * (x / n)) + 1) by (nonlinear_arith)
        requires
            x == n * (x / n) + c,
            x * v + y * n == 1,
    ;
    lemma_fundamental_div_mod_converse(
        v * c,
        n,
        -y - v * (x / n),
        1,
    );
    assert(reciprocals(v, c));
}

/// A residue has one reciprocal.
proof fn lemma_inverse_unique(v: int, c: int, d: int)
    requires
        reciprocals(v, c),
        reciprocals(v, d),
    ensures
        c == d,
{
    let n = MODULUS as int;
    // c == c (v d) == (c v) d == d
    lemma_mul_mod_noop_right(c, v * d, n);
    lemma_mul_mod_noop_left(v * c, d, n);
    assert(c * (v * d) == (v * c) * d) by (nonlinear_arith);
    lemma_small_mod(c as nat, n as nat);
    lemma_small_mod(d as nat, n as nat);
}

impl Scalar for Residue {
    open spec fn spec_zero() -> Self {
        Residue::of(0)
    }

    open spec fn spec_one() -> Self {
        Residue::of(1)
    }

    open spec fn spec_from_u64(n: u64) -> Self {
        Residue::of(n as int)
    }

    open spec fn spec_add(self, other: Self) -> Self {
        Residue::of(self.spec_value() + other.spec_value())
    }

    open spec fn spec_sub(self, other: Self) -> Self {
        Residue::of(self.spec_value() - other.spec_value())
    }

    open spec fn spec_mul(self, other: Self) -> Self {
        Residue::of(self.spec_value() * other.spec_value())
    }

    open spec fn spec_div(self, other: Self) -> Self {
        Residue::of(self.spec_value() * inverse_of(other.spec_value()))
    }

    open spec fn spec_neg(self) -> Self {
        Residue::of(-self.spec_value())
    }

    /// The magnitude of all but zero is the greatest residue.
    open spec fn spec_abs(self) -> Self {
        if self == Residue::of(0) {
            self
        } else {
            Residue::of(MODULUS - 1)
        }
    }

    open spec fn spec_sqrt(self) -> Self {
        Residue::of(root_from(self.spec_value(), 0))
    }

    open spec fn spec_ln(self) -> Self {
        Residue::of(exponent_from(self.spec_value(), 0))
    }

    open spec fn spec_exceeds(self, other: Self) -> bool {
        self.spec_value() > other.spec_value()
    }

    fn zero() -> (r: Self) {
        Residue::new(0)
    }

    fn one() -> (r: Self) {
        Residue::new(1)
    }

    fn from_u64(n: u64) -> (r: Self) {
        Residue::new(n)
    }

    fn add(self, other: Self) -> (r: Self) {
        Residue::new(self.value() + other.value())
    }

    fn sub(self, other: Self) -> (r: Self) {
        Residue::new(self.value() + MODULUS - other.value())
    }

    fn mul(self, other: Self) -> (r: Self) {
        let (a, b): (u64, u64) = (self.value(), other.value());
        assert(a * b <= 256 * 256) by (nonlinear_arith)
            requires
                a <= 256,
                b <= 256,
        ;
        Residue::new(a * b)
    }

    fn div(self, other: Self) -> (r: Self) {
        let (a, b): (u64, u64) = (self.value(), other.value());
        let i: u64 = find_inverse(b);
        assert(a * i <= 256 * 256) by (nonlinear_arith)
            requires
                a <= 256,
                i <= 256,
        ;
        Residue::new(a * i)
    }

    fn neg(self) -> (r: Self) {
        Residue::new(MODULUS - self.value())
    }

    fn abs(self) -> (r: Self) {
        if self == Residue::new(0) {
            self
        } else {
            Residue::new(MODULUS - 1)
        }
    }

    fn sqrt(self) -> (r: Self) {
        Residue::new(find_root(self.value()))
    }

    fn ln(self) -> (r: Self) {
        Residue::new(find_exponent(self.value()))
    }

    fn exceeds(self, other: Self) -> (r: bool) {
        self.value() > other.value()
    }
}

/// The reciprocal of `v`; zero for zero.
fn find_inverse(v: u64) -> (r: u64)
    requires
        v < MODULUS,
    ensures
        r == inverse_of(v as int),
        r < MODULUS,
{
    let mut c: u64 = 0;
    while c < MODULUS
        invariant
            c <= MODULUS,
            v < MODULUS,
            forall|d: int| 0 <= d < c ==> !reciprocals(v as int, d),
        decreases MODULUS - c,
    {
        assert(v * c <= 256 * 256) by (nonlinear_arith)
            requires
                v <= 256,
                c <= 256,
        ;
        if (v * c) % MODULUS == 1 {
            proof {
                let d = inverse_of(v as int);
                assert(reciprocals(v as int, c as int));
                lemma_inverse_unique(v as int, c as int, d);
            }
            return c;
        }
        c += 1;
    }
    0
}

/// The least root of `v`; zero where there is none.
fn find_root(v: u64) -> (r: u64)
    requires
        v < MODULUS,
    ensures
        r == root_from(v as int, 0),
{
    let mut k: u64 = 0;
    while k < MODULUS
        invariant
            k <= MODULUS,
            root_from(v as int, 0) == root_from(v as int, k as int),
        decreases MODULUS - k,
    {
        assert(k * k <= 256 * 256) by (nonlinear_arith)
            requires
                k <= 256,
        ;
        if (k * k) % MODULUS == v {
            return k;
        }
        k += 1;
    }
    0
}

/// The least exponent whose power is `v`; zero where there is none.
fn find_exponent(v: u64) -> (r: u64)
    requires
        v < MODULUS,
    ensures
        r == exponent_from(v as int, 0),
{
    let mut k: u64 = 0;
    let mut power: u64 = 1;
    while k < MODULUS
        invariant
            k <= MODULUS,
            power < MODULUS,
            power == generator_power(k as nat),
            exponent_from(v as int, 0) == exponent_from(v as int, k as nat),
        decreases MODULUS - k,
    {
        if power == v {
            return k;
        }
        power = (power * GENERATOR) % MODULUS;
        k += 1;
    }
    0
}

/// Integers that leave one remainder have one residue.
proof fn lemma_same(u: int, v: int)
    requires
        u % (MODULUS as int) == v % (MODULUS as int),
    ensures
        Residue::of(u) == Residue::of(v),
{
}

/// The residue of a product of residues.
proof fn lemma_of_mul(u: int, v: int)
    ensures
        Residue::of(u).spec_mul(Residue::of(v)) == Residue::of(u * v),
{
    let n = MODULUS as int;
    lemma_representative(Residue::of(u), u);
    lemma_representative(Residue::of(v), v);
    lemma_mul_mod_noop(u, v, n);
    lemma_same((u % n) * (v % n), u * v);
}

/// The residue of a sum of residues.
proof fn lemma_of_add(u: int, v: int)
    ensures
        Residue::of(u).spec_add(Residue::of(v)) == Residue::of(u + v),
{
    let n = MODULUS as int;
    lemma_representative(Residue::of(u), u);
    lemma_representative(Residue::of(v), v);
    lemma_add_mod_noop(u, v, n);
    lemma_same(u % n + v % n, u + v);
}

impl ExactScalar for Residue {
    proof fn add_commutes(a: Self, b: Self) {
    }

    proof fn add_associates(a: Self, b: Self, c: Self) {
        let (x, y, z) = (a.spec_value(), b.spec_value(), c.spec_value());
        lemma_representative(a, 0);
        lemma_representative(c, 0);
        lemma_of_add(x + y, z);
        lemma_of_add(x, y + z);
    }

    proof fn add_zero(a: Self) {
        lemma_representative(a, 0);
    }

    proof fn add_neg(a: Self) {
        let x = a.spec_value();
        lemma_representative(a, 0);
        lemma_of_add(x, -x);
    }

    proof fn sub_is_add_neg(a: Self, b: Self) {
        let (x, y) = (a.spec_value(), b.spec_value());
        lemma_representative(a, 0);
        lemma_of_add(x, -y);
    }

    proof fn mul_commutes(a: Self, b: Self) {
        let (x, y) = (a.spec_value(), b.spec_value());
        assert(x * y == y * x) by (nonlinear_arith);
    }

    proof fn mul_associates(a: Self, b: Self, c: Self) {
        let (x, y, z) = (a.spec_value(), b.spec_value(), c.spec_value());
        lemma_representative(a, 0);
        lemma_representative(c, 0);
        lemma_of_mul(x * y, z);
        lemma_of_mul(x, y * z);
        assert((x * y) * z == x * (y * z)) by (nonlinear_arith);
    }

    proof fn mul_one(a: Self) {
        lemma_representative(a, 1);
        assert(Residue::of(1).spec_value() == 1);
    }

    proof fn mul_distributes(a: Self, b: Self, c: Self) {
        let (x, y, z) = (a.spec_value(), b.spec_value(), c.spec_value());
        lemma_representative(a, 0);
        lemma_of_mul(x, y + z);
        lemma_of_add(x * y, x * z);
        assert(x * (y + z) == x * y + x * z) by (nonlinear_arith);
    }

    proof fn div_mul(a: Self, b: Self) {
        let n = MODULUS as int;
        let (x, y) = (a.spec_value(), b.spec_value());
        lemma_representative(a, 0);
        lemma_representative(b, 0);
        let i = inverse_of(y);
        lemma_inverse(y);
        lemma_of_mul(x * i, y);
        assert((x * i) * y == x * (y * i)) by (nonlinear_arith);
        lemma_mul_mod_noop_right(x, y * i, n);
        lemma_same((x * i) * y, x);
    }

    proof fn one_is_not_zero() {
        lemma_representative(Residue::of(1), 1);
        lemma_representative(Residue::of(0), 0);
    }

    proof fn from_zero() {
    }

    proof fn from_successor(n: u64) {
        lemma_of_add(n as int, 1);
    }

    proof fn exceeds_is_irreflexive(a: Self) {
    }

    proof fn zero_is_least(a: Self) {
        lemma_representative(Residue::of(0), 0);
        lemma_representative(a.spec_abs(), 0);
    }

    proof fn zero_is_small(n: u64) {
        lemma_representative(Residue::of(0), 0);
        lemma_representative(Self::spec_one().spec_div(Self::spec_from_u64(n)), 0);
    }
}

} // verus!
