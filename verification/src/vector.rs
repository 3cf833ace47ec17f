//! Vectors: sums, inner products, norms and elementwise operations.
//!
//! A vector is a `Vec` of scalars, and its model the sequence of its elements.  Sums
//! accumulate from the left, starting at zero.
use crate::scalar::Scalar;
use vstd::prelude::*;

verus! {

/// `v[0] + v[1] + ... + v[k - 1]`.
pub open spec fn total_prefix<S: Scalar>(v: Seq<S>, k: int) -> S
    decreases k,
{
    if k <= 0 {
        S::spec_zero()
    } else {
        total_prefix(v, k - 1).spec_add(v[k - 1])
    }
}

/// The sum of the elements of `v`.
pub open spec fn spec_total<S: Scalar>(v: Seq<S>) -> S {
    total_prefix(v, v.len() as int)
}

/// `a[0] * b[0] + ... + a[k - 1] * b[k - 1]`.
pub open spec fn dot_prefix<S: Scalar>(a: Seq<S>, b: Seq<S>, k: int) -> S
    decreases k,
{
    if k <= 0 {
        S::spec_zero()
    } else {
        dot_prefix(a, b, k - 1).spec_add(a[k - 1].spec_mul(b[k - 1]))
    }
}

/// The inner product of `a` and `b`, two vectors of one length.
pub open spec fn spec_dot<S: Scalar>(a: Seq<S>, b: Seq<S>) -> S {
    dot_prefix(a, b, a.len() as int)
}

/// The Euclidean length of `v`.
pub open spec fn spec_norm<S: Scalar>(v: Seq<S>) -> S {
    spec_dot(v, v).spec_sqrt()
}

/// `v / d`, element by element.
pub open spec fn divided<S: Scalar>(v: Seq<S>, d: S) -> Seq<S> {
    Seq::new(v.len(), |i: int| v[i].spec_div(d))
}

/// `v` scaled to unit length; `v` itself where its length is not positive.
pub open spec fn normalized<S: Scalar>(v: Seq<S>) -> Seq<S> {
    if spec_norm(v).spec_exceeds(S::spec_zero()) {
        divided(v, spec_norm(v))
    } else {
        v
    }
}

/// `a - b`, element by element.
pub open spec fn difference<S: Scalar>(a: Seq<S>, b: Seq<S>) -> Seq<S> {
    Seq::new(a.len(), |i: int| a[i].spec_sub(b[i]))
}

/// `a - b * s`, element by element.
pub open spec fn minus_multiple<S: Scalar>(a: Seq<S>, b: Seq<S>, s: S) -> Seq<S> {
    Seq::new(a.len(), |i: int| a[i].spec_sub(b[i].spec_mul(s)))
}

/// `a - s * b`, element by element.
pub open spec fn minus_scaled<S: Scalar>(a: Seq<S>, s: S, b: Seq<S>) -> Seq<S> {
    Seq::new(a.len(), |i: int| a[i].spec_sub(s.spec_mul(b[i])))
}

/// `a + s * b`, element by element.
pub open spec fn plus_scaled<S: Scalar>(a: Seq<S>, s: S, b: Seq<S>) -> Seq<S> {
    Seq::new(a.len(), |i: int| a[i].spec_add(s.spec_mul(b[i])))
}

/// `v - s`, element by element.
pub open spec fn shifted_down<S: Scalar>(v: Seq<S>, s: S) -> Seq<S> {
    Seq::new(v.len(), |i: int| v[i].spec_sub(s))
}

/// `a + b`, element by element.
pub open spec fn spec_sum<S: Scalar>(a: Seq<S>, b: Seq<S>) -> Seq<S> {
    Seq::new(a.len(), |i: int| a[i].spec_add(b[i]))
}

/// A vector of `n` zeros.
pub open spec fn spec_zeros<S: Scalar>(n: nat) -> Seq<S> {
    Seq::new(n, |i: int| S::spec_zero())
}

/// A vector of `n` zeros.
pub fn zeros<S: Scalar>(n: usize) -> (r: Vec<S>)
    ensures
        r@ == spec_zeros::<S>(n as nat),
{
    let mut r: Vec<S> = Vec::new();
    let mut i: usize = 0;
    while i < n
        invariant
            i <= n,
            r@ == spec_zeros::<S>(i as nat),
        decreases n - i,
    {
        r.push(S::zero());
        i += 1;
        assert(r@ =~= spec_zeros::<S>(i as nat));
    }
    r
}

/// A copy of `v`.
pub fn copied<S: Scalar>(v: &Vec<S>) -> (r: Vec<S>)
    ensures
        r@ == v@,
{
    let mut r: Vec<S> = Vec::new();
    let mut i: usize = 0;
    while i < v.len()
        invariant
            i <= v.len(),
            r@ == v@.take(i as int),
        decreases v.len() - i,
    {
        r.push(v[i]);
        i += 1;
        assert(r@ =~= v@.take(i as int));
    }
    assert(v@.take(v.len() as int) =~= v@);
    r
}

/// The sum of the elements of `v`.
pub fn total<S: Scalar>(v: &Vec<S>) -> (r: S)
    ensures
        r == spec_total(v@),
{
    let mut sum: S = S::zero();
    let mut i: usize = 0;
    while i < v.len()
        invariant
            i <= v.len(),
            sum == total_prefix(v@, i as int),
        decreases v.len() - i,
    {
        sum = sum.add(v[i]);
        i += 1;
    }
    sum
}

/// The inner product of two vectors of one length.
pub fn dot<S: Scalar>(a: &Vec<S>, b: &Vec<S>) -> (r: S)
    requires
        a@.len() == b@.len(),
    ensures
        r == spec_dot(a@, b@),
{
    let mut sum: S = S::zero();
    let mut i: usize = 0;
    while i < a.len()
        invariant
            i <= a.len(),
            a@.len() == b@.len(),
            sum == dot_prefix(a@, b@, i as int),
        decreases a.len() - i,
    {
        sum = sum.add(a[i].mul(b[i]));
        i += 1;
    }
    sum
}

/// The Euclidean length of `v`.
pub fn norm<S: Scalar>(v: &Vec<S>) -> (r: S)
    ensures
        r == spec_norm(v@),
{
    dot(v, v).sqrt()
}

/// Divides every element of `v` by `d`.
pub fn divide<S: Scalar>(v: &mut Vec<S>, d: S)
    ensures
        final(v)@ == divided(old(v)@, d),
{
    let ghost before = v@;
    let mut i: usize = 0;
    while i < v.len()
        invariant
            i <= v.len(),
            v@.len() == before.len(),
            forall|k: int| 0 <= k < i ==> v@[k] == before[k].spec_div(d),
            forall|k: int| i <= k < v@.len() ==> v@[k] == before[k],
        decreases v.len() - i,
    {
        let e: S = v[i].div(d);
        v[i] = e;
        i += 1;
    }
    assert(v@ =~= divided(before, d));
}

/// Scales `v` to unit length, where its length is positive.
pub fn normalize<S: Scalar>(v: &mut Vec<S>)
    ensures
        final(v)@ == normalized(old(v)@),
{
    let n: S = norm(v);
    if n.exceeds(S::zero()) {
        divide(v, n);
    }
}

/// `a - b`.
pub fn subtracted<S: Scalar>(a: &Vec<S>, b: &Vec<S>) -> (r: Vec<S>)
    requires
        a@.len() == b@.len(),
    ensures
        r@ == difference(a@, b@),
{
    let mut r: Vec<S> = Vec::new();
    let mut i: usize = 0;
    while i < a.len()
        invariant
            i <= a.len(),
            a@.len() == b@.len(),
            r@.len() == i,
            forall|k: int| 0 <= k < i ==> r@[k] == a@[k].spec_sub(b@[k]),
        decreases a.len() - i,
    {
        r.push(a[i].sub(b[i]));
        i += 1;
    }
    assert(r@ =~= difference(a@, b@));
    r
}

/// `a - b * s`.
pub fn subtract_multiple<S: Scalar>(a: &Vec<S>, b: &Vec<S>, s: S) -> (r: Vec<S>)
    requires
        a@.len() == b@.len(),
    ensures
        r@ == minus_multiple(a@, b@, s),
{
    let mut r: Vec<S> = Vec::new();
    let mut i: usize = 0;
    while i < a.len()
        invariant
            i <= a.len(),
            a@.len() == b@.len(),
            r@.len() == i,
            forall|k: int| 0 <= k < i ==> r@[k] == a@[k].spec_sub(b@[k].spec_mul(s)),
        decreases a.len() - i,
    {
        r.push(a[i].sub(b[i].mul(s)));
        i += 1;
    }
    assert(r@ =~= minus_multiple(a@, b@, s));
    r
}

/// Subtracts `s * b` from `a`.
pub fn subtract_scaled<S: Scalar>(a: &mut Vec<S>, s: S, b: &Vec<S>)
    requires
        old(a)@.len() <= b@.len(),
    ensures
        final(a)@ == minus_scaled(old(a)@, s, b@),
{
    let ghost before = a@;
    let mut i: usize = 0;
    while i < a.len()
        invariant
            i <= a.len(),
            a@.len() == before.len(),
            a@.len() <= b@.len(),
            forall|k: int| 0 <= k < i ==> a@[k] == before[k].spec_sub(s.spec_mul(b@[k])),
            forall|k: int| i <= k < a@.len() ==> a@[k] == before[k],
        decreases a.len() - i,
    {
        let e: S = a[i].sub(s.mul(b[i]));
        a[i] = e;
        i += 1;
    }
    assert(a@ =~= minus_scaled(before, s, b@));
}

/// Adds `s * b` to `a`.
pub fn add_scaled<S: Scalar>(a: &mut Vec<S>, s: S, b: &Vec<S>)
    requires
        old(a)@.len() == b@.len(),
    ensures
        final(a)@ == plus_scaled(old(a)@, s, b@),
{
    let ghost before = a@;
    let mut i: usize = 0;
    while i < a.len()
        invariant
            i <= a.len(),
            a@.len() == before.len(),
            a@.len() == b@.len(),
            forall|k: int| 0 <= k < i ==> a@[k] == before[k].spec_add(s.spec_mul(b@[k])),
            forall|k: int| i <= k < a@.len() ==> a@[k] == before[k],
        decreases a.len() - i,
    {
        let e: S = a[i].add(s.mul(b[i]));
        a[i] = e;
        i += 1;
    }
    assert(a@ =~= plus_scaled(before, s, b@));
}

/// Subtracts `s` from every element of `v`.
pub fn shift_down<S: Scalar>(v: &mut Vec<S>, s: S)
    ensures
        final(v)@ == shifted_down(old(v)@, s),
{
    let ghost before = v@;
    let mut i: usize = 0;
    while i < v.len()
        invariant
            i <= v.len(),
            v@.len() == before.len(),
            forall|k: int| 0 <= k < i ==> v@[k] == before[k].spec_sub(s),
            forall|k: int| i <= k < v@.len() ==> v@[k] == before[k],
        decreases v.len() - i,
    {
        let e: S = v[i].sub(s);
        v[i] = e;
        i += 1;
    }
    assert(v@ =~= shifted_down(before, s));
}

/// Subtracts `b` from `a`.
pub fn subtract<S: Scalar>(a: &mut Vec<S>, b: &Vec<S>)
    requires
        old(a)@.len() == b@.len(),
    ensures
        final(a)@ == difference(old(a)@, b@),
{
    let ghost before = a@;
    let mut i: usize = 0;
    while i < a.len()
        invariant
            i <= a.len(),
            a@.len() == before.len(),
            a@.len() == b@.len(),
            forall|k: int| 0 <= k < i ==> a@[k] == before[k].spec_sub(b@[k]),
            forall|k: int| i <= k < a@.len() ==> a@[k] == before[k],
        decreases a.len() - i,
    {
        let e: S = a[i].sub(b[i]);
        a[i] = e;
        i += 1;
    }
    assert(a@ =~= difference(before, b@));
}

/// Adds `b` to `a`.
pub fn accumulate<S: Scalar>(a: &mut Vec<S>, b: &Vec<S>)
    requires
        old(a)@.len() == b@.len(),
    ensures
        final(a)@ == spec_sum(old(a)@, b@),
{
    let ghost before = a@;
    let mut i: usize = 0;
    while i < a.len()
        invariant
            i <= a.len(),
            a@.len() == before.len(),
            a@.len() == b@.len(),
            forall|k: int| 0 <= k < i ==> a@[k] == before[k].spec_add(b@[k]),
            forall|k: int| i <= k < a@.len() ==> a@[k] == before[k],
        decreases a.len() - i,
    {
        let e: S = a[i].add(b[i]);
        a[i] = e;
        i += 1;
    }
    assert(a@ =~= spec_sum(before, b@));
}

} // verus!
