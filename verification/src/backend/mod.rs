//! Backends: products with a sparse matrix that is centered and deflated on the fly.
//!
//! A backend holds a sparse matrix `X_sp`, column means `mu` and deflation pairs
//! `(t_k, p_k)`.  It multiplies by `X_eff`, which is `X_sp` with the means subtracted from
//! every row and with every outer product of a pair subtracted, without ever forming it.
use crate::scalar::Scalar;
use crate::sparse::{columns_below, stored, Entry};
use crate::vector::{normalized, plus_scaled, shifted_down, spec_dot, spec_total};
use vstd::prelude::*;

pub mod cpu;
pub mod device;
pub mod select;

verus! {

/// What a backend holds.
#[verifier::ext_equal]
pub struct BackendState<S> {
    /// The rows of the sparse matrix.
    pub rows: Seq<Seq<Entry<S>>>,
    /// The column means, once they are set.
    pub mean: Option<Seq<S>>,
    /// The deflation pairs: scores and loadings.
    pub deflations: Seq<(Seq<S>, Seq<S>)>,
}

/// The sum, over the first `k` entries of a row, of value times element of `v`.
pub open spec fn sparse_dot_prefix<S: Scalar>(row: Seq<Entry<S>>, v: Seq<S>, k: int) -> S
    decreases k,
{
    if k <= 0 {
        S::spec_zero()
    } else {
        sparse_dot_prefix(row, v, k - 1).spec_add(row[k - 1].1.spec_mul(v[row[k - 1].0 as int]))
    }
}

/// The product of a sparse row and a vector.
pub open spec fn sparse_dot<S: Scalar>(row: Seq<Entry<S>>, v: Seq<S>) -> S {
    sparse_dot_prefix(row, v, row.len() as int)
}

/// The sum, over those of the first `k` rows that store a value in column `j`, of value
/// times element of `v`.
pub open spec fn sparse_column_dot<S: Scalar>(
    rows: Seq<Seq<Entry<S>>>,
    j: int,
    v: Seq<S>,
    k: int,
) -> S
    decreases k,
{
    if k <= 0 {
        S::spec_zero()
    } else {
        let before = sparse_column_dot(rows, j, v, k - 1);
        match stored(rows[k - 1], j) {
            Some(d) => before.spec_add(d.spec_mul(v[k - 1])),
            None => before,
        }
    }
}

/// `X_sp v`, its first `n` elements.
pub open spec fn spec_spmv_forward<S: Scalar>(rows: Seq<Seq<Entry<S>>>, v: Seq<S>, n: nat) -> Seq<
    S,
> {
    Seq::new(n, |i: int| sparse_dot(rows[i], v))
}

/// `X_sp^T v`, its first `p` elements.
pub open spec fn spec_spmv_transpose<S: Scalar>(rows: Seq<Seq<Entry<S>>>, v: Seq<S>, p: nat) -> Seq<
    S,
> {
    Seq::new(p, |j: int| sparse_column_dot(rows, j, v, rows.len() as int))
}

/// `r` with `(p_k . v) t_k` subtracted for each of the first `k` pairs.
pub open spec fn forward_deflated<S: Scalar>(
    deflations: Seq<(Seq<S>, Seq<S>)>,
    r: Seq<S>,
    v: Seq<S>,
    k: int,
) -> Seq<S>
    decreases k,
{
    if k <= 0 {
        r
    } else {
        let (t, p) = deflations[k - 1];
        plus_scaled(forward_deflated(deflations, r, v, k - 1), spec_dot(p, v).spec_neg(), t)
    }
}

/// `r` with `(t_k . v) p_k` subtracted for each of the first `k` pairs.
pub open spec fn transpose_deflated<S: Scalar>(
    deflations: Seq<(Seq<S>, Seq<S>)>,
    r: Seq<S>,
    v: Seq<S>,
    k: int,
) -> Seq<S>
    decreases k,
{
    if k <= 0 {
        r
    } else {
        let (t, p) = deflations[k - 1];
        plus_scaled(transpose_deflated(deflations, r, v, k - 1), spec_dot(t, v).spec_neg(), p)
    }
}

/// `r` with `mu . v` subtracted throughout, where the means are set.
pub open spec fn forward_centered<S: Scalar>(mean: Option<Seq<S>>, r: Seq<S>, v: Seq<S>) -> Seq<S> {
    match mean {
        Some(mu) => shifted_down(r, spec_dot(mu, v)),
        None => r,
    }
}

/// `r` with `sum(v) mu` subtracted, where the means are set.
pub open spec fn transpose_centered<S: Scalar>(mean: Option<Seq<S>>, r: Seq<S>, v: Seq<S>) -> Seq<
    S,
> {
    match mean {
        Some(mu) => plus_scaled(r, spec_total(v).spec_neg(), mu),
        None => r,
    }
}

/// Corrections keep the length of a transposed product.
pub proof fn lemma_transpose_len<S: Scalar>(
    deflations: Seq<(Seq<S>, Seq<S>)>,
    r: Seq<S>,
    v: Seq<S>,
    k: int,
)
    ensures
        transpose_deflated(deflations, r, v, k).len() == r.len(),
    decreases k,
{
    if k > 0 {
        lemma_transpose_len(deflations, r, v, k - 1);
    }
}

impl<S: Scalar> BackendState<S> {
    /// `r` with the corrections of a forward product by `v`.
    pub open spec fn forward_corrected(self, r: Seq<S>, v: Seq<S>) -> Seq<S> {
        forward_deflated(
            self.deflations,
            forward_centered(self.mean, r, v),
            v,
            self.deflations.len() as int,
        )
    }

    /// `r` with the corrections of a transposed product by `v`.
    pub open spec fn transpose_corrected(self, r: Seq<S>, v: Seq<S>) -> Seq<S> {
        transpose_deflated(
            self.deflations,
            transpose_centered(self.mean, r, v),
            v,
            self.deflations.len() as int,
        )
    }

    /// `X_eff v = X_sp v - (mu . v) 1 - sum (p_k . v) t_k`, its first `n` elements.
    pub open spec fn forward(self, v: Seq<S>, n: nat) -> Seq<S> {
        self.forward_corrected(spec_spmv_forward(self.rows, v, n), v)
    }

    /// `X_eff^T v = X_sp^T v - sum(v) mu - sum (t_k . v) p_k`, its first `p` elements.
    pub open spec fn transpose(self, v: Seq<S>, p: nat) -> Seq<S> {
        self.transpose_corrected(spec_spmv_transpose(self.rows, v, p), v)
    }

    /// The means and the pairs fit forward corrections of `n` elements, for a vector of
    /// `len` elements.
    pub open spec fn forward_fits(self, len: nat, n: nat) -> bool {
        &&& self.mean matches Some(mu) ==> mu.len() == len
        &&& forall|k: int|
            0 <= k < self.deflations.len() ==> (#[trigger] self.deflations[k]).1.len() == len
                && self.deflations[k].0.len() == n
    }

    /// The means and the pairs fit transposed corrections of `p` elements, for a vector of
    /// `len` elements.
    pub open spec fn transpose_fits(self, len: nat, p: nat) -> bool {
        &&& self.mean matches Some(mu) ==> mu.len() == p
        &&& forall|k: int|
            0 <= k < self.deflations.len() ==> (#[trigger] self.deflations[k]).0.len() == len
                && self.deflations[k].1.len() == p
    }

    /// The first `n` rows store entries in the first `p` columns only.
    pub open spec fn columns_fit(self, n: nat, p: nat) -> bool {
        columns_below(self.rows, 0, n as int, p)
    }

    /// A forward product by a vector of `len` elements has `n` elements.
    pub open spec fn forward_ready(self, len: nat, n: nat) -> bool {
        &&& n <= self.rows.len()
        &&& self.columns_fit(n, len)
        &&& self.forward_fits(len, n)
    }

    /// A transposed product by a vector of `len` elements has `p` elements.
    pub open spec fn transpose_ready(self, len: nat, p: nat) -> bool {
        &&& self.rows.len() <= len
        &&& self.columns_fit(self.rows.len(), p)
        &&& self.transpose_fits(len, p)
    }
}

/// A backend: sparse products with dense corrections.
pub trait OplsBackend<S: Scalar> {
    /// What the backend holds.
    spec fn state(&self) -> BackendState<S>;

    /// The backend is consistent.
    spec fn wf(&self) -> bool;

    /// Sets the column means.
    fn set_mean(&mut self, mu: Vec<S>)
        requires
            old(self).wf(),
        ensures
            final(self).wf(),
            final(self).state() == (BackendState { mean: Some(mu@), ..old(self).state() }),
    ;

    /// Adds a deflation pair.
    fn push_deflation(&mut self, t: Vec<S>, p: Vec<S>)
        requires
            old(self).wf(),
        ensures
            final(self).wf(),
            final(self).state() == (BackendState {
                deflations: old(self).state().deflations.push((t@, p@)),
                ..old(self).state()
            }),
    ;

    /// Keeps the first `keep` deflation pairs, or all where there are no more.
    fn truncate_deflation(&mut self, keep: usize)
        requires
            old(self).wf(),
        ensures
            final(self).wf(),
            final(self).state() == (BackendState {
                deflations: truncated(old(self).state().deflations, keep as int),
                ..old(self).state()
            }),
    ;

    /// The number of deflation pairs.
    fn num_deflation(&self) -> (r: usize)
        requires
            self.wf(),
        ensures
            r == self.state().deflations.len(),
    ;

    /// Computes `X_eff v = X_sp v - (mu . v) 1 - sum (p_k . v) t_k`.
    fn xeff_forward(&self, v: &Vec<S>, n: usize) -> (r: Vec<S>)
        requires
            self.wf(),
            self.state().forward_ready(v@.len(), n as nat),
        ensures
            r@ == self.state().forward(v@, n as nat),
    ;

    /// Computes `X_eff^T v = X_sp^T v - sum(v) mu - sum (t_k . v) p_k`.
    fn xeff_transpose(&self, v: &Vec<S>, p: usize) -> (r: Vec<S>)
        requires
            self.wf(),
            self.state().transpose_ready(v@.len(), p as nat),
        ensures
            r@ == self.state().transpose(v@, p as nat),
    ;

    /// Fused: `w = normalize(X_eff^T u)` and `t = X_eff w`.  Returns `(w, t, t . t)`.
    fn nipals_wt(&self, u: &Vec<S>, n: usize, p: usize) -> (r: (Vec<S>, Vec<S>, S))
        requires
            self.wf(),
            self.state().transpose_ready(u@.len(), p as nat),
            self.state().forward_ready(p as nat, n as nat),
        ensures
            r.0@ == normalized(self.state().transpose(u@, p as nat)),
            r.1@ == self.state().forward(r.0@, n as nat),
            r.2 == spec_dot(r.1@, r.1@),
    ;
}

/// The first `keep` elements, or all where there are no more.
pub open spec fn truncated<T>(s: Seq<T>, keep: int) -> Seq<T> {
    if keep < s.len() {
        s.take(keep)
    } else {
        s
    }
}

} // verus!
