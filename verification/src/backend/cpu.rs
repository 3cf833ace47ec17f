//! The backend on the host.
use super::{
    forward_centered, forward_deflated, lemma_transpose_len, sparse_column_dot, sparse_dot,
    sparse_dot_prefix, spec_spmv_forward, spec_spmv_transpose, transpose_centered,
    transpose_deflated, truncated, BackendState, OplsBackend,
};
use crate::scalar::Scalar;
use crate::sparse::{lemma_rows_wf, lemma_stored, row_wf, rows_wf, stored, CsrMatrix};
use crate::vector::{add_scaled, dot, normalize, shift_down, total, zeros};
use vstd::prelude::*;

verus! {

/// A backend that computes on the host.
pub struct CpuBackend<S> {
    x: CsrMatrix<S>,
    mu: Option<Vec<S>>,
    t_defl: Vec<Vec<S>>,
    p_defl: Vec<Vec<S>>,
}

impl<S: Scalar> CpuBackend<S> {
    /// A backend for `x_sp`, without means and deflation pairs.
    pub fn new(x_sp: &CsrMatrix<S>) -> (r: Self)
        requires
            x_sp.wf(),
        ensures
            r.wf(),
            r.state() == (BackendState {
                rows: x_sp@,
                mean: None,
                deflations: Seq::empty(),
            }),
    {
        let r = CpuBackend {
            x: x_sp.copy(),
            mu: None,
            t_defl: Vec::new(),
            p_defl: Vec::new(),
        };
        assert(r.state().deflations =~= Seq::empty());
        r
    }

    /// Has a forward product by a vector of `len` elements `n` elements?
    pub fn is_forward_ready(&self, len: usize, n: usize) -> (r: bool)
        requires
            self.wf(),
        ensures
            r == self.state().forward_ready(len as nat, n as nat),
    {
        n <= self.x.rows() && self.x.has_columns_below(0, n, len) && self.mean_fits(len)
            && self.deflations_fit(n, len)
    }

    /// Has a transposed product by a vector of `len` elements `p` elements?
    pub fn is_transpose_ready(&self, len: usize, p: usize) -> (r: bool)
        requires
            self.wf(),
        ensures
            r == self.state().transpose_ready(len as nat, p as nat),
    {
        let n: usize = self.x.rows();
        n <= len && self.x.has_columns_below(0, n, p) && self.mean_fits(p)
            && self.deflations_fit(len, p)
    }

    /// Have the means `len` elements, where they are set?
    fn mean_fits(&self, len: usize) -> (r: bool)
        ensures
            r == (self.state().mean matches Some(mu) ==> mu.len() == len),
    {
        match &self.mu {
            Some(mu) => mu.len() == len,
            None => true,
        }
    }

    /// Have the scores of all pairs `n` elements, and the loadings `p`?
    fn deflations_fit(&self, n: usize, p: usize) -> (r: bool)
        requires
            self.wf(),
        ensures
            r == (forall|k: int|
                0 <= k < self.state().deflations.len() ==> (
                #[trigger] self.state().deflations[k]).0.len() == n
                    && self.state().deflations[k].1.len() == p),
    {
        let ghost pairs = self.state().deflations;
        let mut k: usize = 0;
        while k < self.t_defl.len()
            invariant
                k <= self.t_defl@.len(),
                self.wf(),
                pairs == self.state().deflations,
                forall|j: int|
                    0 <= j < k ==> (#[trigger] pairs[j]).0.len() == n && pairs[j].1.len() == p,
            decreases self.t_defl.len() - k,
        {
            assert(pairs[k as int] == (self.t_defl@[k as int]@, self.p_defl@[k as int]@));
            if self.t_defl[k].len() != n || self.p_defl[k].len() != p {
                return false;
            }
            k += 1;
        }
        true
    }

    /// `X_sp v`, its first `n` elements.
    fn spmv_forward(&self, v: &Vec<S>, n: usize) -> (r: Vec<S>)
        requires
            self.wf(),
            n <= self.state().rows.len(),
            self.state().columns_fit(n as nat, v@.len()),
        ensures
            r@ == spec_spmv_forward(self.state().rows, v@, n as nat),
    {
        let ghost rows = self.x@;
        let indptr: &Vec<usize> = self.x.indptr();
        let indices: &Vec<usize> = self.x.indices();
        let data: &Vec<S> = self.x.data();
        let mut result: Vec<S> = Vec::new();
        let mut row: usize = 0;
        while row < n
            invariant
                row <= n,
                n <= rows.len(),
                rows == self.x@,
                self.x.wf(),
                indptr@ == self.x.offsets(),
                indices@ == self.x.columns(),
                data@ == self.x.values(),
                forall|q: int, k: int|
                    0 <= q < n && 0 <= k < rows[q].len() ==> (#[trigger] rows[q][k]).0 < v@.len(),
                result@.len() == row,
                forall|q: int| 0 <= q < row ==> result@[q] == sparse_dot(rows[q], v@),
            decreases n - row,
        {
            assert(row + 1 < indptr.len());
            let start: usize = indptr[row];
            let end: usize = indptr[row + 1];
            let ghost entries = rows[row as int];
            assert(indptr@[row as int] <= indptr@[row + 1] <= indptr@[indptr@.len() - 1]);
            let mut sum: S = S::zero();
            let mut idx: usize = start;
            while idx < end
                invariant
                    start <= idx <= end,
                    end <= data@.len(),
                    data@.len() == indices@.len(),
                    row < n,
                    n <= rows.len(),
                    rows == self.x@,
                    indptr@ == self.x.offsets(),
                    indices@ == self.x.columns(),
                    data@ == self.x.values(),
                    start == indptr@[row as int],
                    end == indptr@[row + 1],
                    entries == rows[row as int],
                    forall|q: int, k: int|
                        0 <= q < n && 0 <= k < rows[q].len() ==> (#[trigger] rows[q][k]).0
                            < v@.len(),
                    sum == sparse_dot_prefix(entries, v@, idx - start),
                decreases end - idx,
            {
                assert(rows[row as int][idx - start] == (indices@[idx as int], data@[idx as int]));
                sum = sum.add(data[idx].mul(v[indices[idx]]));
                idx += 1;
            }
            result.push(sum);
            row += 1;
        }
        assert(result@ =~= spec_spmv_forward(rows, v@, n as nat));
        result
    }

    /// `X_sp^T v`, its first `p` elements.
    fn spmv_transpose(&self, v: &Vec<S>, p: usize) -> (r: Vec<S>)
        requires
            self.wf(),
            self.state().rows.len() <= v@.len(),
            self.state().columns_fit(self.state().rows.len(), p as nat),
        ensures
            r@ == spec_spmv_transpose(self.state().rows, v@, p as nat),
    {
        let ghost rows = self.x@;
        let indptr: &Vec<usize> = self.x.indptr();
        let indices: &Vec<usize> = self.x.indices();
        let data: &Vec<S> = self.x.data();
        let n: usize = self.x.rows();
        let mut result: Vec<S> = zeros(p);
        proof {
            lemma_rows_wf(&self.x);
        }
        let mut row: usize = 0;
        while row < n
            invariant
                row <= n,
                n == rows.len(),
                n <= v@.len(),
                rows == self.x@,
                self.x.wf(),
                rows_wf(rows, self.x.width()),
                indptr@ == self.x.offsets(),
                indices@ == self.x.columns(),
                data@ == self.x.values(),
                forall|q: int, k: int|
                    0 <= q < n && 0 <= k < rows[q].len() ==> (#[trigger] rows[q][k]).0 < p,
                result@.len() == p,
                forall|j: int|
                    0 <= j < p ==> result@[j] == sparse_column_dot(rows, j, v@, row as int),
            decreases n - row,
        {
            assert(row + 1 < indptr.len());
            let start: usize = indptr[row];
            let end: usize = indptr[row + 1];
            let vi: S = v[row];
            let ghost entries = rows[row as int];
            let ghost before = result@;
            assert(indptr@[row as int] <= indptr@[row + 1] <= indptr@[indptr@.len() - 1]);
            let mut idx: usize = start;
            while idx < end
                invariant
                    start <= idx <= end,
                    end <= data@.len(),
                    data@.len() == indices@.len(),
                    row < n,
                    n == rows.len(),
                    rows == self.x@,
                    indptr@ == self.x.offsets(),
                    indices@ == self.x.columns(),
                    data@ == self.x.values(),
                    start == indptr@[row as int],
                    end == indptr@[row + 1],
                    entries == rows[row as int],
                    row_wf(entries, self.x.width()),
                    forall|q: int, k: int|
                        0 <= q < n && 0 <= k < rows[q].len() ==> (#[trigger] rows[q][k]).0 < p,
                    before.len() == p,
                    result@.len() == p,
                    forall|k: int|
                        0 <= k < idx - start ==> result@[(#[trigger] entries[k]).0 as int]
                            == before[entries[k].0 as int].spec_add(entries[k].1.spec_mul(vi)),
                    forall|j: int|
                        0 <= j < p && (forall|k: int|
                            0 <= k < idx - start ==> (#[trigger] entries[k]).0 != j)
                            ==> #[trigger] result@[j] == before[j],
                decreases end - idx,
            {
                let ghost k = idx - start;
                assert(rows[row as int][k] == (indices@[idx as int], data@[idx as int]));
                let c: usize = indices[idx];
                assert forall|l: int| 0 <= l < k implies (#[trigger] entries[l]).0 != c by {
                    assert(entries[l].0 < entries[k].0);
                }
                assert(result@[c as int] == before[c as int]);
                let e: S = result[c].add(data[idx].mul(vi));
                let ghost previous = result@;
                result[c] = e;
                idx += 1;
                assert forall|j: int|
                    0 <= j < p && (forall|l: int|
                        0 <= l < idx - start ==> (#[trigger] entries[l]).0
                            != j) implies #[trigger] result@[j] == before[j] by {
                    assert(entries[k].0 != j);
                    assert(previous[j] == before[j]);
                }
            }
            assert forall|j: int| 0 <= j < p implies result@[j] == sparse_column_dot(
                rows,
                j,
                v@,
                row + 1,
            ) by {
                if exists|k: int| 0 <= k < entries.len() && (#[trigger] entries[k]).0 == j {
                    let k = choose|k: int|
                        0 <= k < entries.len() && (#[trigger] entries[k]).0 == j;
                    lemma_stored(entries, self.x.width(), k);
                    assert(result@[entries[k].0 as int] == before[j].spec_add(
                        entries[k].1.spec_mul(vi),
                    ));
                } else {
                    assert(stored(entries, j) is None);
                    assert(result@[j] == before[j]);
                }
            }
            row += 1;
        }
        assert(result@ =~= spec_spmv_transpose(rows, v@, p as nat));
        result
    }

    /// Applies the dense corrections of a forward product.
    fn apply_forward_corrections(&self, result: &mut Vec<S>, v: &Vec<S>)
        requires
            self.wf(),
            self.state().forward_fits(v@.len(), old(result)@.len()),
        ensures
            final(result)@ == self.state().forward_corrected(old(result)@, v@),
    {
        let ghost s = self.state();
        if let Some(mu) = &self.mu {
            let mu_dot_v: S = dot(mu, v);
            shift_down(result, mu_dot_v);
        }
        let ghost centered = result@;
        assert(centered == forward_centered(s.mean, old(result)@, v@));
        let mut k: usize = 0;
        while k < self.t_defl.len()
            invariant
                k <= self.t_defl@.len(),
                self.wf(),
                s == self.state(),
                s.forward_fits(v@.len(), centered.len()),
                result@.len() == centered.len(),
                result@ == forward_deflated(s.deflations, centered, v@, k as int),
            decreases self.t_defl.len() - k,
        {
            assert(s.deflations[k as int] == (
                self.t_defl@[k as int]@,
                self.p_defl@[k as int]@,
            ));
            let coeff: S = dot(&self.p_defl[k], v);
            add_scaled(result, coeff.neg(), &self.t_defl[k]);
            k += 1;
        }
    }

    /// Applies the dense corrections of a transposed product.
    fn apply_transpose_corrections(&self, result: &mut Vec<S>, v: &Vec<S>)
        requires
            self.wf(),
            self.state().transpose_fits(v@.len(), old(result)@.len()),
        ensures
            final(result)@ == self.state().transpose_corrected(old(result)@, v@),
    {
        let ghost s = self.state();
        if let Some(mu) = &self.mu {
            let sum_v: S = total(v);
            add_scaled(result, sum_v.neg(), mu);
        }
        let ghost centered = result@;
        assert(centered == transpose_centered(s.mean, old(result)@, v@));
        let mut k: usize = 0;
        while k < self.t_defl.len()
            invariant
                k <= self.t_defl@.len(),
                self.wf(),
                s == self.state(),
                s.transpose_fits(v@.len(), centered.len()),
                result@.len() == centered.len(),
                result@ == transpose_deflated(s.deflations, centered, v@, k as int),
            decreases self.t_defl.len() - k,
        {
            assert(s.deflations[k as int] == (
                self.t_defl@[k as int]@,
                self.p_defl@[k as int]@,
            ));
            let coeff: S = dot(&self.t_defl[k], v);
            add_scaled(result, coeff.neg(), &self.p_defl[k]);
            k += 1;
        }
    }
}

impl<S: Scalar> OplsBackend<S> for CpuBackend<S> {
    closed spec fn state(&self) -> BackendState<S> {
        BackendState {
            rows: self.x@,
            mean: match self.mu {
                Some(mu) => Some(mu@),
                None => None,
            },
            deflations: Seq::new(
                self.t_defl@.len(),
                |k: int| (self.t_defl@[k]@, self.p_defl@[k]@),
            ),
        }
    }

    closed spec fn wf(&self) -> bool {
        &&& self.x.wf()
        &&& self.t_defl@.len() == self.p_defl@.len()
    }

    fn set_mean(&mut self, mu: Vec<S>) {
        self.mu = Some(mu);
    }

    fn push_deflation(&mut self, t: Vec<S>, p: Vec<S>) {
        let ghost before = self.state();
        self.t_defl.push(t);
        self.p_defl.push(p);
        assert(self.state().deflations =~= before.deflations.push((t@, p@)));
    }

    fn truncate_deflation(&mut self, keep: usize) {
        let ghost before = self.state();
        self.t_defl.truncate(keep);
        self.p_defl.truncate(keep);
        assert(self.state().deflations =~= truncated(before.deflations, keep as int));
    }

    fn num_deflation(&self) -> (r: usize) {
        self.t_defl.len()
    }

    fn xeff_forward(&self, v: &Vec<S>, n: usize) -> (r: Vec<S>) {
        let mut result: Vec<S> = self.spmv_forward(v, n);
        self.apply_forward_corrections(&mut result, v);
        result
    }

    fn xeff_transpose(&self, v: &Vec<S>, p: usize) -> (r: Vec<S>) {
        let mut result: Vec<S> = self.spmv_transpose(v, p);
        self.apply_transpose_corrections(&mut result, v);
        result
    }

    fn nipals_wt(&self, u: &Vec<S>, n: usize, p: usize) -> (r: (Vec<S>, Vec<S>, S)) {
        let mut w: Vec<S> = self.xeff_transpose(u, p);
        normalize(&mut w);
        proof {
            let s = self.state();
            lemma_transpose_len(
                s.deflations,
                transpose_centered(s.mean, spec_spmv_transpose(s.rows, u@, p as nat), u@),
                u@,
                s.deflations.len() as int,
            );
        }
        let t: Vec<S> = self.xeff_forward(&w, n);
        let tt: S = dot(&t, &t);
        (w, t, tt)
    }
}

} // verus!
