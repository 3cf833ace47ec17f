//! A backend multiplies by the matrix that explicit centering and deflation would give.
use crate::backend::{
    forward_centered, forward_deflated, sparse_column_dot, sparse_dot_prefix, spec_spmv_forward,
    spec_spmv_transpose, transpose_centered, transpose_deflated, truncated, BackendState,
};
use crate::laws::algebra::{dot_linear, dot_zeros, mul_zero, neg_mul, one_mul, zero_add};
use crate::laws::orthogonality::deflated_dot_mtv;
use crate::laws::peeling::deflated_dot;
use crate::laws::products::{adjoint, dot_unit};
use crate::matrix::{deflated, has_width, rows_minus, spec_column, spec_dot_mtv, spec_dot_mv};
use crate::nipals::x_weight;
use crate::scalar::{ExactScalar, Scalar};
use crate::solve::unit;
use crate::sparse::{lemma_stored, row_wf, rows_wf, stored, Entry};
use crate::vector::{difference, dot_prefix, normalized, spec_dot, spec_total, total_prefix};
use vstd::prelude::*;

verus! {

/// A sparse row written out: zero where nothing is stored.
pub open spec fn dense_row<S: Scalar>(row: Seq<Entry<S>>, p: nat) -> Seq<S> {
    Seq::new(
        p,
        |c: int|
            match stored(row, c) {
                Some(v) => v,
                None => S::spec_zero(),
            },
    )
}

/// The first `n` rows of a sparse matrix written out.
pub open spec fn dense<S: Scalar>(rows: Seq<Seq<Entry<S>>>, n: nat, p: nat) -> Seq<Seq<S>> {
    Seq::new(n, |i: int| dense_row(rows[i], p))
}

/// `m` with the first `k` deflation pairs applied.
pub open spec fn all_deflated<S: Scalar>(
    m: Seq<Seq<S>>,
    deflations: Seq<(Seq<S>, Seq<S>)>,
    k: int,
) -> Seq<Seq<S>>
    decreases k,
{
    if k <= 0 {
        m
    } else {
        let (t, l) = deflations[k - 1];
        deflated(all_deflated(m, deflations, k - 1), t, l)
    }
}

/// `m` with the means subtracted from every row, where they are set.
pub open spec fn means_subtracted<S: Scalar>(m: Seq<Seq<S>>, mean: Option<Seq<S>>) -> Seq<Seq<S>> {
    match mean {
        Some(mu) => rows_minus(m, mu),
        None => m,
    }
}

/// The matrix that a backend stands for: its first `n` rows and `p` columns, centered and
/// deflated explicitly.
pub open spec fn effective<S: Scalar>(s: BackendState<S>, n: nat, p: nat) -> Seq<Seq<S>> {
    all_deflated(
        means_subtracted(dense(s.rows, n, p), s.mean),
        s.deflations,
        s.deflations.len() as int,
    )
}

proof fn sparse_dot_is_dense<S: ExactScalar>(row: Seq<Entry<S>>, v: Seq<S>, p: nat, k: int)
    requires
        row_wf(row, p),
        v.len() == p,
        0 <= k <= row.len(),
    ensures
        sparse_dot_prefix(row, v, k) == spec_dot(dense_row(row.take(k), p), v),
    decreases k,
{
    let d = dense_row(row.take(k), p);
    if k == 0 {
        assert forall|c: int| 0 <= c < p implies #[trigger] d[c] == S::spec_zero() by {}
        dot_zeros(d, v, p as int);
    } else {
        let before = dense_row(row.take(k - 1), p);
        let (col, val) = row[k - 1];
        let e = unit::<S>(col as int, p);
        sparse_dot_is_dense(row, v, p, k - 1);
        assert(row_wf(row.take(k), p));
        assert(row_wf(row.take(k - 1), p));
        assert forall|c: int| 0 <= c < p implies #[trigger] d[c] == before[c].spec_add(
            val.spec_mul(e[c]),
        ) by {
            if c == col {
                assert(row.take(k)[k - 1].0 == c);
                lemma_stored(row.take(k), p, k - 1);
                assert forall|l: int| 0 <= l < k - 1 implies (#[trigger] row.take(k - 1)[l]).0
                    != c by {
                    assert(row[l].0 < row[k - 1].0);
                }
                assert(stored(row.take(k - 1), c) is None);
                S::mul_one(val);
                zero_add(val);
            } else {
                mul_zero(val);
                S::add_zero(before[c]);
                if exists|l: int| 0 <= l < k - 1 && (#[trigger] row.take(k - 1)[l]).0 == c {
                    let l = choose|l: int| 0 <= l < k - 1 && (#[trigger] row.take(k - 1)[l]).0 == c;
                    lemma_stored(row.take(k - 1), p, l);
                    assert(row.take(k)[l] == row.take(k - 1)[l]);
                    lemma_stored(row.take(k), p, l);
                } else {
                    assert forall|l: int| 0 <= l < k implies (#[trigger] row.take(k)[l]).0 != c by {
                        if l < k - 1 {
                            assert(row.take(k - 1)[l] == row.take(k)[l]);
                        }
                    }
                    assert(stored(row.take(k), c) is None);
                    assert(stored(row.take(k - 1), c) is None);
                }
            }
        }
        dot_linear(d, before, val, e, v, p as int);
        dot_unit(v, col as int);
    }
}

/// The shape of the matrix that a backend stands for.
pub proof fn effective_shape<S: Scalar>(s: BackendState<S>, n: nat, p: nat, k: int)
    requires
        0 <= k <= s.deflations.len(),
    ensures
        all_deflated(means_subtracted(dense(s.rows, n, p), s.mean), s.deflations, k).len() == n,
        has_width(
            all_deflated(means_subtracted(dense(s.rows, n, p), s.mean), s.deflations, k),
            p,
        ),
    decreases k,
{
    if k > 0 {
        effective_shape(s, n, p, k - 1);
        let base = means_subtracted(dense(s.rows, n, p), s.mean);
        let before = all_deflated(base, s.deflations, k - 1);
        assert forall|i: int| 0 <= i < n implies (#[trigger] all_deflated(
            base,
            s.deflations,
            k,
        )[i]).len() == p by {
            assert(before[i].len() == p);
        }
    }
}

/// `a - b == a + (-1) * b`.
proof fn sub_is_minus_one<S: ExactScalar>(a: S, b: S)
    ensures
        a.spec_sub(b) == a.spec_add(S::spec_one().spec_neg().spec_mul(b)),
{
    S::sub_is_add_neg(a, b);
    neg_mul(S::spec_one(), b);
    one_mul(b);
}

/// `(-a) * b == (-b) * a`.
proof fn neg_mul_commutes<S: ExactScalar>(a: S, b: S)
    ensures
        a.spec_neg().spec_mul(b) == b.spec_neg().spec_mul(a),
{
    neg_mul(a, b);
    neg_mul(b, a);
    S::mul_commutes(a, b);
}

proof fn forward_upto<S: ExactScalar>(s: BackendState<S>, v: Seq<S>, n: nat, k: int)
    requires
        n <= s.rows.len(),
        rows_wf(s.rows, v.len()),
        s.forward_fits(v.len(), n),
        0 <= k <= s.deflations.len(),
    ensures
        forward_deflated(
            s.deflations,
            forward_centered(s.mean, spec_spmv_forward(s.rows, v, n), v),
            v,
            k,
        ) == spec_dot_mv(
            all_deflated(means_subtracted(dense(s.rows, n, v.len()), s.mean), s.deflations, k),
            v,
        ),
    decreases k,
{
    let p = v.len();
    let base = dense(s.rows, n, p);
    let shifted = means_subtracted(base, s.mean);
    let r = spec_spmv_forward(s.rows, v, n);
    let centered = forward_centered(s.mean, r, v);
    let left = forward_deflated(s.deflations, centered, v, k);
    let m = all_deflated(shifted, s.deflations, k);
    effective_shape(s, n, p, k);
    if k == 0 {
        assert forall|i: int| 0 <= i < n implies left[i] == spec_dot_mv(m, v)[i] by {
            let row = s.rows[i];
            sparse_dot_is_dense(row, v, p, row.len() as int);
            assert(row.take(row.len() as int) =~= row);
            if let Some(mu) = s.mean {
                let d = difference(base[i], mu);
                assert forall|j: int| 0 <= j < p implies #[trigger] d[j] == base[i][j].spec_add(
                    S::spec_one().spec_neg().spec_mul(mu[j]),
                ) by {
                    sub_is_minus_one(base[i][j], mu[j]);
                }
                dot_linear(d, base[i], S::spec_one().spec_neg(), mu, v, p as int);
                sub_is_minus_one(r[i], spec_dot(mu, v));
            }
        }
        assert(left =~= spec_dot_mv(m, v));
    } else {
        let before = all_deflated(shifted, s.deflations, k - 1);
        let (t, l) = s.deflations[k - 1];
        forward_upto(s, v, n, k - 1);
        effective_shape(s, n, p, k - 1);
        assert(s.deflations[k - 1].1.len() == p);
        assert forall|i: int| 0 <= i < n implies left[i] == spec_dot_mv(m, v)[i] by {
            deflated_dot(before, t, l, v, p, i);
            neg_mul_commutes(spec_dot(l, v), t[i]);
            assert(spec_dot_mv(before, v)[i] == spec_dot(before[i], v));
        }
        assert(left =~= spec_dot_mv(m, v));
    }
}

/// A forward product of a backend is the product with the matrix it stands for.
pub proof fn forward_is_product<S: ExactScalar>(s: BackendState<S>, v: Seq<S>, n: nat)
    requires
        n <= s.rows.len(),
        rows_wf(s.rows, v.len()),
        s.forward_fits(v.len(), n),
    ensures
        s.forward(v, n) == spec_dot_mv(effective(s, n, v.len()), v),
{
    forward_upto(s, v, n, s.deflations.len() as int);
}

proof fn column_dot_is_dense<S: ExactScalar>(
    rows: Seq<Seq<Entry<S>>>,
    j: int,
    v: Seq<S>,
    p: nat,
    k: int,
)
    requires
        0 <= j < p,
        0 <= k <= rows.len(),
    ensures
        sparse_column_dot(rows, j, v, k) == dot_prefix(
            spec_column(dense(rows, rows.len(), p), j),
            v,
            k,
        ),
    decreases k,
{
    if k > 0 {
        column_dot_is_dense(rows, j, v, p, k - 1);
        if stored(rows[k - 1], j) is None {
            mul_zero(v[k - 1]);
            S::add_zero(sparse_column_dot(rows, j, v, k - 1));
        }
    }
}

/// The inner product with ones is the sum.
pub proof fn dot_ones<S: ExactScalar>(ones: Seq<S>, v: Seq<S>, k: int)
    requires
        forall|i: int| 0 <= i < k ==> #[trigger] ones[i] == S::spec_one(),
    ensures
        dot_prefix(ones, v, k) == total_prefix(v, k),
    decreases k,
{
    if k > 0 {
        dot_ones(ones, v, k - 1);
        assert(ones[k - 1] == S::spec_one());
        one_mul(v[k - 1]);
    }
}

proof fn transpose_upto<S: ExactScalar>(s: BackendState<S>, v: Seq<S>, p: nat, k: int)
    requires
        v.len() == s.rows.len(),
        s.transpose_fits(v.len(), p),
        0 <= k <= s.deflations.len(),
    ensures
        transpose_deflated(
            s.deflations,
            transpose_centered(s.mean, spec_spmv_transpose(s.rows, v, p), v),
            v,
            k,
        ) == spec_dot_mtv(
            all_deflated(means_subtracted(dense(s.rows, v.len(), p), s.mean), s.deflations, k),
            v,
            p,
        ),
    decreases k,
{
    let n = v.len();
    let base = dense(s.rows, n, p);
    let shifted = means_subtracted(base, s.mean);
    let r = spec_spmv_transpose(s.rows, v, p);
    let centered = transpose_centered(s.mean, r, v);
    let left = transpose_deflated(s.deflations, centered, v, k);
    let m = all_deflated(shifted, s.deflations, k);
    effective_shape(s, n, p, k);
    if k == 0 {
        let ones = Seq::new(n, |i: int| S::spec_one());
        assert forall|j: int| 0 <= j < p implies left[j] == spec_dot_mtv(m, v, p)[j] by {
            let b = spec_column(base, j);
            column_dot_is_dense(s.rows, j, v, p, n as int);
            assert(r[j] == spec_dot(b, v));
            if let Some(mu) = s.mean {
                let c = spec_column(shifted, j);
                let q = mu[j].spec_neg();
                assert forall|i: int| 0 <= i < n implies #[trigger] c[i] == b[i].spec_add(
                    q.spec_mul(ones[i]),
                ) by {
                    S::mul_one(q);
                    S::sub_is_add_neg(b[i], mu[j]);
                }
                dot_linear(c, b, q, ones, v, n as int);
                dot_ones(ones, v, n as int);
                neg_mul_commutes(spec_total(v), mu[j]);
            }
        }
        assert(left =~= spec_dot_mtv(m, v, p));
    } else {
        let before = all_deflated(shifted, s.deflations, k - 1);
        let (t, l) = s.deflations[k - 1];
        transpose_upto(s, v, p, k - 1);
        effective_shape(s, n, p, k - 1);
        assert(s.deflations[k - 1].1.len() == p);
        assert(s.deflations[k - 1].0.len() == n);
        deflated_dot_mtv(before, t, l, v, p);
        assert forall|j: int| 0 <= j < p implies left[j] == spec_dot_mtv(m, v, p)[j] by {
            neg_mul_commutes(spec_dot(t, v), l[j]);
            assert(left[j] == spec_dot_mtv(before, v, p)[j].spec_add(
                spec_dot(t, v).spec_neg().spec_mul(l[j]),
            ));
        }
        assert(left =~= spec_dot_mtv(m, v, p));
    }
}

/// A transposed product of a backend is the transposed product with the matrix it stands
/// for.
pub proof fn transpose_is_product<S: ExactScalar>(s: BackendState<S>, v: Seq<S>, p: nat)
    requires
        v.len() == s.rows.len(),
        s.transpose_fits(v.len(), p),
    ensures
        s.transpose(v, p) == spec_dot_mtv(effective(s, v.len(), p), v, p),
{
    transpose_upto(s, v, p, s.deflations.len() as int);
}

/// The two products of a backend are adjoint: `u . (X_eff v) == (X_eff^T u) . v`.
pub proof fn products_are_adjoint<S: ExactScalar>(s: BackendState<S>, u: Seq<S>, v: Seq<S>)
    requires
        u.len() == s.rows.len(),
        rows_wf(s.rows, v.len()),
        s.forward_fits(v.len(), u.len()),
    ensures
        spec_dot(u, s.forward(v, u.len())) == spec_dot(s.transpose(u, v.len()), v),
{
    forward_is_product(s, v, u.len());
    transpose_is_product(s, u, v.len());
    effective_shape(s, u.len(), v.len(), s.deflations.len() as int);
    adjoint(effective(s, u.len(), v.len()), u, v, v.len());
}

/// The weight vector of a backend is that of partial least squares on the matrix it stands
/// for.
pub proof fn backend_weight<S: ExactScalar>(s: BackendState<S>, u: Seq<S>, p: nat)
    requires
        u.len() == s.rows.len(),
        s.transpose_fits(u.len(), p),
    ensures
        normalized(s.transpose(u, p)) == x_weight(effective(s, u.len(), p), u, p),
{
    transpose_is_product(s, u, p);
}

/// A further deflation pair deflates the matrix that a backend stands for.
pub proof fn push_deflates<S: Scalar>(s: BackendState<S>, t: Seq<S>, l: Seq<S>, n: nat, p: nat)
    ensures
        effective(
            (BackendState { deflations: s.deflations.push((t, l)), ..s }),
            n,
            p,
        ) == deflated(effective(s, n, p), t, l),
{
    let base = means_subtracted(dense(s.rows, n, p), s.mean);
    let pushed = s.deflations.push((t, l));
    deflated_prefix(base, s.deflations, pushed, s.deflations.len() as int);
}

proof fn deflated_prefix<S: Scalar>(
    m: Seq<Seq<S>>,
    a: Seq<(Seq<S>, Seq<S>)>,
    b: Seq<(Seq<S>, Seq<S>)>,
    k: int,
)
    requires
        forall|i: int| 0 <= i < k ==> a[i] == b[i],
    ensures
        all_deflated(m, a, k) == all_deflated(m, b, k),
    decreases k,
{
    if k > 0 {
        deflated_prefix(m, a, b, k - 1);
    }
}

/// Truncation takes back the pairs that were added since there were `keep`.
pub proof fn truncate_undoes_push<S: Scalar>(
    deflations: Seq<(Seq<S>, Seq<S>)>,
    added: Seq<(Seq<S>, Seq<S>)>,
)
    ensures
        truncated(deflations + added, deflations.len() as int) == deflations,
{
    assert(truncated(deflations + added, deflations.len() as int) =~= deflations);
}

} // verus!
