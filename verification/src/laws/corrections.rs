//! How the products of a backend come about, operation by operation.
//!
//! These laws hold for every number type, so they bind a backend whose arithmetic rounds,
//! too.  They build a product up: from the sparse matrix alone, by the means, and by one
//! deflation pair after the other.
use crate::backend::{
    forward_centered, forward_deflated, lemma_transpose_len, sparse_column_dot, sparse_dot,
    sparse_dot_prefix, spec_spmv_forward, spec_spmv_transpose, transpose_centered,
    transpose_deflated, truncated, BackendState,
};
use crate::scalar::Scalar;
use crate::sparse::{lemma_stored, row_wf, stored, Entry};
use crate::vector::{spec_dot, spec_total};
use vstd::prelude::*;

verus! {

proof fn sparse_dot_ext<S: Scalar>(a: Seq<Entry<S>>, b: Seq<Entry<S>>, v: Seq<S>, k: int)
    requires
        forall|i: int| 0 <= i < k ==> a[i] == b[i],
    ensures
        sparse_dot_prefix(a, v, k) == sparse_dot_prefix(b, v, k),
    decreases k,
{
    if k > 0 {
        sparse_dot_ext(a, b, v, k - 1);
    }
}

/// The product of a row that stores nothing is zero, and an appended entry adds its value
/// times the element of the vector in its column.
pub proof fn sparse_dot_grows<S: Scalar>(row: Seq<Entry<S>>, e: Entry<S>, v: Seq<S>)
    ensures
        sparse_dot(Seq::<Entry<S>>::empty(), v) == S::spec_zero(),
        sparse_dot(row.push(e), v) == sparse_dot(row, v).spec_add(
            e.1.spec_mul(v[e.0 as int]),
        ),
{
    sparse_dot_ext(row.push(e), row, v, row.len() as int);
}

/// Without means and deflation pairs, every element of a forward product is the product of
/// a sparse row and the vector.
pub proof fn plain_forward_product<S: Scalar>(
    rows: Seq<Seq<Entry<S>>>,
    v: Seq<S>,
    n: nat,
    i: int,
)
    requires
        0 <= i < n,
    ensures
        ({
            let s = BackendState { rows, mean: None, deflations: Seq::empty() };
            &&& s.forward(v, n).len() == n
            &&& s.forward(v, n)[i] == sparse_dot(rows[i], v)
        }),
{
}

/// Means take their inner product with the vector off every element of a forward product.
pub proof fn means_shift_forward_product<S: Scalar>(
    rows: Seq<Seq<Entry<S>>>,
    mu: Seq<S>,
    v: Seq<S>,
    n: nat,
    i: int,
)
    requires
        0 <= i < n,
    ensures
        ({
            let s = BackendState { rows, mean: None, deflations: Seq::empty() };
            let t = BackendState { rows, mean: Some(mu), deflations: Seq::empty() };
            &&& t.forward(v, n).len() == n
            &&& t.forward(v, n)[i] == s.forward(v, n)[i].spec_sub(spec_dot(mu, v))
        }),
{
}

proof fn forward_deflated_ext<S: Scalar>(
    a: Seq<(Seq<S>, Seq<S>)>,
    b: Seq<(Seq<S>, Seq<S>)>,
    r: Seq<S>,
    v: Seq<S>,
    k: int,
)
    requires
        forall|i: int| 0 <= i < k ==> a[i] == b[i],
    ensures
        forward_deflated(a, r, v, k) == forward_deflated(b, r, v, k),
        forward_deflated(a, r, v, k).len() == r.len(),
    decreases k,
{
    if k > 0 {
        forward_deflated_ext(a, b, r, v, k - 1);
    }
}

/// A further deflation pair `(t, l)` adds `-(l . v)` times `t` to a forward product: element
/// `i` becomes what it was plus `(-(l . v)) t[i]`, by exactly these operations.
pub proof fn pair_corrects_forward_product<S: Scalar>(
    s: BackendState<S>,
    t: Seq<S>,
    l: Seq<S>,
    v: Seq<S>,
    n: nat,
    i: int,
)
    requires
        0 <= i < n,
    ensures
        ({
            let after = BackendState { deflations: s.deflations.push((t, l)), ..s };
            &&& s.forward(v, n).len() == n
            &&& after.forward(v, n).len() == n
            &&& after.forward(v, n)[i] == s.forward(v, n)[i].spec_add(
                spec_dot(l, v).spec_neg().spec_mul(t[i]),
            )
        }),
{
    let pushed = s.deflations.push((t, l));
    let r = forward_centered(s.mean, spec_spmv_forward(s.rows, v, n), v);
    forward_deflated_ext(pushed, s.deflations, r, v, s.deflations.len() as int);
}

/// Without rows, means and deflation pairs, a transposed product is zero.
pub proof fn empty_transposed_product<S: Scalar>(v: Seq<S>, p: nat, j: int)
    requires
        0 <= j < p,
    ensures
        ({
            let s = BackendState::<S> {
                rows: Seq::empty(),
                mean: None,
                deflations: Seq::empty(),
            };
            &&& s.transpose(v, p).len() == p
            &&& s.transpose(v, p)[j] == S::spec_zero()
        }),
{
}

proof fn sparse_column_dot_ext<S: Scalar>(
    a: Seq<Seq<Entry<S>>>,
    b: Seq<Seq<Entry<S>>>,
    j: int,
    v: Seq<S>,
    k: int,
)
    requires
        forall|i: int| 0 <= i < k ==> a[i] == b[i],
    ensures
        sparse_column_dot(a, j, v, k) == sparse_column_dot(b, j, v, k),
    decreases k,
{
    if k > 0 {
        sparse_column_dot_ext(a, b, j, v, k - 1);
    }
}

/// A further row adds, in every column where it stores a value, that value times the
/// element of the vector that belongs to the row.
pub proof fn row_adds_to_transposed_product<S: Scalar>(
    rows: Seq<Seq<Entry<S>>>,
    row: Seq<Entry<S>>,
    v: Seq<S>,
    p: nat,
)
    requires
        row_wf(row, p),
    ensures
        ({
            let s = BackendState { rows, mean: None, deflations: Seq::empty() };
            let after = BackendState {
                rows: rows.push(row),
                mean: None,
                deflations: Seq::empty(),
            };
            let (a, b) = (s.transpose(v, p), after.transpose(v, p));
            &&& a.len() == p
            &&& b.len() == p
            &&& forall|k: int|
                0 <= k < row.len() ==> b[(#[trigger] row[k]).0 as int]
                    == a[row[k].0 as int].spec_add(row[k].1.spec_mul(v[rows.len() as int]))
            &&& forall|j: int|
                0 <= j < p && (forall|k: int| 0 <= k < row.len() ==> (#[trigger] row[k]).0 != j)
                    ==> #[trigger] b[j] == a[j]
        }),
{
    let pushed = rows.push(row);
    let n = rows.len() as int;
    let (a, b) = (spec_spmv_transpose(rows, v, p), spec_spmv_transpose(pushed, v, p));
    assert forall|k: int| 0 <= k < row.len() implies b[(#[trigger] row[k]).0 as int]
        == a[row[k].0 as int].spec_add(row[k].1.spec_mul(v[n])) by {
        lemma_stored(row, p, k);
        sparse_column_dot_ext(pushed, rows, row[k].0 as int, v, n);
    }
    assert forall|j: int|
        0 <= j < p && (forall|k: int| 0 <= k < row.len() ==> (#[trigger] row[k]).0
            != j) implies #[trigger] b[j] == a[j] by {
        sparse_column_dot_ext(pushed, rows, j, v, n);
        assert(stored(row, j) is None);
    }
}

/// Means take the sum of the vector times themselves off a transposed product: element `j`
/// becomes what it was plus `(-sum(v)) mu[j]`, by exactly these operations.
pub proof fn means_correct_transposed_product<S: Scalar>(
    rows: Seq<Seq<Entry<S>>>,
    mu: Seq<S>,
    v: Seq<S>,
    p: nat,
    j: int,
)
    requires
        0 <= j < p,
    ensures
        ({
            let s = BackendState { rows, mean: None, deflations: Seq::empty() };
            let t = BackendState { rows, mean: Some(mu), deflations: Seq::empty() };
            &&& t.transpose(v, p).len() == p
            &&& t.transpose(v, p)[j] == s.transpose(v, p)[j].spec_add(
                spec_total(v).spec_neg().spec_mul(mu[j]),
            )
        }),
{
}

proof fn transpose_deflated_ext<S: Scalar>(
    a: Seq<(Seq<S>, Seq<S>)>,
    b: Seq<(Seq<S>, Seq<S>)>,
    r: Seq<S>,
    v: Seq<S>,
    k: int,
)
    requires
        forall|i: int| 0 <= i < k ==> a[i] == b[i],
    ensures
        transpose_deflated(a, r, v, k) == transpose_deflated(b, r, v, k),
    decreases k,
{
    if k > 0 {
        transpose_deflated_ext(a, b, r, v, k - 1);
    }
}

/// A further deflation pair `(t, l)` adds `-(t . v)` times `l` to a transposed product:
/// element `j` becomes what it was plus `(-(t . v)) l[j]`, by exactly these operations.
pub proof fn pair_corrects_transposed_product<S: Scalar>(
    s: BackendState<S>,
    t: Seq<S>,
    l: Seq<S>,
    v: Seq<S>,
    p: nat,
    j: int,
)
    requires
        0 <= j < p,
    ensures
        ({
            let after = BackendState { deflations: s.deflations.push((t, l)), ..s };
            &&& s.transpose(v, p).len() == p
            &&& after.transpose(v, p).len() == p
            &&& after.transpose(v, p)[j] == s.transpose(v, p)[j].spec_add(
                spec_dot(t, v).spec_neg().spec_mul(l[j]),
            )
        }),
{
    let pushed = s.deflations.push((t, l));
    let r = transpose_centered(s.mean, spec_spmv_transpose(s.rows, v, p), v);
    let k = s.deflations.len() as int;
    transpose_deflated_ext(pushed, s.deflations, r, v, k);
    lemma_transpose_len(s.deflations, r, v, k);
    lemma_transpose_len(pushed, r, v, k + 1);
}

/// Truncation keeps the pairs before `keep` as they are, and nothing else.
pub proof fn truncation_keeps_the_first<T>(s: Seq<T>, keep: int)
    requires
        0 <= keep,
    ensures
        truncated(s, keep).len() <= keep,
        keep <= s.len() ==> truncated(s, keep).len() == keep,
        s.len() <= keep ==> truncated(s, keep) == s,
        forall|k: int| 0 <= k < keep && k < s.len() ==> #[trigger] truncated(s, keep)[k] == s[k],
{
}

} // verus!
