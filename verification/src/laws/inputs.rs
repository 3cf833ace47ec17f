//! Which inputs are accepted.
use crate::backend::select::initial_state;
use crate::backend::BackendState;
use crate::matrix::Matrix;
use crate::model::{fit_inputs, OplsModel};
use crate::preprocess::fits;
use crate::scalar::Scalar;
use crate::sparse::{
    columns_below, in_row, lemma_rows_wf, offsets_wf, row_wf, storage_wf, CsrMatrix, Entry,
};
use vstd::prelude::*;

verus! {

/// The offsets start at zero, end at the number of entries, and no offset lies below the
/// one before.
pub open spec fn offsets_ascend(indptr: Seq<usize>, nnz: nat) -> bool {
    &&& indptr.len() > 0
    &&& indptr[0] == 0
    &&& indptr[indptr.len() - 1] == nnz
    &&& forall|i: int| 0 <= i < indptr.len() - 1 ==> #[trigger] indptr[i] <= indptr[i + 1]
}

/// Within every row, each column lies below `cols` and below the next.
pub open spec fn columns_ascend(indptr: Seq<usize>, indices: Seq<usize>, cols: nat) -> bool {
    forall|r: int, k: int|
        0 <= r < indptr.len() - 1 && indptr[r] <= k < indptr[r + 1] ==> {
            &&& (#[trigger] indices[k]) < cols
            &&& k + 1 < #[trigger] indptr[r + 1] ==> indices[k] < indices[k + 1]
        }
}

proof fn offsets_order(indptr: Seq<usize>, i: int, j: int)
    requires
        forall|k: int| 0 <= k < indptr.len() - 1 ==> #[trigger] indptr[k] <= indptr[k + 1],
        0 <= i <= j < indptr.len(),
    ensures
        indptr[i] <= indptr[j],
    decreases j - i,
{
    if i < j {
        offsets_order(indptr, i, j - 1);
        assert(indptr[j - 1] <= indptr[j - 1 + 1]);
    }
}

/// Every offset below that of the last row belongs to a row.
proof fn offset_has_row(indptr: Seq<usize>, k: int, n: int) -> (r: int)
    requires
        0 < n < indptr.len(),
        indptr[0] <= k < indptr[n],
    ensures
        0 <= r < n,
        indptr[r] <= k < indptr[r + 1],
    decreases n,
{
    if indptr[n - 1] <= k {
        n - 1
    } else {
        offset_has_row(indptr, k, n - 1)
    }
}

proof fn columns_order(indptr: Seq<usize>, indices: Seq<usize>, cols: nat, r: int, k: int, l: int)
    requires
        columns_ascend(indptr, indices, cols),
        0 <= r < indptr.len() - 1,
        indptr[r] <= k < l < indptr[r + 1],
    ensures
        indices[k] < indices[l],
    decreases l - k,
{
    assert(indices[k] < indices[k + 1]);
    if k + 1 < l {
        columns_order(indptr, indices, cols, r, k + 1, l);
    }
}

/// Storage is accepted where columns and values are equally many, the offsets ascend, and the
/// columns of every row ascend below the number of columns; and nowhere else.
pub proof fn ascending_storage_is_accepted<S>(
    cols: nat,
    indptr: Seq<usize>,
    indices: Seq<usize>,
    data: Seq<S>,
)
    ensures
        storage_wf(cols, indptr, indices, data) <==> indices.len() == data.len() && offsets_ascend(
            indptr,
            indices.len(),
        ) && columns_ascend(indptr, indices, cols),
{
    let n = indptr.len() - 1;
    if indices.len() == data.len() && offsets_ascend(indptr, indices.len()) && columns_ascend(
        indptr,
        indices,
        cols,
    ) {
        assert forall|i: int, j: int| 0 <= i <= j < indptr.len() implies indptr[i]
            <= indptr[j] by {
            offsets_order(indptr, i, j);
        }
        assert(offsets_wf(indptr, indices.len()));
        assert forall|k: int| 0 <= k < indices.len() implies (#[trigger] indices[k]) < cols by {
            let r = offset_has_row(indptr, k, n);
            assert(indptr[r] <= k < indptr[r + 1]);
        }
        assert forall|r: int, k: int, l: int|
            0 <= r < indptr.len() - 1 && k < l && #[trigger] in_row(indptr, r, k)
                && #[trigger] in_row(indptr, r, l) implies indices[k] < indices[l] by {
            columns_order(indptr, indices, cols, r, k, l);
        }
    }
    if storage_wf(cols, indptr, indices, data) {
        assert forall|r: int, k: int|
            0 <= r < indptr.len() - 1 && indptr[r] <= k < indptr[r + 1] implies {
            &&& (#[trigger] indices[k]) < cols
            &&& k + 1 < #[trigger] indptr[r + 1] ==> indices[k] < indices[k + 1]
        } by {
            assert(indptr[r + 1] <= indptr[n]);
            if k + 1 < indptr[r + 1] {
                assert(in_row(indptr, r, k) && in_row(indptr, r, k + 1));
            }
        }
    }
}

/// Row `r` of a sparse matrix holds, in order, the columns and values from its offset up to
/// the next.
pub proof fn rows_lie_in_storage<S>(x: &CsrMatrix<S>, r: int, k: int)
    requires
        x.wf(),
        0 <= r < x@.len(),
        0 <= k < x@[r].len(),
    ensures
        x.offsets().len() == x@.len() + 1,
        x@[r].len() == x.offsets()[r + 1] - x.offsets()[r],
        x@[r][k] == (x.columns()[x.offsets()[r] + k], x.values()[x.offsets()[r] + k]),
{
    assert(x.offsets()[r] <= x.offsets()[r + 1]);
}

/// Every stored entry lies in the first `n` rows and the first `p` columns.
pub open spec fn entries_within<S>(x: Seq<Seq<Entry<S>>>, n: nat, p: nat) -> bool {
    forall|r: int, k: int|
        0 <= r < x.len() && 0 <= k < x[r].len() ==> r < n && (#[trigger] x[r][k]).0 < p
}

/// A sparse matrix fits `n` rows and `p` columns where every stored entry lies in them, and
/// nowhere else.
pub proof fn entries_within_fit<S>(x: Seq<Seq<Entry<S>>>, n: nat, p: nat)
    ensures
        fits(x, n, p) <==> entries_within(x, n, p),
{
    if entries_within(x, n, p) {
        assert forall|r: int| n <= r < x.len() implies (#[trigger] x[r]).len() == 0 by {
            if x[r].len() > 0 {
                assert(x[r][0].0 < p);
            }
        }
        assert(columns_below(x, 0, x.len() as int, p));
    }
    if fits(x, n, p) {
        assert forall|r: int, k: int| 0 <= r < x.len() && 0 <= k < x[r].len() implies r < n && (
        #[trigger] x[r][k]).0 < p by {
            if r >= n {
                assert(x[r].len() == 0);
            }
        }
    }
}

/// A model can be asked for where there is a response, every stored count belongs to one,
/// components have a response variable, and twice their number can be counted.
pub proof fn counts_with_responses_can_be_fitted<S>(
    x: &CsrMatrix<S>,
    y: &Matrix<S>,
    n_predictive: usize,
    n_orthogonal: usize,
)
    requires
        x.wf(),
        y.wf(),
    ensures
        fit_inputs(x, y, n_predictive, n_orthogonal) <==> y@.len() > 0 && (n_predictive
            + n_orthogonal > 0 ==> y.width() > 0) && n_predictive + n_predictive <= usize::MAX && (
        forall|r: int| y@.len() <= r < x@.len() ==> (#[trigger] x@[r]).len() == 0),
{
    lemma_rows_wf(x);
    let (n, p) = (y@.len(), x.width());
    entries_within_fit(x@, n, p);
    if forall|r: int| n <= r < x@.len() ==> (#[trigger] x@[r]).len() == 0 {
        assert forall|r: int, k: int| 0 <= r < x@.len() && 0 <= k < x@[r].len() implies r < n && (
        #[trigger] x@[r][k]).0 < p by {
            assert(row_wf(x@[r], p));
            if r >= n {
                assert(x@[r].len() == 0);
            }
        }
    }
}

/// A model whose parts all fit together predicts for any number of rows; so does one without
/// orthogonal components whose means and coefficients fit together, and one whose orthogonal
/// loadings have rows and columns to spare.
pub proof fn consistent_models_predict<S>(model: &OplsModel<S>, n: nat, p: nat)
    requires
        model.weights_orth.wf(),
        model.loadings_orth.wf(),
        model.coefficients.wf(),
    ensures
        model.wf(p) ==> model.predicts(n, p),
        model.coefficients@.len() == p && model.x_mean@.len() == p && model.y_mean@.len()
            == model.coefficients.width() && (model.weights_orth.width() > 0 ==> {
            &&& model.weights_orth@.len() == p
            &&& p <= model.loadings_orth@.len()
            &&& model.weights_orth.width() <= model.loadings_orth.width()
        }) ==> model.predicts(n, p),
        model.predicts(n, p) && n > 0 ==> model.x_mean@.len() == p && model.y_mean@.len()
            == model.coefficients.width() && model.coefficients@.len() == p,
{
}

/// The means have `p` elements, where they are set, and the scores and loadings of every pair
/// `n` and `p`.
pub open spec fn parts_match<S>(s: BackendState<S>, n: nat, p: nat) -> bool {
    &&& s.mean matches Some(mu) ==> mu.len() == p
    &&& forall|k: int|
        0 <= k < s.deflations.len() ==> (#[trigger] s.deflations[k]).0.len() == n
    &&& forall|k: int|
        0 <= k < s.deflations.len() ==> (#[trigger] s.deflations[k]).1.len() == p
}

/// A backend multiplies its first `n` rows by vectors of `p` elements where it has as many
/// rows, their entries lie in the first `p` columns, and its means and pairs match; and
/// nowhere else.  Transposed, it multiplies all its rows by vectors of `n` elements or more.
pub proof fn matching_parts_multiply<S: Scalar>(s: BackendState<S>, n: nat, p: nat)
    ensures
        n <= s.rows.len() ==> (s.forward_ready(p, n) <==> entries_within(
            s.rows.take(n as int),
            n,
            p,
        ) && parts_match(s, n, p)),
        s.forward_ready(p, n) ==> n <= s.rows.len(),
        s.transpose_ready(n, p) <==> entries_within(s.rows, n, p) && s.rows.len() <= n
            && parts_match(s, n, p),
{
    if n <= s.rows.len() {
        let first = s.rows.take(n as int);
        if entries_within(first, n, p) {
            assert forall|r: int, k: int|
                0 <= r < n && 0 <= k < s.rows[r].len() implies (#[trigger] s.rows[r][k]).0 < p by {
                assert(first[r][k].0 < p);
            }
        }
        if columns_below(s.rows, 0, n as int, p) {
            assert forall|r: int, k: int|
                0 <= r < first.len() && 0 <= k < first[r].len() implies r < n && (
            #[trigger] first[r][k]).0 < p by {
                assert(s.rows[r][k].0 < p);
            }
        }
    }
}

/// A backend starts with the matrix alone: without means, without pairs.
pub proof fn backends_start_plain<S>(x: &CsrMatrix<S>)
    ensures
        initial_state(x).rows == x@,
        initial_state(x).mean is None,
        initial_state(x).deflations.len() == 0,
{
}

} // verus!
