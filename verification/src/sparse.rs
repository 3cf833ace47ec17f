//! Sparse matrices in compressed row storage.
//!
//! The model of a sparse matrix is the sequence of its rows, and that of a row the
//! sequence of its stored entries, each a column and a value, by increasing column.
use crate::scalar::Scalar;
use crate::vector::copied;
use vstd::prelude::*;

verus! {

/// A stored entry: a column and a value.
pub type Entry<S> = (usize, S);

/// The columns of a row's entries increase and lie below `cols`.
pub open spec fn row_wf<S>(row: Seq<Entry<S>>, cols: nat) -> bool {
    &&& forall|k: int| 0 <= k < row.len() ==> (#[trigger] row[k]).0 < cols
    &&& forall|k: int, l: int|
        0 <= k < l < row.len() ==> (#[trigger] row[k]).0 < (#[trigger] row[l]).0
}

/// Every row is well formed, for a matrix with `cols` columns.
pub open spec fn rows_wf<S>(rows: Seq<Seq<Entry<S>>>, cols: nat) -> bool {
    forall|r: int| 0 <= r < rows.len() ==> row_wf(#[trigger] rows[r], cols)
}

/// The value that a row stores in column `c`.
pub open spec fn stored<S>(row: Seq<Entry<S>>, c: int) -> Option<S> {
    if exists|k: int| 0 <= k < row.len() && (#[trigger] row[k]).0 == c {
        Some(row[choose|k: int| 0 <= k < row.len() && (#[trigger] row[k]).0 == c].1)
    } else {
        None
    }
}

/// A well formed row stores one value per column.
pub proof fn lemma_stored<S>(row: Seq<Entry<S>>, cols: nat, k: int)
    requires
        row_wf(row, cols),
        0 <= k < row.len(),
    ensures
        stored(row, row[k].0 as int) == Some(row[k].1),
{
    let c = row[k].0 as int;
    let l = choose|l: int| 0 <= l < row.len() && (#[trigger] row[l]).0 == c;
    assert(0 <= l < row.len() && row[l].0 == c);
    assert(l == k);
}

/// The rows from `from` up to `to` store entries in the first `p` columns only.
pub open spec fn columns_below<S>(rows: Seq<Seq<Entry<S>>>, from: int, to: int, p: nat) -> bool {
    forall|r: int, k: int|
        from <= r < to && 0 <= k < rows[r].len() ==> (#[trigger] rows[r][k]).0 < p
}

/// The values of a row's entries.
pub open spec fn row_values<S>(row: Seq<Entry<S>>) -> Seq<S> {
    Seq::new(row.len(), |k: int| row[k].1)
}

/// Row `r` of the matrix with the given storage.
pub open spec fn storage_row<S>(
    indptr: Seq<usize>,
    indices: Seq<usize>,
    data: Seq<S>,
    r: int,
) -> Seq<Entry<S>> {
    Seq::new(
        (indptr[r + 1] - indptr[r]) as nat,
        |k: int| (indices[indptr[r] + k], data[indptr[r] + k]),
    )
}

/// The offsets start at zero, never decrease, and end at the number of entries.
pub open spec fn offsets_wf(indptr: Seq<usize>, nnz: nat) -> bool {
    &&& indptr.len() > 0
    &&& indptr[0] == 0
    &&& indptr[indptr.len() - 1] == nnz
    &&& forall|i: int, j: int| 0 <= i <= j < indptr.len() ==> indptr[i] <= indptr[j]
}

/// Offset `k` belongs to row `r`.
pub open spec fn in_row(indptr: Seq<usize>, r: int, k: int) -> bool {
    indptr[r] <= k < indptr[r + 1]
}

/// In every row the columns increase and lie below `cols`.
pub open spec fn columns_wf(indptr: Seq<usize>, indices: Seq<usize>, cols: nat) -> bool {
    &&& forall|k: int| 0 <= k < indices.len() ==> (#[trigger] indices[k]) < cols
    &&& forall|r: int, k: int, l: int|
        0 <= r < indptr.len() - 1 && k < l && #[trigger] in_row(indptr, r, k)
            && #[trigger] in_row(indptr, r, l) ==> indices[k] < indices[l]
}

/// The arrays are the compressed row storage of a matrix with `cols` columns.
pub open spec fn storage_wf<S>(
    cols: nat,
    indptr: Seq<usize>,
    indices: Seq<usize>,
    data: Seq<S>,
) -> bool {
    &&& indices.len() == data.len()
    &&& offsets_wf(indptr, indices.len())
    &&& columns_wf(indptr, indices, cols)
}

/// A sparse matrix in compressed row storage: row `r` holds the entries from offset
/// `indptr[r]` up to offset `indptr[r + 1]` of `indices` and `data`.
pub struct CsrMatrix<S> {
    cols: usize,
    indptr: Vec<usize>,
    indices: Vec<usize>,
    data: Vec<S>,
}

impl<S> View for CsrMatrix<S> {
    type V = Seq<Seq<Entry<S>>>;

    open spec fn view(&self) -> Seq<Seq<Entry<S>>> {
        Seq::new(
            (self.offsets().len() - 1) as nat,
            |r: int| storage_row(self.offsets(), self.columns(), self.values(), r),
        )
    }
}

impl<S> CsrMatrix<S> {
    pub closed spec fn offsets(&self) -> Seq<usize> {
        self.indptr@
    }

    pub closed spec fn columns(&self) -> Seq<usize> {
        self.indices@
    }

    pub closed spec fn values(&self) -> Seq<S> {
        self.data@
    }

    /// The number of columns.
    pub closed spec fn width(&self) -> nat {
        self.cols as nat
    }

    pub open spec fn wf(&self) -> bool {
        storage_wf(self.width(), self.offsets(), self.columns(), self.values())
    }
}

/// A well formed matrix has well formed rows.
pub proof fn lemma_rows_wf<S>(x: &CsrMatrix<S>)
    requires
        x.wf(),
    ensures
        rows_wf(x@, x.width()),
{
    let (p, q, d) = (x.offsets(), x.columns(), x.values());
    assert forall|r: int| 0 <= r < x@.len() implies row_wf(#[trigger] x@[r], x.width()) by {
        let row = x@[r];
        assert(p[r] <= p[r + 1] <= p[p.len() - 1]);
        assert forall|k: int| 0 <= k < row.len() implies (#[trigger] row[k]).0 < x.width() by {
            assert(row[k].0 == q[p[r] + k]);
        }
        assert forall|k: int, l: int| 0 <= k < l < row.len() implies (#[trigger] row[k]).0 < (
        #[trigger] row[l]).0 by {
            assert(in_row(p, r, p[r] + k) && in_row(p, r, p[r] + l));
            assert(q[p[r] + k] < q[p[r] + l]);
        }
    }
}

/// Do the offsets start at zero, never decrease, and end at `nnz`?
fn check_offsets(indptr: &Vec<usize>, nnz: usize) -> (r: bool)
    ensures
        r == offsets_wf(indptr@, nnz as nat),
{
    let n: usize = indptr.len();
    if n == 0 || indptr[0] != 0 || indptr[n - 1] != nnz {
        return false;
    }
    let mut i: usize = 1;
    while i < n
        invariant
            1 <= i <= n,
            n == indptr@.len(),
            forall|a: int, b: int| 0 <= a <= b < i ==> indptr@[a] <= indptr@[b],
        decreases n - i,
    {
        if indptr[i] < indptr[i - 1] {
            return false;
        }
        i += 1;
    }
    true
}

/// In every row, do the columns increase and lie below `cols`?
fn check_columns(indptr: &Vec<usize>, indices: &Vec<usize>, cols: usize) -> (r: bool)
    requires
        offsets_wf(indptr@, indices@.len()),
    ensures
        r == columns_wf(indptr@, indices@, cols as nat),
{
    let mut k: usize = 0;
    while k < indices.len()
        invariant
            k <= indices.len(),
            forall|i: int| 0 <= i < k ==> (#[trigger] indices@[i]) < cols,
        decreases indices.len() - k,
    {
        if indices[k] >= cols {
            return false;
        }
        k += 1;
    }
    let n: usize = indptr.len();
    let mut r: usize = 0;
    while r < n - 1
        invariant
            r <= n - 1,
            n == indptr@.len(),
            offsets_wf(indptr@, indices@.len()),
            forall|i: int| 0 <= i < indices.len() ==> (#[trigger] indices@[i]) < cols,
            forall|q: int, a: int, b: int|
                0 <= q < r && a < b && #[trigger] in_row(indptr@, q, a) && #[trigger] in_row(
                    indptr@,
                    q,
                    b,
                ) ==> indices@[a] < indices@[b],
        decreases n - r,
    {
        let start: usize = indptr[r];
        let end: usize = indptr[r + 1];
        assert(start <= end <= indptr@[n - 1]);
        let mut i: usize = start;
        while i < end
            invariant
                start <= i <= end,
                start == indptr@[r as int],
                end == indptr@[r + 1],
                0 <= r < n - 1,
                n == indptr@.len(),
                end <= indices@.len(),
                forall|a: int, b: int| start <= a < b < i ==> indices@[a] < indices@[b],
            decreases end - i,
        {
            if i > start && indices[i] <= indices[i - 1] {
                assert(in_row(indptr@, r as int, i - 1) && in_row(indptr@, r as int, i as int));
                assert(!(indices@[i - 1] < indices@[i as int]));
                return false;
            }
            i += 1;
        }
        r += 1;
    }
    true
}

impl<S: Scalar> CsrMatrix<S> {
    /// The matrix with `cols` columns and the given storage, where that is well formed.
    pub fn new(cols: usize, indptr: Vec<usize>, indices: Vec<usize>, data: Vec<S>) -> (r: Option<
        Self,
    >)
        ensures
            r is Some <==> storage_wf(cols as nat, indptr@, indices@, data@),
            r matches Some(x) ==> x.wf() && x.width() == cols && x.offsets() == indptr@
                && x.columns() == indices@ && x.values() == data@,
    {
        if indices.len() == data.len() && check_offsets(&indptr, indices.len()) && check_columns(
            &indptr,
            &indices,
            cols,
        ) {
            Some(CsrMatrix { cols, indptr, indices, data })
        } else {
            None
        }
    }

    /// The number of rows.
    pub fn rows(&self) -> (r: usize)
        requires
            self.wf(),
        ensures
            r == self@.len(),
    {
        self.indptr.len() - 1
    }

    /// The number of columns.
    pub fn cols(&self) -> (r: usize)
        ensures
            r == self.width(),
    {
        self.cols
    }

    /// The number of stored entries.
    pub fn nnz(&self) -> (r: usize)
        ensures
            r == self.values().len(),
    {
        self.data.len()
    }

    /// The offsets at which the rows start and end.
    pub fn indptr(&self) -> (r: &Vec<usize>)
        ensures
            r@ == self.offsets(),
    {
        &self.indptr
    }

    /// The columns of the stored entries.
    pub fn indices(&self) -> (r: &Vec<usize>)
        ensures
            r@ == self.columns(),
    {
        &self.indices
    }

    /// The values of the stored entries.
    pub fn data(&self) -> (r: &Vec<S>)
        ensures
            r@ == self.values(),
    {
        &self.data
    }

    /// A copy.
    pub fn copy(&self) -> (r: Self)
        ensures
            r.width() == self.width(),
            r.offsets() == self.offsets(),
            r.columns() == self.columns(),
            r.values() == self.values(),
            r@ == self@,
    {
        CsrMatrix {
            cols: self.cols,
            indptr: self.indptr.clone(),
            indices: self.indices.clone(),
            data: copied(&self.data),
        }
    }
}

impl<S: Scalar> CsrMatrix<S> {
    /// Do the rows from `from` up to `to` store entries in the first `p` columns only?
    pub fn has_columns_below(&self, from: usize, to: usize, p: usize) -> (r: bool)
        requires
            self.wf(),
            from <= to <= self@.len(),
        ensures
            r == columns_below(self@, from as int, to as int, p as nat),
    {
        let mut row: usize = from;
        while row < to
            invariant
                from <= row <= to,
                to <= self@.len(),
                self.wf(),
                columns_below(self@, from as int, row as int, p as nat),
            decreases to - row,
        {
            let start: usize = self.indptr[row];
            let end: usize = self.indptr[row + 1];
            let ghost entries = self@[row as int];
            assert(self.offsets()[row as int] <= self.offsets()[row + 1]
                <= self.offsets()[self.offsets().len() - 1]);
            let mut k: usize = start;
            while k < end
                invariant
                    start <= k <= end,
                    end <= self.indices@.len(),
                    start == self.offsets()[row as int],
                    end == self.offsets()[row + 1],
                    from <= row < to,
                    to <= self@.len(),
                    entries == self@[row as int],
                    entries.len() == end - start,
                    forall|i: int| 0 <= i < k - start ==> (#[trigger] entries[i]).0 < p,
                decreases end - k,
            {
                assert(self@[row as int][k - start].0 == self.indices@[k as int]);
                if self.indices[k] >= p {
                    return false;
                }
                k += 1;
            }
            row += 1;
        }
        true
    }
}

} // verus!
