//! What the operations on vectors and matrices do to single elements.
//!
//! These laws hold for every number type, so they say which elementary operations are
//! applied to which operands, also where arithmetic rounds.
use crate::laws::algebra::dot_ext;
use crate::matrix::{
    deflated, row_times, rows_minus, rows_plus, spec_column, spec_dot_mtv, spec_dot_mv,
    spec_product, spec_zero_matrix, transposed, vectors,
};
use crate::model::centered;
use crate::preprocess::column_means;
use crate::scalar::{spec_reciprocal, Scalar};
use crate::vector::{
    difference, divided, minus_multiple, minus_scaled, normalized, plus_scaled, shifted_down,
    spec_dot, spec_norm, spec_sum, spec_total, spec_zeros, total_prefix,
};
use vstd::prelude::*;

verus! {

/// The sum reads only the elements.
pub proof fn total_ext<S: Scalar>(a: Seq<S>, b: Seq<S>, k: int)
    requires
        forall|i: int| 0 <= i < k ==> a[i] == b[i],
    ensures
        total_prefix(a, k) == total_prefix(b, k),
    decreases k,
{
    if k > 0 {
        total_ext(a, b, k - 1);
    }
}

/// The sum of nothing is zero, and an appended element is added to the sum of the others.
pub proof fn total_grows<S: Scalar>(v: Seq<S>, e: S)
    ensures
        spec_total(Seq::<S>::empty()) == S::spec_zero(),
        spec_total(v.push(e)) == spec_total(v).spec_add(e),
{
    total_ext(v.push(e), v, v.len() as int);
}

/// The inner product of empty vectors is zero, and a pair of appended elements adds its
/// product to the inner product of the others.
pub proof fn dot_grows<S: Scalar>(a: Seq<S>, b: Seq<S>, d: S, e: S)
    requires
        a.len() == b.len(),
    ensures
        spec_dot(Seq::<S>::empty(), Seq::<S>::empty()) == S::spec_zero(),
        spec_dot(a.push(d), b.push(e)) == spec_dot(a, b).spec_add(d.spec_mul(e)),
{
    dot_ext(a.push(d), b.push(e), a, b, a.len() as int);
}

/// The norm is the root of the inner product with itself.  Normalization divides every
/// element by a positive norm, and keeps a vector whose norm is not positive.
pub proof fn normalization_divides<S: Scalar>(v: Seq<S>)
    ensures
        spec_norm(v) == spec_dot(v, v).spec_sqrt(),
        normalized(v).len() == v.len(),
        spec_norm(v).spec_exceeds(S::spec_zero()) ==> forall|i: int|
            0 <= i < v.len() ==> #[trigger] normalized(v)[i] == v[i].spec_div(
                spec_dot(v, v).spec_sqrt(),
            ),
        !spec_norm(v).spec_exceeds(S::spec_zero()) ==> normalized(v) == v,
{
}

/// Vectors are combined element by element, each time by one or two operations.
pub proof fn vectors_combine_elementwise<S: Scalar>(a: Seq<S>, b: Seq<S>, s: S, i: int)
    requires
        0 <= i < a.len(),
    ensures
        divided(a, s)[i] == a[i].spec_div(s),
        shifted_down(a, s)[i] == a[i].spec_sub(s),
        difference(a, b)[i] == a[i].spec_sub(b[i]),
        spec_sum(a, b)[i] == a[i].spec_add(b[i]),
        minus_multiple(a, b, s)[i] == a[i].spec_sub(b[i].spec_mul(s)),
        minus_scaled(a, s, b)[i] == a[i].spec_sub(s.spec_mul(b[i])),
        plus_scaled(a, s, b)[i] == a[i].spec_add(s.spec_mul(b[i])),
        spec_zeros::<S>(a.len())[i] == S::spec_zero(),
{
}

/// Combinations of vectors have the length of the first operand.
pub proof fn combinations_keep_length<S: Scalar>(a: Seq<S>, b: Seq<S>, s: S)
    ensures
        divided(a, s).len() == a.len(),
        shifted_down(a, s).len() == a.len(),
        difference(a, b).len() == a.len(),
        spec_sum(a, b).len() == a.len(),
        minus_multiple(a, b, s).len() == a.len(),
        minus_scaled(a, s, b).len() == a.len(),
        plus_scaled(a, s, b).len() == a.len(),
        spec_zeros::<S>(a.len()).len() == a.len(),
{
}

/// Element `i` of column `j`, and row `j` of the transpose, hold the element in row `i` and
/// column `j`.
pub proof fn transposition_exchanges<S>(m: Seq<Seq<S>>, cols: nat, i: int, j: int)
    requires
        0 <= i < m.len(),
        0 <= j < cols,
    ensures
        spec_column(m, j).len() == m.len(),
        spec_column(m, j)[i] == m[i][j],
        transposed(m, cols).len() == cols,
        transposed(m, cols)[j].len() == m.len(),
        transposed(m, cols)[j][i] == m[i][j],
{
}

/// The models of several vectors are the models of each.
pub proof fn vectors_are_modelled_one_by_one<S>(v: Seq<Vec<S>>, i: int)
    requires
        0 <= i < v.len(),
    ensures
        vectors(v).len() == v.len(),
        vectors(v)[i] == v[i]@,
{
}

/// A reciprocal is one over the number.
pub proof fn reciprocal_divides_one<S: Scalar>(n: u64)
    ensures
        spec_reciprocal::<S>(n) == S::spec_one().spec_div(S::spec_from_u64(n)),
{
}

/// Rows are shifted and matrices deflated element by element: the element in row `i` and
/// column `j` loses or gains element `j` of the shift, or loses the product of element `i`
/// of the score and element `j` of the loading.
pub proof fn matrices_change_elementwise<S: Scalar>(
    m: Seq<Seq<S>>,
    v: Seq<S>,
    t: Seq<S>,
    i: int,
    j: int,
)
    requires
        0 <= i < m.len(),
        0 <= j < m[i].len(),
    ensures
        rows_minus(m, v).len() == m.len(),
        rows_minus(m, v)[i].len() == m[i].len(),
        rows_minus(m, v)[i][j] == m[i][j].spec_sub(v[j]),
        rows_plus(m, v).len() == m.len(),
        rows_plus(m, v)[i].len() == m[i].len(),
        rows_plus(m, v)[i][j] == m[i][j].spec_add(v[j]),
        deflated(m, t, v).len() == m.len(),
        deflated(m, t, v)[i].len() == m[i].len(),
        deflated(m, t, v)[i][j] == m[i][j].spec_sub(t[i].spec_mul(v[j])),
        spec_zero_matrix::<S>(m.len(), m[i].len())[i][j] == S::spec_zero(),
{
}

/// Products hold inner products: of a row and the vector, of a column and the vector, of a
/// row and a column.
pub proof fn products_hold_inner_products<S: Scalar>(
    a: Seq<Seq<S>>,
    b: Seq<Seq<S>>,
    v: Seq<S>,
    cols: nat,
    i: int,
    j: int,
)
    requires
        0 <= i < a.len(),
        0 <= j < cols,
    ensures
        spec_dot_mv(a, v).len() == a.len(),
        spec_dot_mv(a, v)[i] == spec_dot(a[i], v),
        spec_dot_mtv(b, v, cols).len() == cols,
        spec_dot_mtv(b, v, cols)[j] == spec_dot(spec_column(b, j), v),
        row_times(v, b, cols).len() == cols,
        row_times(v, b, cols)[j] == spec_dot(v, spec_column(b, j)),
        spec_product(a, b, cols).len() == a.len(),
        spec_product(a, b, cols)[i].len() == cols,
        spec_product(a, b, cols)[i][j] == spec_dot(a[i], spec_column(b, j)),
{
}

/// The mean of a column is its sum over the number of rows, and centering subtracts it from
/// every element of the column.
pub proof fn centering_subtracts_means<S: Scalar>(m: Seq<Seq<S>>, cols: nat, i: int, j: int)
    requires
        0 <= i < m.len() <= u64::MAX,
        0 <= j < cols,
        m[i].len() == cols,
    ensures
        column_means(m, cols).len() == cols,
        column_means(m, cols)[j] == spec_total(spec_column(m, j)).spec_div(
            S::spec_from_u64(m.len() as u64),
        ),
        centered(m, cols).len() == m.len(),
        centered(m, cols)[i].len() == cols,
        centered(m, cols)[i][j] == m[i][j].spec_sub(
            spec_total(spec_column(m, j)).spec_div(S::spec_from_u64(m.len() as u64)),
        ),
{
}

} // verus!
