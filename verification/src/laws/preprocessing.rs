//! What preprocessing does to the data.
use crate::laws::algebra::{
    div_is_mul, mul_cancel, mul_zero, neg_mul, sub_mul, total_linear, zero_add,
};
use crate::laws::elements::total_ext;
use crate::matrix::{has_width, spec_column};
use crate::model::centered;
use crate::preprocess::{column_means, preprocessed, preprocessed_row, row_total};
use crate::scalar::{ExactScalar, Scalar};
use crate::sparse::{lemma_stored, row_values, row_wf, stored, Entry};
use crate::vector::{divided, spec_total, spec_zeros, total_prefix};
use vstd::prelude::*;

verus! {

/// The sum of zeros.
proof fn total_of_zeros<S: ExactScalar>(v: Seq<S>, k: int)
    requires
        forall|i: int| 0 <= i < k ==> #[trigger] v[i] == S::spec_zero(),
    ensures
        total_prefix(v, k) == S::spec_zero(),
    decreases k,
{
    if k > 0 {
        total_of_zeros(v, k - 1);
        assert(v[k - 1] == S::spec_zero());
        S::add_zero(S::spec_zero());
    }
}

/// The sum of `k` ones.
pub proof fn total_of_ones<S: ExactScalar>(v: Seq<S>, k: int)
    requires
        0 <= k <= u64::MAX,
        forall|i: int| 0 <= i < k ==> #[trigger] v[i] == S::spec_one(),
    ensures
        total_prefix(v, k) == S::spec_from_u64(k as u64),
    decreases k,
{
    if k == 0 {
        S::from_zero();
    } else {
        total_of_ones(v, k - 1);
        assert(v[k - 1] == S::spec_one());
        S::from_successor((k - 1) as u64);
    }
}

/// The sum of multiples is a multiple of the sum.
proof fn total_multiple<S: ExactScalar>(c: Seq<S>, s: S, v: Seq<S>)
    requires
        c.len() == v.len(),
        forall|i: int| 0 <= i < v.len() ==> #[trigger] c[i] == s.spec_mul(v[i]),
    ensures
        spec_total(c) == s.spec_mul(spec_total(v)),
{
    let n = v.len();
    let z = spec_zeros::<S>(n);
    assert forall|i: int| 0 <= i < n implies #[trigger] c[i] == z[i].spec_add(s.spec_mul(v[i])) by {
        zero_add(s.spec_mul(v[i]));
    }
    total_linear(c, z, s, v, n as int);
    total_of_zeros(z, n as int);
    zero_add(s.spec_mul(spec_total(v)));
}

/// Every centered column sums to zero.
pub proof fn centered_columns_sum_to_zero<S: ExactScalar>(m: Seq<Seq<S>>, cols: nat, j: int)
    requires
        has_width(m, cols),
        m.len() <= u64::MAX,
        0 <= j < cols,
        S::spec_from_u64(m.len() as u64) != S::spec_zero(),
    ensures
        spec_total(spec_column(centered(m, cols), j)) == S::spec_zero(),
{
    let n = m.len();
    let (before, after) = (spec_column(m, j), spec_column(centered(m, cols), j));
    let mean = column_means(m, cols)[j];
    let ones = Seq::new(n, |i: int| S::spec_one());
    assert forall|i: int| 0 <= i < n implies #[trigger] after[i] == before[i].spec_add(
        mean.spec_neg().spec_mul(ones[i]),
    ) by {
        assert(m[i].len() == cols);
        S::mul_one(mean);
        sub_mul(before[i], mean, S::spec_one());
    }
    total_linear(after, before, mean.spec_neg(), ones, n as int);
    total_of_ones(ones, n as int);
    let count = S::spec_from_u64(n as u64);
    S::div_mul(spec_total(before), count);
    neg_mul(mean, count);
    S::add_neg(spec_total(before));
}

/// The shares of a row's values in its sum add up to one.
pub proof fn shares_sum_to_one<S: ExactScalar>(row: Seq<Entry<S>>)
    requires
        row_total(row) != S::spec_zero(),
    ensures
        spec_total(divided(row_values(row), row_total(row))) == S::spec_one(),
{
    let total = row_total(row);
    let values = row_values(row);
    let shares = divided(values, total);
    let i = S::spec_one().spec_div(total);
    assert forall|k: int| 0 <= k < values.len() implies #[trigger] shares[k] == i.spec_mul(
        values[k],
    ) by {
        div_is_mul(values[k], total);
    }
    total_multiple(shares, i, values);
    S::div_mul(S::spec_one(), total);
}

/// Row `row` with every stored value multiplied by `s`.
pub open spec fn scaled_row<S: Scalar>(row: Seq<Entry<S>>, s: S) -> Seq<Entry<S>> {
    Seq::new(row.len(), |k: int| (row[k].0, s.spec_mul(row[k].1)))
}

/// A ratio does not change where both terms are multiplied by one number other than zero.
proof fn ratio_ignores_scale<S: ExactScalar>(s: S, a: S, b: S)
    requires
        s != S::spec_zero(),
        b != S::spec_zero(),
    ensures
        s.spec_mul(b) != S::spec_zero(),
        s.spec_mul(a).spec_div(s.spec_mul(b)) == a.spec_div(b),
{
    let sb = s.spec_mul(b);
    if sb == S::spec_zero() {
        mul_zero(s);
        S::mul_commutes(s, b);
        S::mul_commutes(s, S::spec_zero());
        mul_cancel(b, S::spec_zero(), s);
    }
    let q = a.spec_div(b);
    // q * (s * b) == s * (q * b) == s * a
    S::mul_commutes(s, b);
    S::mul_associates(q, b, s);
    S::div_mul(a, b);
    S::mul_commutes(a, s);
    S::div_mul(s.spec_mul(a), sb);
    mul_cancel(s.spec_mul(a).spec_div(sb), q, sb);
}

/// Scaling keeps what is stored where.
proof fn stored_in_scaled<S: Scalar>(row: Seq<Entry<S>>, s: S, cols: nat, c: int)
    requires
        row_wf(row, cols),
    ensures
        stored(scaled_row(row, s), c) == (match stored(row, c) {
            Some(v) => Some(s.spec_mul(v)),
            None => None,
        }),
{
    let scaled = scaled_row(row, s);
    assert(row_wf(scaled, cols)) by {
        assert forall|k: int| 0 <= k < scaled.len() implies (#[trigger] scaled[k]).0 == row[k].0 by {
        }
    }
    if exists|k: int| 0 <= k < row.len() && (#[trigger] row[k]).0 == c {
        let k = choose|k: int| 0 <= k < row.len() && (#[trigger] row[k]).0 == c;
        lemma_stored(row, cols, k);
        lemma_stored(scaled, cols, k);
    } else {
        assert forall|k: int| 0 <= k < scaled.len() implies (#[trigger] scaled[k]).0 != c by {
            assert(row[k].0 != c);
        }
    }
}

/// Preprocessing reads only the proportions of a row: a positive row multiplied by a number
/// that keeps it positive gives the same.
pub proof fn preprocessing_ignores_scale<S: ExactScalar>(
    row: Seq<Entry<S>>,
    s: S,
    cols: nat,
    p: nat,
)
    requires
        row_wf(row, cols),
        s != S::spec_zero(),
        row_total(row).spec_exceeds(S::spec_zero()),
        row_total(scaled_row(row, s)).spec_exceeds(S::spec_zero()),
    ensures
        preprocessed_row(scaled_row(row, s), p) == preprocessed_row(row, p),
{
    let scaled = scaled_row(row, s);
    S::exceeds_is_irreflexive(S::spec_zero());
    total_multiple(row_values(scaled), s, row_values(row));
    let (left, right) = (preprocessed_row(scaled, p), preprocessed_row(row, p));
    assert forall|c: int| 0 <= c < p implies left[c] == right[c] by {
        stored_in_scaled(row, s, cols, c);
        match stored(row, c) {
            Some(v) => {
                ratio_ignores_scale(s, v, row_total(row));
            },
            None => {},
        }
    }
    assert(left =~= right);
}

/// The sum of a row that stores nothing is zero, and an appended entry adds its value.
pub proof fn row_total_grows<S: Scalar>(row: Seq<Entry<S>>, e: Entry<S>)
    ensures
        row_total(Seq::<Entry<S>>::empty()) == S::spec_zero(),
        row_total(row.push(e)) == row_total(row).spec_add(e.1),
{
    total_ext(row_values(row.push(e)), row_values(row), row.len() as int);
}

/// In a row with a positive sum, every stored value becomes the logarithm of its share in
/// the sum plus one, in the column where it is stored, however many values the row stores.
pub proof fn stored_counts_become_logs<S: Scalar>(row: Seq<Entry<S>>, p: nat, k: int)
    requires
        row_wf(row, p),
        0 <= k < row.len(),
        row_total(row).spec_exceeds(S::spec_zero()),
    ensures
        preprocessed_row(row, p)[row[k].0 as int] == row[k].1.spec_div(row_total(row)).spec_add(
            S::spec_one(),
        ).spec_ln(),
{
    lemma_stored(row, p, k);
}

/// A row has one element per column.  It is zero where nothing is stored, and throughout
/// where the sum is not positive.
pub proof fn other_elements_are_zero<S: Scalar>(row: Seq<Entry<S>>, p: nat, c: int)
    requires
        row_wf(row, p),
        0 <= c < p,
    ensures
        preprocessed_row(row, p).len() == p,
        (forall|k: int| 0 <= k < row.len() ==> (#[trigger] row[k]).0 != c)
            ==> preprocessed_row(row, p)[c] == S::spec_zero(),
        !row_total(row).spec_exceeds(S::spec_zero()) ==> preprocessed_row(row, p)[c]
            == S::spec_zero(),
{
}

/// Preprocessing treats the rows one by one.  There are `n` of them: a row that the matrix
/// does not have is one that stores nothing.
pub proof fn preprocessing_is_rowwise<S: Scalar>(
    x: Seq<Seq<Entry<S>>>,
    n: nat,
    p: nat,
    r: int,
)
    requires
        0 <= r < n,
    ensures
        preprocessed(x, n, p).len() == n,
        r < x.len() ==> preprocessed(x, n, p)[r] == preprocessed_row(x[r], p),
        r >= x.len() ==> preprocessed(x, n, p)[r] == spec_zeros::<S>(p),
{
    if r >= x.len() {
        assert(preprocessed(x, n, p)[r] =~= spec_zeros::<S>(p));
    }
}

/// Where `exp` undoes the logarithm, the shares can be read off a preprocessed row: at the
/// stored columns, the exponentials less one add up to one.
pub proof fn exponentials_give_shares_back<S: ExactScalar>(
    row: Seq<Entry<S>>,
    p: nat,
    exp: spec_fn(S) -> S,
)
    requires
        row_wf(row, p),
        row_total(row).spec_exceeds(S::spec_zero()),
        forall|k: int|
            0 <= k < row.len() ==> {
                let a = (#[trigger] row[k]).1.spec_div(row_total(row)).spec_add(S::spec_one());
                exp(a.spec_ln()) == a
            },
    ensures
        spec_total(
            Seq::new(
                row.len(),
                |k: int|
                    exp(preprocessed_row(row, p)[row[k].0 as int]).spec_sub(S::spec_one()),
            ),
        ) == S::spec_one(),
{
    let one = S::spec_one();
    let total = row_total(row);
    let shares = divided(row_values(row), total);
    let back = Seq::new(
        row.len(),
        |k: int| exp(preprocessed_row(row, p)[row[k].0 as int]).spec_sub(one),
    );
    S::exceeds_is_irreflexive(S::spec_zero());
    assert forall|k: int| 0 <= k < row.len() implies back[k] == shares[k] by {
        let share = row[k].1.spec_div(total);
        stored_counts_become_logs(row, p, k);
        // share + 1 - 1 == share
        S::sub_is_add_neg(share.spec_add(one), one);
        S::add_associates(share, one, one.spec_neg());
        S::add_neg(one);
        S::add_zero(share);
    }
    assert(back =~= shares);
    shares_sum_to_one(row);
}

} // verus!
