//! Gauss-Jordan elimination finds the inverse.
use crate::laws::algebra::{
    add_cancel, div_is_mul, div_self, dot_linear, dot_linear_right, dot_zeros, mul_zero, neg_mul,
    sub_mul, sub_self, sub_zero, zero_add,
};
use crate::laws::products::{dot_unit, unit_row_times};
use crate::matrix::{has_width, row_times, spec_column, spec_product};
use crate::scalar::{ExactScalar, Scalar};
use crate::solve::{
    acceptable, accepted_upto, augmented, cleared, eliminated, identity,
    lemma_eliminated_shape, lemma_pivot_row_range, nonsingular, pivoted, spec_inverse,
    spec_pivot, spec_pivot_row, unit, PIVOT_SCALE,
};
use crate::vector::{divided, dot_prefix, minus_scaled, spec_dot, spec_zeros};
use vstd::prelude::*;

verus! {

/// The second half of a row of `2 n` elements.
spec fn tail<S>(row: Seq<S>, n: nat) -> Seq<S> {
    row.subrange(n as int, 2 * n as int)
}

/// The first half of a row is its second half times `m`.
spec fn balanced<S: Scalar>(row: Seq<S>, m: Seq<Seq<S>>) -> bool {
    &&& row.len() == 2 * m.len()
    &&& forall|j: int|
        0 <= j < m.len() ==> #[trigger] row[j] == spec_dot(tail(row, m.len()), spec_column(m, j))
}

/// Every row is balanced.
spec fn all_balanced<S: Scalar>(e: Seq<Seq<S>>, m: Seq<Seq<S>>) -> bool {
    forall|r: int| 0 <= r < e.len() ==> balanced(#[trigger] e[r], m)
}

/// The first `k` columns are those of the identity.
spec fn reduced<S: Scalar>(e: Seq<Seq<S>>, k: int) -> bool {
    forall|r: int, c: int|
        0 <= r < e.len() && 0 <= c < k ==> #[trigger] e[r][c] == (if r == c {
            S::spec_one()
        } else {
            S::spec_zero()
        })
}

/// An accepted pivot is not zero.
pub proof fn acceptable_is_nonzero<S: ExactScalar>(pivot: S)
    requires
        acceptable(pivot),
    ensures
        pivot != S::spec_zero(),
{
    S::zero_is_small(PIVOT_SCALE);
}

proof fn balanced_divided<S: ExactScalar>(row: Seq<S>, m: Seq<Seq<S>>, d: S)
    requires
        balanced(row, m),
        d != S::spec_zero(),
    ensures
        balanced(divided(row, d), m),
{
    let n = m.len();
    let i = S::spec_one().spec_div(d);
    let q = divided(row, d);
    let z = spec_zeros::<S>(n);
    assert forall|j: int| 0 <= j < n implies #[trigger] q[j] == spec_dot(
        tail(q, n),
        spec_column(m, j),
    ) by {
        let c = spec_column(m, j);
        assert forall|l: int| 0 <= l < n implies #[trigger] tail(q, n)[l] == z[l].spec_add(
            i.spec_mul(tail(row, n)[l]),
        ) by {
            div_is_mul(row[n + l], d);
            zero_add(i.spec_mul(row[n + l]));
        }
        dot_linear(tail(q, n), z, i, tail(row, n), c, n as int);
        dot_zeros(z, c, n as int);
        zero_add(i.spec_mul(row[j]));
        div_is_mul(row[j], d);
    }
}

proof fn balanced_minus<S: ExactScalar>(a: Seq<S>, s: S, b: Seq<S>, m: Seq<Seq<S>>)
    requires
        balanced(a, m),
        balanced(b, m),
    ensures
        balanced(minus_scaled(a, s, b), m),
{
    let n = m.len();
    let q = minus_scaled(a, s, b);
    assert forall|j: int| 0 <= j < n implies #[trigger] q[j] == spec_dot(
        tail(q, n),
        spec_column(m, j),
    ) by {
        let c = spec_column(m, j);
        assert forall|l: int| 0 <= l < n implies #[trigger] tail(q, n)[l] == tail(a, n)[l].spec_add(
            s.spec_neg().spec_mul(tail(b, n)[l]),
        ) by {
            sub_mul(a[n + l], s, b[n + l]);
        }
        dot_linear(tail(q, n), tail(a, n), s.spec_neg(), tail(b, n), c, n as int);
        sub_mul(a[j], s, b[j]);
        assert(a[j] == spec_dot(tail(a, n), c));
        assert(b[j] == spec_dot(tail(b, n), c));
    }
}

proof fn augmented_balanced<S: ExactScalar>(m: Seq<Seq<S>>)
    requires
        has_width(m, m.len()),
    ensures
        all_balanced(augmented(m), m),
{
    let n = m.len();
    assert forall|r: int| 0 <= r < n implies balanced(#[trigger] augmented(m)[r], m) by {
        let row = augmented(m)[r];
        assert(m[r].len() == n);
        assert(tail(row, n) =~= unit::<S>(r, n));
        assert forall|j: int| 0 <= j < n implies #[trigger] row[j] == spec_dot(
            tail(row, n),
            spec_column(m, j),
        ) by {
            dot_unit(spec_column(m, j), r);
        }
    }
}

/// One elimination step keeps the rows balanced and reduces one more column.
proof fn step_reduces<S: ExactScalar>(e: Seq<Seq<S>>, m: Seq<Seq<S>>, k: int)
    requires
        0 <= k < e.len(),
        e.len() == m.len(),
        all_balanced(e, m),
        reduced(e, k),
        spec_pivot(e, k) != S::spec_zero(),
    ensures
        all_balanced(cleared(pivoted(e, k), k), m),
        reduced(cleared(pivoted(e, k), k), k + 1),
{
    let n = e.len();
    let q = spec_pivot_row(e, k);
    lemma_pivot_row_range(e, k, n as int);
    let s = pivoted(e, k);
    let d = s[k][k];
    let lead = divided(s[k], d);
    let f = cleared(s, k);
    assert(all_balanced(s, m)) by {
        assert(balanced(e[k], m) && balanced(e[q], m));
    }
    assert(reduced(s, k)) by {
        assert forall|r: int, c: int| 0 <= r < n && 0 <= c < k implies #[trigger] s[r][c] == (if r
            == c {
            S::spec_one()
        } else {
            S::spec_zero()
        }) by {
            assert(e[k][c] == S::spec_zero() && e[q][c] == S::spec_zero());
            assert(e[r][c] == (if r == c {
                S::spec_one()
            } else {
                S::spec_zero()
            }));
        }
    }
    assert(balanced(s[k], m));
    balanced_divided(s[k], m, d);
    assert forall|r: int| 0 <= r < n implies balanced(#[trigger] f[r], m) by {
        assert(balanced(s[r], m));
        if r != k {
            balanced_minus(s[r], s[r][k], lead, m);
        }
    }
    assert forall|r: int, c: int| 0 <= r < n && 0 <= c < k + 1 implies #[trigger] f[r][c] == (if r
        == c {
        S::spec_one()
    } else {
        S::spec_zero()
    }) by {
        assert(balanced(s[r], m));
        if c < k {
            assert(s[k][c] == S::spec_zero());
            div_is_mul(S::spec_zero(), d);
            mul_zero(S::spec_one().spec_div(d));
            assert(lead[c] == S::spec_zero());
            if r != k {
                mul_zero(s[r][k]);
                sub_zero(s[r][c]);
            }
        } else {
            div_self(d);
            assert(lead[k] == S::spec_one());
            if r != k {
                S::mul_one(s[r][k]);
                sub_self(s[r][k]);
            }
        }
    }
}

/// After `k` accepted pivots, the rows are balanced and `k` columns are reduced.
proof fn elimination_reduces<S: ExactScalar>(m: Seq<Seq<S>>, k: int)
    requires
        has_width(m, m.len()),
        0 <= k <= m.len(),
        accepted_upto(augmented(m), k),
    ensures
        all_balanced(eliminated(augmented(m), k), m),
        reduced(eliminated(augmented(m), k), k),
        eliminated(augmented(m), k).len() == m.len(),
    decreases k,
{
    let g = augmented(m);
    assert(has_width(g, 2 * m.len())) by {
        assert forall|i: int| 0 <= i < g.len() implies (#[trigger] g[i]).len() == 2 * m.len() by {
            assert(m[i].len() == m.len());
        }
    }
    lemma_eliminated_shape(g, k, 2 * m.len());
    if k == 0 {
        augmented_balanced(m);
    } else {
        assert(accepted_upto(g, k - 1));
        elimination_reduces(m, k - 1);
        let e = eliminated(g, k - 1);
        assert(acceptable(spec_pivot(e, k - 1)));
        acceptable_is_nonzero(spec_pivot(e, k - 1));
        step_reduces(e, m, k - 1);
    }
}

/// The inverse of a nonsingular matrix, times the matrix, is the identity.
pub proof fn inverse_times_matrix<S: ExactScalar>(m: Seq<Seq<S>>)
    requires
        has_width(m, m.len()),
        nonsingular(m),
    ensures
        spec_product(spec_inverse(m), m, m.len()) == identity::<S>(m.len()),
{
    let n = m.len();
    let e = eliminated(augmented(m), n as int);
    elimination_reduces(m, n as int);
    let left = spec_product(spec_inverse(m), m, n);
    assert forall|i: int| 0 <= i < n implies left[i] == identity::<S>(n)[i] by {
        assert(balanced(e[i], m));
        assert(spec_inverse(m)[i] =~= tail(e[i], n));
        assert forall|j: int| 0 <= j < n implies left[i][j] == identity::<S>(n)[i][j] by {
            assert(e[i][j] == spec_dot(tail(e[i], n), spec_column(m, j)));
        }
        assert(left[i] =~= identity::<S>(n)[i]);
    }
    assert(left =~= identity::<S>(n));
}

proof fn dot_update_prefix<S: ExactScalar>(a: Seq<S>, b: Seq<S>, i: int, x: S, y: S, k: int)
    requires
        0 <= i < a.len(),
        a.len() == b.len(),
        0 <= k <= a.len(),
    ensures
        k <= i ==> dot_prefix(a.update(i, x), b.update(i, y), k) == dot_prefix(a, b, k),
        k > i ==> dot_prefix(a.update(i, x), b.update(i, y), k).spec_add(a[i].spec_mul(b[i]))
            == dot_prefix(a, b, k).spec_add(x.spec_mul(y)),
    decreases k,
{
    if k > 0 {
        dot_update_prefix(a, b, i, x, y, k - 1);
        let before = dot_prefix(a, b, k - 1);
        let changed = dot_prefix(a.update(i, x), b.update(i, y), k - 1);
        let (old_term, new_term) = (a[i].spec_mul(b[i]), x.spec_mul(y));
        if k - 1 == i {
            S::add_associates(before, new_term, old_term);
            S::add_commutes(new_term, old_term);
            S::add_associates(before, old_term, new_term);
        } else if k - 1 > i {
            let term = a[k - 1].spec_mul(b[k - 1]);
            S::add_associates(changed, term, old_term);
            S::add_commutes(term, old_term);
            S::add_associates(changed, old_term, term);
            S::add_associates(before, new_term, term);
            S::add_commutes(new_term, term);
            S::add_associates(before, term, new_term);
        }
    }
}

/// Changing one element on both sides exchanges one term of the inner product.
proof fn dot_update<S: ExactScalar>(a: Seq<S>, b: Seq<S>, i: int, x: S, y: S)
    requires
        0 <= i < a.len(),
        a.len() == b.len(),
    ensures
        spec_dot(a.update(i, x), b.update(i, y)).spec_add(a[i].spec_mul(b[i])) == spec_dot(
            a,
            b,
        ).spec_add(x.spec_mul(y)),
{
    dot_update_prefix(a, b, i, x, y, a.len() as int);
}

/// Exchanging two elements on both sides keeps the inner product.
proof fn dot_exchange<S: ExactScalar>(a: Seq<S>, b: Seq<S>, i: int, j: int)
    requires
        0 <= i < a.len(),
        0 <= j < a.len(),
        a.len() == b.len(),
    ensures
        spec_dot(a.update(i, a[j]).update(j, a[i]), b.update(i, b[j]).update(j, b[i])) == spec_dot(
            a,
            b,
        ),
{
    if i == j {
        assert(a.update(i, a[j]).update(j, a[i]) =~= a);
        assert(b.update(i, b[j]).update(j, b[i]) =~= b);
    } else {
        let (a1, b1) = (a.update(i, a[j]), b.update(i, b[j]));
        let (ti, tj) = (a[i].spec_mul(b[i]), a[j].spec_mul(b[j]));
        dot_update(a, b, i, a[j], b[j]);
        dot_update(a1, b1, j, a[i], b[i]);
        add_cancel(
            spec_dot(a.update(i, a[j]).update(j, a[i]), b.update(i, b[j]).update(j, b[i])),
            spec_dot(a, b),
            tj,
        );
    }
}

/// A combination of the rows of `s` is one of the rows of `cleared(s, c)`.
proof fn cleared_spans<S: ExactScalar>(s: Seq<Seq<S>>, c: int, f: Seq<S>, j: int)
    requires
        0 <= c < s.len(),
        f.len() == s.len(),
        0 <= j < s[c].len(),
        s[c][c] != S::spec_zero(),
        c < s[c].len(),
        has_width(s, s[c].len()),
    ensures
        spec_dot(
            f.update(c, spec_dot(f, spec_column(s, c))),
            spec_column(cleared(s, c), j),
        ) == spec_dot(f, spec_column(s, j)),
{
    let n = s.len();
    let lead = divided(s[c], s[c][c]);
    let (cj, kc) = (spec_column(s, j), spec_column(s, c));
    let q = lead[j];
    let g = spec_dot(f, kc);
    let d = Seq::new(n, |r: int| cj[r].spec_sub(kc[r].spec_mul(q)));
    assert(spec_column(cleared(s, c), j) =~= d.update(c, q)) by {
        assert forall|r: int| 0 <= r < n implies spec_column(cleared(s, c), j)[r] == d.update(
            c,
            q,
        )[r] by {
            assert(s[r].len() == s[c].len());
        }
    }
    dot_update(f, d, c, g, q);
    let changed = spec_dot(f.update(c, g), d.update(c, q));
    // The element of `d` at the pivot is zero.
    S::div_mul(s[c][j], s[c][c]);
    S::mul_commutes(kc[c], q);
    sub_self(cj[c]);
    mul_zero(f[c]);
    S::add_zero(changed);
    // The rest of `d` is linear in the columns.
    assert forall|r: int| 0 <= r < n implies #[trigger] d[r] == cj[r].spec_add(
        q.spec_neg().spec_mul(kc[r]),
    ) by {
        S::mul_commutes(kc[r], q);
        sub_mul(cj[r], q, kc[r]);
    }
    dot_linear_right(f, d, cj, q.spec_neg(), kc, n as int);
    let base = spec_dot(f, cj);
    S::mul_commutes(g, q);
    S::add_associates(base, q.spec_neg().spec_mul(g), q.spec_mul(g));
    neg_mul(q, g);
    S::add_commutes(q.spec_mul(g).spec_neg(), q.spec_mul(g));
    S::add_neg(q.spec_mul(g));
    S::add_zero(base);
}

/// Every row of the augmented matrix is a combination of the rows after `k` steps.
proof fn elimination_spans<S: ExactScalar>(m: Seq<Seq<S>>, k: int, i: int) -> (f: Seq<S>)
    requires
        has_width(m, m.len()),
        0 <= k <= m.len(),
        0 <= i < m.len(),
        accepted_upto(augmented(m), k),
    ensures
        f.len() == m.len(),
        row_times(f, eliminated(augmented(m), k), 2 * m.len()) == augmented(m)[i],
    decreases k,
{
    let n = m.len();
    let g = augmented(m);
    assert(has_width(g, 2 * n)) by {
        assert forall|r: int| 0 <= r < g.len() implies (#[trigger] g[r]).len() == 2 * n by {
            assert(m[r].len() == n);
        }
    }
    if k == 0 {
        unit_row_times(g, i, 2 * n);
        unit::<S>(i, n)
    } else {
        let c = k - 1;
        assert(accepted_upto(g, c));
        let f = elimination_spans(m, c, i);
        let e = eliminated(g, c);
        lemma_eliminated_shape(g, c, 2 * n);
        let q = spec_pivot_row(e, c);
        lemma_pivot_row_range(e, c, n as int);
        let s = pivoted(e, c);
        assert(acceptable(spec_pivot(e, c)));
        acceptable_is_nonzero(spec_pivot(e, c));
        assert(has_width(s, 2 * n)) by {
            assert(e[c].len() == 2 * n && e[q].len() == 2 * n);
        }
        assert(s[c].len() == 2 * n);
        let f1 = f.update(c, f[q]).update(q, f[c]);
        let f2 = f1.update(c, spec_dot(f1, spec_column(s, c)));
        let after = eliminated(g, k);
        assert forall|j: int| 0 <= j < 2 * n implies row_times(f2, after, 2 * n)[j]
            == g[i][j] by {
            let ej = spec_column(e, j);
            assert(spec_column(s, j) =~= ej.update(c, ej[q]).update(q, ej[c]));
            dot_exchange(f, ej, c, q);
            cleared_spans(s, c, f1, j);
            assert(row_times(f, e, 2 * n)[j] == g[i][j]);
        }
        assert(g[i].len() == 2 * n);
        assert(row_times(f2, after, 2 * n) =~= g[i]);
        f2
    }
}

/// A nonsingular matrix, times its inverse, is the identity.
pub proof fn matrix_times_inverse<S: ExactScalar>(m: Seq<Seq<S>>)
    requires
        has_width(m, m.len()),
        nonsingular(m),
    ensures
        spec_product(m, spec_inverse(m), m.len()) == identity::<S>(m.len()),
{
    let n = m.len();
    let g = augmented(m);
    let e = eliminated(g, n as int);
    elimination_reduces(m, n as int);
    let right = spec_product(m, spec_inverse(m), n);
    assert forall|i: int| 0 <= i < n implies right[i] == identity::<S>(n)[i] by {
        let f = elimination_spans(m, n as int, i);
        assert(m[i].len() == n);
        // The first half of the rows is the identity, so the coefficients are those of `m`.
        assert(f =~= m[i]) by {
            assert forall|j: int| 0 <= j < n implies f[j] == m[i][j] by {
                assert(spec_column(e, j) =~= unit::<S>(j, n)) by {
                    assert forall|r: int| 0 <= r < n implies spec_column(e, j)[r] == unit::<S>(
                        j,
                        n,
                    )[r] by {
                        assert(e[r][j] == (if r == j {
                            S::spec_one()
                        } else {
                            S::spec_zero()
                        }));
                    }
                }
                dot_unit(f, j);
                assert(row_times(f, e, 2 * n)[j] == g[i][j]);
            }
        }
        assert forall|j: int| 0 <= j < n implies right[i][j] == identity::<S>(n)[i][j] by {
            assert(spec_column(spec_inverse(m), j) =~= spec_column(e, n + j)) by {
                assert forall|r: int| 0 <= r < n implies spec_column(spec_inverse(m), j)[r]
                    == spec_column(e, n + j)[r] by {
                    assert(balanced(e[r], m));
                }
            }
            assert(row_times(f, e, 2 * n)[n + j] == g[i][n + j]);
        }
        assert(right[i] =~= identity::<S>(n)[i]);
    }
    assert(right =~= identity::<S>(n));
}

} // verus!
