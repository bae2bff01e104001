use vstd::prelude::*;
use crate::elimination::swapped;
use crate::matrix::{column, has_shape};
use crate::real_det::{det, unit_columns};
use crate::scalar::Scalar;

verus! {

/// One Gauss-Jordan step on a matrix of real numbers, steered by `fs`, one
/// number for each row: rows `p` and `r` change places, the new row `r` is
/// divided by its number, and every other row loses its number times the
/// row `r` so made.
pub open spec fn real_carry(c: Seq<Seq<real>>, fs: Seq<real>, r: int, p: int) -> Seq<Seq<real>> {
    let t = swapped(c, p, r);
    Seq::new(
        c.len(),
        |i: int|
            if i == r {
                Seq::new(t[r].len(), |j: int| t[r][j] / fs[r])
            } else {
                Seq::new(t[i].len(), |j: int| t[i][j] - fs[i] * (t[r][j] / fs[r]))
            },
    )
}

/// The numbers that steer the step which makes the entry of `a` in row `p`
/// and column `lead` the pivot of row `r`: column `lead` once rows `p` and
/// `r` have changed places.
pub open spec fn real_factors(a: Seq<Seq<real>>, r: int, p: int, lead: int) -> Seq<real> {
    column(swapped(a, p, r), lead)
}

/// One Gauss-Jordan step on a matrix of real numbers, with the pivot taken
/// from row `p` of column `lead`.
pub open spec fn real_step(a: Seq<Seq<real>>, r: int, p: int, lead: int) -> Seq<Seq<real>> {
    real_carry(a, real_factors(a, r, p, lead), r, p)
}

/// A Gauss-Jordan step steered by a number other than zero for its pivot
/// row keeps a determinant that is zero at zero, and one that is not zero
/// away from it.
pub proof fn lemma_step_keeps_singularity(a: Seq<Seq<real>>, fs: Seq<real>, r: int, p: int, n: nat)
    requires
        has_shape(a, n, n),
        2 <= n <= 4,
        0 <= r < n,
        0 <= p < n,
        fs.len() == n,
        fs[r] != 0real,
    ensures
        has_shape(real_carry(a, fs, r, p), n, n),
        det(real_carry(a, fs, r, p)) == 0real <==> det(a) == 0real,
{
    let t = swapped(a, p, r);
    assert(has_shape(t, n, n));
    if p != r {
        crate::real_det::lemma_det_swap(a, p, r, n);
    } else {
        assert(t =~= a);
    }
    let pivot = fs[r];
    let q = t.update(r, Seq::new(n, |j: int| t[r][j] / pivot));
    assert forall|j: int| 0 <= j < n implies #[trigger] t[r][j] == pivot * q[r][j] by {
        crate::real_arith::lemma_division(t[r][j], pivot);
    }
    crate::real_det::lemma_det_scales(t, q, r, pivot, n);
    crate::real_arith::lemma_zero_product(pivot, det(q));
    crate::real_det::lemma_det_of_rows_reduced(q, r, fs, n as int, n);
    assert(real_carry(a, fs, r, p) =~= crate::real_det::rows_reduced(q, r, fs, n as int)) by {
        assert forall|i: int| 0 <= i < n implies #[trigger] real_carry(a, fs, r, p)[i]
            =~= crate::real_det::rows_reduced(q, r, fs, n as int)[i] by {}
    }
}

/// A Gauss-Jordan step with a pivot other than zero, taken from column `r`
/// on the diagonal or below it, makes column `r` a column of the identity
/// and leaves the columns before it as they were.
pub proof fn lemma_step_extends_unit_columns(a: Seq<Seq<real>>, r: int, p: int, n: nat)
    requires
        has_shape(a, n, n),
        0 <= r <= p < n,
        a[p][r] != 0real,
        unit_columns(a, r, n),
    ensures
        unit_columns(real_step(a, r, p, r), r + 1, n),
{
    let t = swapped(a, p, r);
    let next = real_step(a, r, p, r);
    let pivot = t[r][r];
    assert(pivot == a[p][r]);
    crate::real_arith::lemma_division(pivot, pivot);
    assert forall|i: int, j: int| 0 <= i < n && 0 <= j < r + 1 implies #[trigger] next[i][j] == (if i
        == j {
        1real
    } else {
        0real
    }) by {
        let source = if i == r {
            p
        } else if i == p {
            r
        } else {
            i
        };
        assert(t[i] == a[source]);
        assert(t[r] == a[p]);
        if j < r {
            assert(a[source][j] == (if source == j {
                1real
            } else {
                0real
            }));
            assert(a[p][j] == 0real);
            assert(t[r][j] / pivot == 0real);
            if i == r {
                assert(next[i][j] == t[r][j] / pivot);
            } else {
                assert(next[i][j] == t[i][j] - t[i][r] * (t[r][j] / pivot));
                assert(t[i][r] * 0real == 0real) by (nonlinear_arith);
                assert(a[r][j] == 0real);
            }
        } else {
            assert(pivot / pivot == 1real);
            if i == r {
                assert(next[i][j] == t[r][r] / pivot);
            } else {
                assert(next[i][j] == t[i][r] - t[i][r] * (t[r][r] / pivot));
                assert(t[i][r] * 1real == t[i][r]) by (nonlinear_arith);
            }
        }
    }
}

/// The terms of the product of a row and column `j` of `m`.
pub open spec fn row_terms(row: Seq<real>, m: Seq<Seq<real>>, j: int) -> Seq<real> {
    Seq::new(row.len(), |k: int| row[k] * m[k][j])
}

/// The product of a row and column `j` of `m`.
pub open spec fn row_times(row: Seq<real>, m: Seq<Seq<real>>, j: int) -> real {
    crate::exact::total(row_terms(row, m, j))
}

/// The product of two matrices of real numbers, as far as the first has
/// rows and the second has columns.
pub open spec fn times(c: Seq<Seq<real>>, m: Seq<Seq<real>>) -> Seq<Seq<real>> {
    Seq::new(
        c.len(),
        |i: int| Seq::new(crate::matrix::col_count(m), |j: int| row_times(c[i], m, j)),
    )
}

/// `x` minus `f` times `y`, item by item.
pub open spec fn row_less(x: Seq<real>, f: real, y: Seq<real>) -> Seq<real> {
    Seq::new(x.len(), |k: int| x[k] - f * y[k])
}

/// Every item of `x` divided by `d`.
pub open spec fn row_over(x: Seq<real>, d: real) -> Seq<real> {
    Seq::new(x.len(), |k: int| x[k] / d)
}

/// The product with a column is linear in the row: a row minus a multiple
/// of another gives the product minus that multiple of the other's.
pub proof fn lemma_row_times_combines(x: Seq<real>, f: real, y: Seq<real>, m: Seq<Seq<real>>, j: int)
    requires
        x.len() == y.len(),
    ensures
        row_times(row_less(x, f, y), m, j) == row_times(x, m, j) - f * row_times(y, m, j),
    decreases x.len(),
{
    let z = row_less(x, f, y);
    if x.len() > 0 {
        let last = x.len() - 1;
        lemma_row_times_combines(x.drop_last(), f, y.drop_last(), m, j);
        assert(row_terms(z, m, j).drop_last() =~= row_terms(row_less(x.drop_last(), f, y.drop_last()), m, j));
        assert(row_terms(x, m, j).drop_last() =~= row_terms(x.drop_last(), m, j));
        assert(row_terms(y, m, j).drop_last() =~= row_terms(y.drop_last(), m, j));
        crate::real_arith::lemma_mul_distributes(x[last], f * y[last], m[last][j]);
        crate::real_arith::lemma_mul_regroups(f, y[last], m[last][j]);
        crate::real_arith::lemma_mul_distributes(
            row_times(y.drop_last(), m, j),
            y[last] * m[last][j],
            f,
        );
    }
}

/// A row divided by a number other than zero gives the product divided by
/// that number.
pub proof fn lemma_row_times_scales(x: Seq<real>, d: real, m: Seq<Seq<real>>, j: int)
    requires
        d != 0real,
    ensures
        row_times(row_over(x, d), m, j) == row_times(x, m, j) / d,
    decreases x.len(),
{
    let z = row_over(x, d);
    if x.len() > 0 {
        let last = x.len() - 1;
        lemma_row_times_scales(x.drop_last(), d, m, j);
        assert(row_terms(z, m, j).drop_last() =~= row_terms(row_over(x.drop_last(), d), m, j));
        assert(row_terms(x, m, j).drop_last() =~= row_terms(x.drop_last(), m, j));
        let before = row_times(x.drop_last(), m, j);
        let term = x[last] * m[last][j];
        assert((x[last] / d) * m[last][j] == term / d) by (nonlinear_arith)
            requires
                d != 0real,
                term == x[last] * m[last][j],
        ;
        assert(before / d + term / d == (before + term) / d) by (nonlinear_arith)
            requires
                d != 0real,
        ;
    } else {
        assert(0real / d == 0real) by (nonlinear_arith)
            requires
                d != 0real,
        ;
    }
}

/// A Gauss-Jordan step on the left factor of a product is the same step on
/// the product.
pub proof fn lemma_step_on_product(
    c: Seq<Seq<real>>,
    m: Seq<Seq<real>>,
    fs: Seq<real>,
    r: int,
    p: int,
    n: nat,
)
    requires
        has_shape(c, n, n),
        has_shape(m, n, n),
        0 <= r < n,
        0 <= p < n,
        fs[r] != 0real,
    ensures
        times(real_carry(c, fs, r, p), m) == real_carry(times(c, m), fs, r, p),
{
    let next = real_carry(c, fs, r, p);
    let t = swapped(c, p, r);
    let whole = times(c, m);
    let tw = swapped(whole, p, r);
    assert(m[0].len() == n);
    assert forall|i: int| 0 <= i < n implies #[trigger] times(next, m)[i] =~= real_carry(
        whole,
        fs,
        r,
        p,
    )[i] by {
        assert forall|j: int| 0 <= j < n implies times(next, m)[i][j] == real_carry(whole, fs, r, p)[i][j] by {
            assert(next[r] =~= row_over(t[r], fs[r]));
            lemma_row_times_scales(t[r], fs[r], m, j);
            assert(tw[r][j] == row_times(t[r], m, j));
            if i != r {
                assert(next[i] =~= row_less(t[i], fs[i], next[r]));
                lemma_row_times_combines(t[i], fs[i], next[r], m, j);
                assert(tw[i][j] == row_times(t[i], m, j));
            }
        }
    }
    assert(times(real_carry(c, fs, r, p), m) =~= real_carry(times(c, m), fs, r, p));
}

/// The identity matrix times a matrix is that matrix.
pub proof fn lemma_unit_times(c: Seq<Seq<real>>, m: Seq<Seq<real>>, n: nat)
    requires
        has_shape(c, n, n),
        has_shape(m, n, n),
        unit_columns(c, n as int, n),
    ensures
        times(c, m) == m,
{
    if n > 0 {
        assert(m[0].len() == n);
    }
    assert forall|i: int| 0 <= i < n implies #[trigger] times(c, m)[i] =~= m[i] by {
        assert forall|j: int| 0 <= j < n implies times(c, m)[i][j] == m[i][j] by {
            let terms = row_terms(c[i], m, j);
            assert forall|k: int| 0 <= k < terms.len() && k != i implies terms[k] == 0real by {
                assert(c[i][k] == 0real);
            }
            assert(c[i][i] == 1real);
            crate::exact::lemma_total_single(terms, i);
        }
    }
    assert(times(c, m) =~= m);
}

/// Under exact arithmetic a Gauss-Jordan step on scalars, steered by the
/// numbers of `guide` with a pivot that is not zero, stands for the same
/// step on the numbers.
pub proof fn lemma_step_value<K: Scalar>(
    value: spec_fn(K) -> real,
    c: Seq<Seq<K>>,
    guide: Seq<Seq<K>>,
    r: int,
    p: int,
    lead: int,
    rows: nat,
    cols: nat,
    width: nat,
)
    requires
        crate::exact::exact_under(value),
        has_shape(guide, rows, cols),
        has_shape(c, rows, width),
        0 <= r < rows,
        0 <= p < rows,
        0 <= lead < cols,
        value(guide[p][lead]) != 0real,
    ensures
        has_shape(crate::elimination::carried(c, guide, r, p, lead), rows, width),
        crate::exact::cell_values(value, crate::elimination::carried(c, guide, r, p, lead)) == real_carry(
            crate::exact::cell_values(value, c),
            real_factors(crate::exact::cell_values(value, guide), r, p, lead),
            r,
            p,
        ),
{
    let a = crate::exact::cell_values(value, guide);
    let x = crate::exact::cell_values(value, c);
    let fs = real_factors(a, r, p, lead);
    let next = crate::elimination::carried(c, guide, r, p, lead);
    let s = swapped(guide, p, r);
    let t = swapped(c, p, r);
    let factors = crate::elimination::pivot_factors(guide, r, p, lead);
    assert(has_shape(s, rows, cols));
    assert(has_shape(t, rows, width));
    assert(s[r] == guide[p]);
    assert forall|i: int| 0 <= i < rows implies fs[i] == value(#[trigger] factors[i]) by {
        assert(s[i].len() == cols);
        assert(swapped(a, p, r)[i] =~= crate::exact::values(value, s[i]));
    }
    assert(value(factors[r]) != 0real);
    assert forall|i: int| 0 <= i < rows implies #[trigger] crate::exact::cell_values(value, next)[i] =~= real_carry(
        x,
        fs,
        r,
        p,
    )[i] by {
        assert(t[i].len() == width);
        assert(t[r].len() == width);
        assert(swapped(x, p, r)[i] =~= crate::exact::values(value, t[i]));
        assert(swapped(x, p, r)[r] =~= crate::exact::values(value, t[r]));
        assert(fs[i] == value(factors[i]));
        assert(fs[r] == value(factors[r]));
    }
    assert(crate::exact::cell_values(value, next) =~= real_carry(x, fs, r, p));
}

} // verus!
