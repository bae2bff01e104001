use vstd::prelude::*;
use crate::determinant::{cofactor_det, determinant_spec, minor};
use crate::elimination::{
    carried, first_nonzero_row, inverse_from, inverse_spec, lemma_first_nonzero_row, pivoted, swapped,
};
use crate::exact::{cell_values, exact_under};
use crate::matrix::has_shape;
use crate::real_det::{det, unit_columns};
use crate::real_gauss::{lemma_step_value, real_factors};
use crate::scalar::Scalar;

verus! {

/// Under exact arithmetic the cofactor expansion of a matrix of scalars
/// stands for the determinant of the numbers its cells stand for.
pub proof fn lemma_cofactor_value<K: Scalar>(value: spec_fn(K) -> real, m: Seq<Seq<K>>, n: nat)
    requires
        exact_under(value),
        has_shape(m, n, n),
        n >= 2,
    ensures
        value(cofactor_det(m)) == det(cell_values(value, m)),
    decreases n, n + 1,
{
    if n > 2 {
        lemma_expansion_value(value, m, n, n - 1);
    }
}

/// Under exact arithmetic the cofactor expansion up to any column stands
/// for the expansion of the numbers up to that column.
proof fn lemma_expansion_value<K: Scalar>(
    value: spec_fn(K) -> real,
    m: Seq<Seq<K>>,
    n: nat,
    col: int,
)
    requires
        exact_under(value),
        has_shape(m, n, n),
        n >= 3,
        0 <= col < n,
    ensures
        value(crate::determinant::expansion(m, col)) == crate::real_det::expansion(
            cell_values(value, m),
            col,
        ),
    decreases n, col,
{
    let a = cell_values(value, m);
    assert(cell_values(value, minor(m, col)) =~= minor(a, col)) by {
        assert forall|i: int| 0 <= i < n - 1 implies #[trigger] cell_values(value, minor(m, col))[i]
            =~= minor(a, col)[i] by {}
    }
    lemma_cofactor_value(value, minor(m, col), (n - 1) as nat);
    assert(a[0][col] == value(m[0][col]));
    if col > 0 {
        lemma_expansion_value(value, m, n, col - 1);
    }
}

/// Under exact arithmetic, Gauss-Jordan inversion that has reached row `r`
/// with the columns before it reduced succeeds where the determinant of
/// what is left to reduce is not zero, and nowhere else.
proof fn lemma_elimination_decides<K: Scalar>(
    value: spec_fn(K) -> real,
    m: Seq<Seq<K>>,
    c: Seq<Seq<K>>,
    r: int,
    n: nat,
)
    requires
        exact_under(value),
        has_shape(m, n, n),
        2 <= n <= 4,
        0 <= r <= n,
        unit_columns(cell_values(value, m), r, n),
    ensures
        inverse_from(m, c, r) is Some <==> det(cell_values(value, m)) != 0real,
    decreases n - r,
{
    let a = cell_values(value, m);
    assert(has_shape(a, n, n));
    if r == n {
        crate::real_det::lemma_det_of_identity(a, n);
    } else {
        let p = first_nonzero_row(m, r, r);
        lemma_first_nonzero_row(m, r, r);
        if p >= n {
            assert forall|i: int| r <= i < n implies (#[trigger] a[i])[r] == 0real by {
                assert(crate::scalar::is_zero(m[i][r]));
                assert(m[i].len() == n);
            }
            crate::real_det::lemma_det_of_stalled(a, r, n);
        } else {
            assert(m[p].len() == n);
            assert(a[p][r] == value(m[p][r]));
            assert(a[p][r] != 0real);
            lemma_step_value(value, m, m, r, p, r, n, n, n);
            let fs = real_factors(a, r, p, r);
            assert(fs[r] == a[p][r]) by {
                assert(swapped(a, p, r)[r] == a[p]);
            }
            crate::real_gauss::lemma_step_keeps_singularity(a, fs, r, p, n);
            crate::real_gauss::lemma_step_extends_unit_columns(a, r, p, n);
            lemma_elimination_decides(
                value,
                pivoted(m, r, p, r),
                crate::elimination::carried(c, m, r, p, r),
                r + 1,
                n,
            );
        }
    }
}

/// Under exact arithmetic a square matrix of two to four rows has an
/// inverse where its determinant is not zero, and nowhere else.
pub proof fn lemma_inverse_iff_determinant<K: Scalar>(value: spec_fn(K) -> real, m: Seq<Seq<K>>)
    requires
        exact_under(value),
        2 <= m.len() <= 4,
        has_shape(m, m.len(), m.len()),
    ensures
        inverse_spec(m) is Ok <==> !crate::scalar::is_zero(determinant_spec(m)),
{
    let n = m.len();
    assert(m[0].len() == n);
    lemma_cofactor_value(value, m, n);
    lemma_elimination_decides(
        value,
        m,
        crate::matrix::identity_spec(n, K::one_spec()),
        0,
        n,
    );
}

/// Under exact arithmetic the product of two square matrices of scalars
/// stands for the product of the numbers their cells stand for.
proof fn lemma_product_value<K: Scalar>(
    value: spec_fn(K) -> real,
    c: Seq<Seq<K>>,
    m: Seq<Seq<K>>,
    n: nat,
)
    requires
        exact_under(value),
        has_shape(c, n, n),
        has_shape(m, n, n),
    ensures
        cell_values(value, crate::matrix::product(c, m)) == crate::real_gauss::times(
            cell_values(value, c),
            cell_values(value, m),
        ),
{
    let p = crate::matrix::product(c, m);
    let x = cell_values(value, c);
    let a = cell_values(value, m);
    if n > 0 {
        assert(c[0].len() == n);
        assert(m[0].len() == n);
        assert(a[0].len() == n);
    }
    assert forall|i: int| 0 <= i < n implies #[trigger] cell_values(value, p)[i]
        =~= crate::real_gauss::times(x, a)[i] by {
        assert(c[i].len() == n);
        assert forall|j: int| 0 <= j < n implies cell_values(value, p)[i][j]
            == crate::real_gauss::times(x, a)[i][j] by {
            let terms = crate::vector::products(c[i], crate::matrix::column(m, j));
            crate::exact::lemma_sum_value(value, terms);
            assert(crate::exact::values(value, terms) =~= crate::real_gauss::row_terms(
                x[i],
                a,
                j,
            )) by {
                assert forall|k: int| 0 <= k < n implies crate::exact::values(value, terms)[k]
                    == crate::real_gauss::row_terms(x[i], a, j)[k] by {
                    assert(m[k].len() == n);
                }
            }
        }
    }
    assert(cell_values(value, p) =~= crate::real_gauss::times(x, a));
}

/// Under exact arithmetic the companion of Gauss-Jordan inversion, which
/// times the matrix at the start gives what is left to reduce, gives the
/// identity in the end.
proof fn lemma_companion_inverts<K: Scalar>(
    value: spec_fn(K) -> real,
    start: Seq<Seq<K>>,
    m: Seq<Seq<K>>,
    c: Seq<Seq<K>>,
    r: int,
    n: nat,
)
    requires
        exact_under(value),
        has_shape(start, n, n),
        has_shape(m, n, n),
        has_shape(c, n, n),
        0 <= r <= n,
        unit_columns(cell_values(value, m), r, n),
        crate::real_gauss::times(cell_values(value, c), cell_values(value, start)) == cell_values(
            value,
            m,
        ),
        inverse_from(m, c, r) is Some,
    ensures
        has_shape(inverse_from(m, c, r)->Some_0, n, n),
        unit_columns(
            crate::real_gauss::times(
                cell_values(value, inverse_from(m, c, r)->Some_0),
                cell_values(value, start),
            ),
            n as int,
            n,
        ),
    decreases n - r,
{
    let a = cell_values(value, m);
    let x = cell_values(value, c);
    let origin = cell_values(value, start);
    if r < n {
        let p = first_nonzero_row(m, r, r);
        lemma_first_nonzero_row(m, r, r);
        assert(m[p].len() == n);
        assert(a[p][r] == value(m[p][r]));
        lemma_step_value(value, m, m, r, p, r, n, n, n);
        lemma_step_value(value, c, m, r, p, r, n, n, n);
        let fs = real_factors(a, r, p, r);
        assert(fs[r] == a[p][r]) by {
            assert(swapped(a, p, r)[r] == a[p]);
        }
        crate::real_gauss::lemma_step_on_product(x, origin, fs, r, p, n);
        crate::real_gauss::lemma_step_extends_unit_columns(a, r, p, n);
        lemma_companion_inverts(value, start, pivoted(m, r, p, r), carried(c, m, r, p, r), r + 1, n);
    }
}

/// Under exact arithmetic the inverse of a square matrix of two or more
/// rows, where there is one, times the matrix is the identity.
pub proof fn lemma_inverse_inverts<K: Scalar>(value: spec_fn(K) -> real, m: Seq<Seq<K>>)
    requires
        exact_under(value),
        2 <= m.len(),
        has_shape(m, m.len(), m.len()),
        inverse_spec(m) is Ok,
    ensures
        crate::exact::same_numbers(
            crate::matrix::product(inverse_spec(m)->Ok_0, m),
            crate::matrix::identity_spec(m.len(), K::one_spec()),
        ),
{
    let n = m.len();
    let unit = crate::matrix::identity_spec(n, K::one_spec());
    let a = cell_values(value, m);
    assert(m[0].len() == n);
    assert(unit_columns(cell_values(value, unit), n as int, n));
    crate::real_gauss::lemma_unit_times(cell_values(value, unit), a, n);
    lemma_companion_inverts(value, m, m, unit, 0, n);
    let inverse = inverse_spec(m)->Ok_0;
    lemma_product_value(value, inverse, m, n);
    let p = crate::matrix::product(inverse, m);
    assert(inverse[0].len() == n);
    assert forall|i: int, j: int| 0 <= i < p.len() && 0 <= j < p[i].len() implies (#[trigger] p[i][j]).equals_spec(
        unit[i][j],
    ) by {
        assert(cell_values(value, p)[i][j] == value(p[i][j]));
    }
}

} // verus!
