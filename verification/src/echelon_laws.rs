use vstd::prelude::*;
use crate::elimination::{
    first_nonzero_row, lemma_first_nonzero_row, lemma_pivot_column, pivot_column, pivoted,
    row_echelon_from, row_echelon_spec, swapped,
};
use crate::exact::{cell_values, exact_under};
use crate::matrix::{col_count, has_shape, rectangular};
use crate::real_gauss::{lemma_step_value, real_factors, real_step};
use crate::scalar::{is_zero, Scalar};

verus! {

/// The column of the first entry of `row`, at or after column `from`, that
/// is not zero; the length of the row where there is none.
pub open spec fn leading_column<K: Scalar>(row: Seq<K>, from: int) -> int
    decreases row.len() - from,
{
    if from < 0 || from >= row.len() {
        row.len() as int
    } else if !is_zero(row[from]) {
        from
    } else {
        leading_column(row, from + 1)
    }
}

/// Whether `m` is in reduced row-echelon form: the first entry other than
/// zero of each row is a one and the only entry other than zero of its
/// column, it stands further right than that of the row above, and rows of
/// zeros stand below all others.
pub open spec fn reduced_echelon<K: Scalar>(m: Seq<Seq<K>>) -> bool {
    &&& forall|i: int|
        0 <= i < m.len() && leading_column(#[trigger] m[i], 0) < m[i].len() ==> {
            let lead = leading_column(m[i], 0);
            &&& m[i][lead].equals_spec(K::one_spec())
            &&& forall|k: int| 0 <= k < m.len() && k != i ==> is_zero((#[trigger] m[k])[lead])
        }
    &&& forall|i: int, k: int|
        0 <= i < k < m.len() ==> leading_column(#[trigger] m[k], 0) == m[k].len() || leading_column(
            #[trigger] m[i],
            0,
        ) < leading_column(m[k], 0)
}

/// Whether elimination of the numbers `a` has come as far as row `r` and
/// column `lead`: each row above has its pivot, a one, in its column of
/// `pivots`, with zeros before it in the row and zeros elsewhere in the
/// column; the pivots move right from row to row and stand before column
/// `lead`; and from row `r` down the columns before `lead` hold zeros.
pub open spec fn echelon_up_to(
    a: Seq<Seq<real>>,
    r: int,
    lead: int,
    pivots: Seq<int>,
    rows: nat,
    cols: nat,
) -> bool {
    &&& has_shape(a, rows, cols)
    &&& 0 <= r <= rows
    &&& 0 <= lead <= cols
    &&& pivots.len() == r
    &&& forall|i: int| 0 <= i < r ==> 0 <= #[trigger] pivots[i] < lead
    &&& forall|i: int, k: int| 0 <= i < k < r ==> #[trigger] pivots[i] < #[trigger] pivots[k]
    &&& forall|i: int, j: int| 0 <= i < r && 0 <= j < pivots[i] ==> #[trigger] a[i][j] == 0real
    &&& forall|i: int| 0 <= i < r ==> (#[trigger] a[i])[pivots[i]] == 1real
    &&& forall|i: int, k: int|
        0 <= i < r && 0 <= k < rows && k != i ==> (#[trigger] a[k])[#[trigger] pivots[i]] == 0real
    &&& forall|i: int, j: int| r <= i < rows && 0 <= j < lead ==> #[trigger] a[i][j] == 0real
}

/// The leading column of a row that holds zeros before column `at` and
/// another number there is `at`.
proof fn lemma_leading_column_found<K: Scalar>(row: Seq<K>, from: int, at: int)
    requires
        0 <= from <= at < row.len(),
        forall|j: int| from <= j < at ==> is_zero(#[trigger] row[j]),
        !is_zero(row[at]),
    ensures
        leading_column(row, from) == at,
    decreases at - from,
{
    if from < at {
        assert(is_zero(row[from]));
        lemma_leading_column_found(row, from + 1, at);
    }
}

/// A row of zeros has no leading column.
proof fn lemma_leading_column_missing<K: Scalar>(row: Seq<K>, from: int)
    requires
        0 <= from <= row.len(),
        forall|j: int| from <= j < row.len() ==> is_zero(#[trigger] row[j]),
    ensures
        leading_column(row, from) == row.len(),
    decreases row.len() - from,
{
    if from < row.len() {
        assert(is_zero(row[from]));
        lemma_leading_column_missing(row, from + 1);
    }
}

/// Under exact arithmetic a matrix whose elimination has come as far as row
/// `r`, and which holds only zeros from that row down, is in reduced
/// row-echelon form.
proof fn lemma_finished_is_reduced<K: Scalar>(
    value: spec_fn(K) -> real,
    m: Seq<Seq<K>>,
    r: int,
    lead: int,
    pivots: Seq<int>,
    rows: nat,
    cols: nat,
)
    requires
        exact_under(value),
        has_shape(m, rows, cols),
        echelon_up_to(cell_values(value, m), r, lead, pivots, rows, cols),
        forall|i: int, j: int|
            r <= i < rows && 0 <= j < cols ==> #[trigger] cell_values(value, m)[i][j] == 0real,
    ensures
        reduced_echelon(m),
{
    let a = cell_values(value, m);
    assert forall|i: int| 0 <= i < rows implies leading_column(#[trigger] m[i], 0) == (if i < r {
        pivots[i]
    } else {
        cols as int
    }) by {
        assert(m[i].len() == cols);
        if i < r {
            assert forall|j: int| 0 <= j < pivots[i] implies is_zero(#[trigger] m[i][j]) by {
                assert(a[i][j] == 0real);
            }
            assert(a[i][pivots[i]] == 1real);
            lemma_leading_column_found(m[i], 0, pivots[i]);
        } else {
            assert forall|j: int| 0 <= j < cols implies is_zero(#[trigger] m[i][j]) by {
                assert(a[i][j] == 0real);
            }
            lemma_leading_column_missing(m[i], 0);
        }
    }
    assert forall|i: int|
        0 <= i < m.len() && leading_column(#[trigger] m[i], 0) < m[i].len() implies {
        let lead = leading_column(m[i], 0);
        &&& m[i][lead].equals_spec(K::one_spec())
        &&& forall|k: int| 0 <= k < m.len() && k != i ==> is_zero((#[trigger] m[k])[lead])
    } by {
        assert(m[i].len() == cols);
        assert(i < r);
        let lead = pivots[i];
        assert(a[i][lead] == 1real);
        assert forall|k: int| 0 <= k < m.len() && k != i implies is_zero((#[trigger] m[k])[lead]) by {
            assert(m[k].len() == cols);
            assert(a[k][pivots[i]] == 0real);
            assert(a[k][lead] == value(m[k][lead]));
        }
    }
    assert forall|i: int, k: int| 0 <= i < k < m.len() implies leading_column(#[trigger] m[k], 0)
        == m[k].len() || leading_column(#[trigger] m[i], 0) < leading_column(m[k], 0) by {
        assert(m[k].len() == cols);
        assert(m[i].len() == cols);
        if k < r {
            assert(pivots[i] < pivots[k]);
        }
    }
}

/// Under exact arithmetic one Gauss-Jordan step of the elimination takes
/// it one row further.
proof fn lemma_step_extends_echelon(
    a: Seq<Seq<real>>,
    r: int,
    lead: int,
    p: int,
    at: int,
    pivots: Seq<int>,
    rows: nat,
    cols: nat,
)
    requires
        echelon_up_to(a, r, lead, pivots, rows, cols),
        r <= p < rows,
        lead <= at < cols,
        a[p][at] != 0real,
        forall|i: int, j: int| r <= i < rows && lead <= j < at ==> #[trigger] a[i][j] == 0real,
    ensures
        echelon_up_to(real_step(a, r, p, at), r + 1, at + 1, pivots.push(at), rows, cols),
{
    let t = swapped(a, p, r);
    let next = real_step(a, r, p, at);
    let fs = real_factors(a, r, p, at);
    let grown = pivots.push(at);
    let pivot = a[p][at];
    assert(t[r] == a[p]);
    assert(fs[r] == pivot);
    crate::real_arith::lemma_division(pivot, pivot);
    assert(has_shape(t, rows, cols));
    // What the step makes of any entry, in terms of the rows before it.
    assert forall|i: int, j: int| 0 <= i < rows && 0 <= j < cols implies #[trigger] next[i][j] == (if i
        == r {
        a[p][j] / pivot
    } else {
        t[i][j] - t[i][at] * (a[p][j] / pivot)
    }) by {
        assert(fs[i] == t[i][at]);
    }
    // The pivot row holds zeros before its pivot, so entries before column
    // `at` stay as they were.
    assert forall|j: int| 0 <= j < at implies a[p][j] / pivot == 0real by {
        assert(a[p][j] == 0real);
    }
    assert forall|i: int, j: int| 0 <= i < rows && 0 <= j < at implies #[trigger] next[i][j] == (if i
        == r {
        0real
    } else {
        t[i][j]
    }) by {
        assert(a[p][j] / pivot == 0real);
        assert(t[i][at] * 0real == 0real) by (nonlinear_arith);
    }
    // Column `at` becomes a column of the identity.
    assert forall|i: int| 0 <= i < rows implies (#[trigger] next[i])[at] == (if i == r {
        1real
    } else {
        0real
    }) by {
        assert(next[i][at] == (if i == r {
            a[p][at] / pivot
        } else {
            t[i][at] - t[i][at] * (a[p][at] / pivot)
        }));
        assert(t[i][at] * 1real == t[i][at]) by (nonlinear_arith);
    }
    assert forall|i: int| 0 <= i < r + 1 implies 0 <= #[trigger] grown[i] < at + 1 by {
        if i < r {
            assert(grown[i] == pivots[i]);
        }
    }
    assert forall|i: int, k: int| 0 <= i < k < r + 1 implies #[trigger] grown[i] < #[trigger] grown[k] by {
        assert(grown[i] == pivots[i]);
        if k < r {
            assert(grown[k] == pivots[k]);
            assert(pivots[i] < pivots[k]);
        }
    }
    assert forall|i: int, j: int| 0 <= i < r + 1 && 0 <= j < grown[i] implies #[trigger] next[i][j]
        == 0real by {
        if i < r {
            assert(grown[i] == pivots[i]);
            assert(t[i] == a[i]);
            assert(a[i][j] == 0real);
        }
    }
    assert forall|i: int| 0 <= i < r + 1 implies (#[trigger] next[i])[grown[i]] == 1real by {
        if i < r {
            assert(grown[i] == pivots[i]);
            assert(t[i] == a[i]);
            assert(a[i][pivots[i]] == 1real);
            assert(next[i][pivots[i]] == t[i][pivots[i]]);
        }
    }
    assert forall|i: int, k: int| 0 <= i < r + 1 && 0 <= k < rows && k != i implies (
    #[trigger] next[k])[#[trigger] grown[i]] == 0real by {
        if i < r {
            assert(grown[i] == pivots[i]);
            let source = if k == r {
                p
            } else if k == p {
                r
            } else {
                k
            };
            assert(t[k] == a[source]);
            assert(a[source][pivots[i]] == 0real);
            assert(next[k][pivots[i]] == (if k == r {
                0real
            } else {
                t[k][pivots[i]]
            }));
        }
    }
    assert forall|i: int, j: int| r + 1 <= i < rows && 0 <= j < at + 1 implies #[trigger] next[i][j]
        == 0real by {
        if j < at {
            let source = if i == p {
                r
            } else {
                i
            };
            assert(t[i] == a[source]);
            assert(a[source][j] == 0real);
        }
    }
}

/// Under exact arithmetic, elimination that has come as far as row `r` and
/// column `lead` ends in reduced row-echelon form, of the shape it began
/// with.
proof fn lemma_elimination_reduces<K: Scalar>(
    value: spec_fn(K) -> real,
    m: Seq<Seq<K>>,
    r: int,
    lead: int,
    pivots: Seq<int>,
    rows: nat,
    cols: nat,
)
    requires
        exact_under(value),
        has_shape(m, rows, cols),
        echelon_up_to(cell_values(value, m), r, lead, pivots, rows, cols),
    ensures
        reduced_echelon(row_echelon_from(m, r, lead)),
        has_shape(row_echelon_from(m, r, lead), rows, cols),
    decreases rows - r,
{
    let a = cell_values(value, m);
    if r >= rows {
        lemma_finished_is_reduced(value, m, r, lead, pivots, rows, cols);
    } else {
        assert(m[0].len() == cols);
        let at = pivot_column(m, r, lead);
        lemma_pivot_column(m, r, lead);
        assert forall|i: int, j: int| r <= i < rows && lead <= j < at implies #[trigger] a[i][j]
            == 0real by {
            assert(m[i].len() == cols);
            assert(is_zero(m[i][j]));
        }
        if at >= cols {
            lemma_finished_is_reduced(value, m, r, lead, pivots, rows, cols);
        } else {
            let p = first_nonzero_row(m, r, at);
            lemma_first_nonzero_row(m, r, at);
            assert(m[p].len() == cols);
            assert(a[p][at] == value(m[p][at]));
            lemma_step_value(value, m, m, r, p, at, rows, cols, cols);
            lemma_step_extends_echelon(a, r, lead, p, at, pivots, rows, cols);
            lemma_elimination_reduces(
                value,
                pivoted(m, r, p, at),
                r + 1,
                at + 1,
                pivots.push(at),
                rows,
                cols,
            );
        }
    }
}

/// Under exact arithmetic the result of Gauss-Jordan elimination is in
/// reduced row-echelon form and has the shape of the matrix it began with.
pub proof fn lemma_row_echelon_is_reduced<K: Scalar>(value: spec_fn(K) -> real, m: Seq<Seq<K>>)
    requires
        exact_under(value),
        rectangular(m),
    ensures
        reduced_echelon(row_echelon_spec(m)),
        has_shape(row_echelon_spec(m), m.len(), col_count(m)),
{
    lemma_elimination_reduces(value, m, 0, 0, Seq::<int>::empty(), m.len(), col_count(m));
}

} // verus!
