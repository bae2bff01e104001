use vstd::prelude::*;
use crate::determinant::minor;
use crate::elimination::swapped;
use crate::matrix::has_shape;
use crate::real_arith::{lemma_mul_distributes, lemma_mul_regroups};

verus! {

/// The determinant of a square matrix of real numbers with two or more
/// rows, by cofactor expansion along the first row.
pub open spec fn det(a: Seq<Seq<real>>) -> real
    decreases a.len(), a.len(),
{
    if a.len() < 2 {
        0real
    } else if a.len() == 2 {
        a[0][0] * a[1][1] - a[0][1] * a[1][0]
    } else {
        expansion(a, a.len() - 1)
    }
}

/// The cofactor expansion along the first row up to and including column
/// `col`.
pub open spec fn expansion(a: Seq<Seq<real>>, col: int) -> real
    decreases a.len(), col,
{
    if a.len() < 3 || col < 0 {
        0real
    } else {
        let term = a[0][col] * det(minor(a, col));
        if col == 0 {
            term
        } else if col % 2 == 1 {
            expansion(a, col - 1) - term
        } else {
            expansion(a, col - 1) + term
        }
    }
}

/// Whether `a`, `b` and `c` are square matrices of `n` rows that differ in
/// row `i` at most, where `c` holds the row of `a` minus `t` times the row
/// of `b`.
pub open spec fn combines(
    a: Seq<Seq<real>>,
    b: Seq<Seq<real>>,
    c: Seq<Seq<real>>,
    i: int,
    t: real,
    n: nat,
) -> bool {
    &&& has_shape(a, n, n)
    &&& has_shape(b, n, n)
    &&& has_shape(c, n, n)
    &&& 0 <= i < n
    &&& forall|r: int| 0 <= r < n && r != i ==> a[r] == #[trigger] c[r] && b[r] == c[r]
    &&& forall|j: int| 0 <= j < n ==> #[trigger] c[i][j] == a[i][j] - t * b[i][j]
}

/// The minors of three matrices that combine in a row below the first
/// combine in the row above it.
proof fn lemma_minors_combine(
    a: Seq<Seq<real>>,
    b: Seq<Seq<real>>,
    c: Seq<Seq<real>>,
    i: int,
    t: real,
    n: nat,
    col: int,
)
    requires
        combines(a, b, c, i, t, n),
        n >= 3,
        1 <= i,
        0 <= col < n,
    ensures
        combines(minor(a, col), minor(b, col), minor(c, col), i - 1, t, (n - 1) as nat),
{
    let ma = minor(a, col);
    let mb = minor(b, col);
    let mc = minor(c, col);
    assert forall|r: int| 0 <= r < n - 1 && r != i - 1 implies ma[r] == #[trigger] mc[r] && mb[r]
        == mc[r] by {
        assert(a[r + 1] == c[r + 1] && b[r + 1] == c[r + 1]);
        assert(ma[r] =~= mc[r]);
        assert(mb[r] =~= mc[r]);
    }
    assert forall|j: int| 0 <= j < n - 1 implies #[trigger] mc[i - 1][j] == ma[i - 1][j] - t * mb[i
        - 1][j] by {
        if j < col {
            assert(c[i][j] == a[i][j] - t * b[i][j]);
        } else {
            assert(c[i][j + 1] == a[i][j + 1] - t * b[i][j + 1]);
        }
    }
}

/// The determinant is linear in each row: where three matrices differ in
/// one row only, and that row of the third is the row of the first minus a
/// multiple of the row of the second, the determinants combine in the same
/// way.
pub proof fn lemma_det_combines(
    a: Seq<Seq<real>>,
    b: Seq<Seq<real>>,
    c: Seq<Seq<real>>,
    i: int,
    t: real,
    n: nat,
)
    requires
        combines(a, b, c, i, t, n),
        n >= 2,
    ensures
        det(c) == det(a) - t * det(b),
    decreases n, n + 1,
{
    if n == 2 {
        if i == 0 {
            assert(a[1] == c[1] && b[1] == c[1]);
            assert(c[0][0] == a[0][0] - t * b[0][0]);
            assert(c[0][1] == a[0][1] - t * b[0][1]);
            lemma_mul_distributes(a[0][0], t * b[0][0], c[1][1]);
            lemma_mul_distributes(a[0][1], t * b[0][1], c[1][0]);
            lemma_mul_regroups(t, b[0][0], c[1][1]);
            lemma_mul_regroups(t, b[0][1], c[1][0]);
            lemma_mul_distributes(b[0][0] * c[1][1], b[0][1] * c[1][0], t);
        } else {
            assert(a[0] == c[0] && b[0] == c[0]);
            assert(c[1][0] == a[1][0] - t * b[1][0]);
            assert(c[1][1] == a[1][1] - t * b[1][1]);
            lemma_mul_distributes(a[1][1], t * b[1][1], c[0][0]);
            lemma_mul_distributes(a[1][0], t * b[1][0], c[0][1]);
            lemma_mul_regroups(c[0][0], t, b[1][1]);
            lemma_mul_regroups(c[0][1], t, b[1][0]);
            lemma_mul_distributes(c[0][0] * b[1][1], c[0][1] * b[1][0], t);
        }
    } else {
        lemma_expansion_combines(a, b, c, i, t, n, n - 1);
    }
}

/// The cofactor expansions of three matrices that combine in a row combine
/// in the same way, up to any column.
proof fn lemma_expansion_combines(
    a: Seq<Seq<real>>,
    b: Seq<Seq<real>>,
    c: Seq<Seq<real>>,
    i: int,
    t: real,
    n: nat,
    col: int,
)
    requires
        combines(a, b, c, i, t, n),
        n >= 3,
        0 <= col < n,
    ensures
        expansion(c, col) == expansion(a, col) - t * expansion(b, col),
    decreases n, col,
{
    let ta = a[0][col] * det(minor(a, col));
    let tb = b[0][col] * det(minor(b, col));
    let tc = c[0][col] * det(minor(c, col));
    assert(tc == ta - t * tb) by {
        if i == 0 {
            assert(minor(c, col) =~= minor(a, col)) by {
                assert forall|r: int| 0 <= r < n - 1 implies #[trigger] minor(c, col)[r] =~= minor(
                    a,
                    col,
                )[r] by {
                    assert(a[r + 1] == c[r + 1]);
                }
            }
            assert(minor(c, col) =~= minor(b, col)) by {
                assert forall|r: int| 0 <= r < n - 1 implies #[trigger] minor(c, col)[r] =~= minor(
                    b,
                    col,
                )[r] by {
                    assert(b[r + 1] == c[r + 1]);
                }
            }
            let d = det(minor(c, col));
            assert(c[0][col] == a[0][col] - t * b[0][col]);
            lemma_mul_distributes(a[0][col], t * b[0][col], d);
            lemma_mul_regroups(t, b[0][col], d);
        } else {
            lemma_minors_combine(a, b, c, i, t, n, col);
            lemma_det_combines(
                minor(a, col),
                minor(b, col),
                minor(c, col),
                i - 1,
                t,
                (n - 1) as nat,
            );
            assert(a[0] == c[0] && b[0] == c[0]);
            let x = c[0][col];
            let da = det(minor(a, col));
            let db = det(minor(b, col));
            lemma_mul_distributes(da, t * db, x);
            lemma_mul_regroups(x, t, db);
        }
    }
    if col > 0 {
        lemma_expansion_combines(a, b, c, i, t, n, col - 1);
        let ea = expansion(a, col - 1);
        let eb = expansion(b, col - 1);
        lemma_mul_distributes(eb, tb, t);
    }
}

/// The term of column `col` in the cofactor expansion of `a`, without its
/// sign.
pub open spec fn term(a: Seq<Seq<real>>, col: int) -> real {
    a[0][col] * det(minor(a, col))
}

/// An expansion whose terms after the first are all zero is its first term.
pub proof fn lemma_expansion_of_first_term(a: Seq<Seq<real>>, col: int)
    requires
        a.len() >= 3,
        0 <= col,
        forall|j: int| 1 <= j <= col ==> #[trigger] term(a, j) == 0real,
    ensures
        expansion(a, col) == term(a, 0),
    decreases col,
{
    if col > 0 {
        lemma_expansion_of_first_term(a, col - 1);
        assert(term(a, col) == 0real);
    }
}

/// The determinant of a matrix of three rows, written out.
pub proof fn lemma_det_of_three(a: Seq<Seq<real>>)
    requires
        has_shape(a, 3, 3),
    ensures
        det(a) == a[0][0] * (a[1][1] * a[2][2] - a[1][2] * a[2][1]) - a[0][1] * (a[1][0] * a[2][2]
            - a[1][2] * a[2][0]) + a[0][2] * (a[1][0] * a[2][1] - a[1][1] * a[2][0]),
{
    reveal_with_fuel(expansion, 3);
    assert(det(a) == expansion(a, 2));
    assert(det(minor(a, 0)) == a[1][1] * a[2][2] - a[1][2] * a[2][1]);
    assert(det(minor(a, 1)) == a[1][0] * a[2][2] - a[1][2] * a[2][0]);
    assert(det(minor(a, 2)) == a[1][0] * a[2][1] - a[1][1] * a[2][0]);
}

/// The determinant of the two lowest rows of a matrix of four rows, taken
/// in the columns `p` and `q`.
pub open spec fn floor_det(a: Seq<Seq<real>>, p: int, q: int) -> real {
    a[2][p] * a[3][q] - a[2][q] * a[3][p]
}

/// The determinant of a matrix of four rows, written out in its two upper
/// rows and the determinants of its two lower ones.
pub proof fn lemma_det_of_four(a: Seq<Seq<real>>)
    requires
        has_shape(a, 4, 4),
    ensures
        det(a) == a[0][0] * (a[1][1] * floor_det(a, 2, 3) - a[1][2] * floor_det(a, 1, 3) + a[1][3]
            * floor_det(a, 1, 2)) - a[0][1] * (a[1][0] * floor_det(a, 2, 3) - a[1][2] * floor_det(
            a,
            0,
            3,
        ) + a[1][3] * floor_det(a, 0, 2)) + a[0][2] * (a[1][0] * floor_det(a, 1, 3) - a[1][1]
            * floor_det(a, 0, 3) + a[1][3] * floor_det(a, 0, 1)) - a[0][3] * (a[1][0] * floor_det(
            a,
            1,
            2,
        ) - a[1][1] * floor_det(a, 0, 2) + a[1][2] * floor_det(a, 0, 1)),
{
    reveal_with_fuel(expansion, 4);
    assert(det(a) == expansion(a, 3));
    lemma_det_of_three(minor(a, 0));
    lemma_det_of_three(minor(a, 1));
    lemma_det_of_three(minor(a, 2));
    lemma_det_of_three(minor(a, 3));
}

/// A factor spreads over an alternating sum of three terms.
proof fn lemma_mul_alternating(x: real, p: real, q: real, r: real)
    ensures
        x * (p - q + r) == x * p - x * q + x * r,
{
    lemma_mul_distributes(p - q, r, x);
    lemma_mul_distributes(p, q, x);
}

/// A matrix of three rows whose two upper rows are equal has the
/// determinant zero.
proof fn lemma_twin_rows_of_three(a: Seq<Seq<real>>)
    requires
        has_shape(a, 3, 3),
        a[0] == a[1],
    ensures
        det(a) == 0real,
{
    lemma_det_of_three(a);
    let x0 = a[0][0];
    let x1 = a[0][1];
    let x2 = a[0][2];
    let g0 = a[2][0];
    let g1 = a[2][1];
    let g2 = a[2][2];
    lemma_mul_distributes(x1 * g2, x2 * g1, x0);
    lemma_mul_distributes(x0 * g2, x2 * g0, x1);
    lemma_mul_distributes(x0 * g1, x1 * g0, x2);
    lemma_mul_regroups(x0, x1, g2);
    lemma_mul_regroups(x0, x2, g1);
    lemma_mul_regroups(x1, x2, g0);
}

/// A matrix of four rows whose two upper rows are equal has the
/// determinant zero.
proof fn lemma_twin_rows_of_four(a: Seq<Seq<real>>)
    requires
        has_shape(a, 4, 4),
        a[0] == a[1],
    ensures
        det(a) == 0real,
{
    lemma_det_of_four(a);
    let x0 = a[0][0];
    let x1 = a[0][1];
    let x2 = a[0][2];
    let x3 = a[0][3];
    let e01 = floor_det(a, 0, 1);
    let e02 = floor_det(a, 0, 2);
    let e03 = floor_det(a, 0, 3);
    let e12 = floor_det(a, 1, 2);
    let e13 = floor_det(a, 1, 3);
    let e23 = floor_det(a, 2, 3);
    lemma_mul_alternating(x0, x1 * e23, x2 * e13, x3 * e12);
    lemma_mul_alternating(x1, x0 * e23, x2 * e03, x3 * e02);
    lemma_mul_alternating(x2, x0 * e13, x1 * e03, x3 * e01);
    lemma_mul_alternating(x3, x0 * e12, x1 * e02, x2 * e01);
    lemma_mul_regroups(x0, x1, e23);
    lemma_mul_regroups(x0, x2, e13);
    lemma_mul_regroups(x0, x3, e12);
    lemma_mul_regroups(x1, x2, e03);
    lemma_mul_regroups(x1, x3, e02);
    lemma_mul_regroups(x2, x3, e01);
}

/// Exchanging two rows turns the sign of the determinant, for matrices of
/// two to four rows.
pub proof fn lemma_det_swap(a: Seq<Seq<real>>, i: int, k: int, n: nat)
    requires
        has_shape(a, n, n),
        2 <= n <= 4,
        0 <= i < n,
        0 <= k < n,
        i != k,
    ensures
        det(swapped(a, i, k)) == -det(a),
    decreases n, 4int, 0int,
{
    let s = swapped(a, i, k);
    if n == 2 {
        assert(s[0] == a[1] && s[1] == a[0]);
    } else if i >= 1 && k >= 1 {
        lemma_swap_lower(a, i, k, n);
    } else {
        let other = if i == 0 {
            k
        } else {
            i
        };
        assert(s =~= swapped(a, 0, other));
        lemma_swap_with_first(a, other, n);
    }
}

/// Exchanging two rows below the first turns the sign of the determinant.
proof fn lemma_swap_lower(a: Seq<Seq<real>>, i: int, k: int, n: nat)
    requires
        has_shape(a, n, n),
        3 <= n <= 4,
        1 <= i < n,
        1 <= k < n,
        i != k,
    ensures
        det(swapped(a, i, k)) == -det(a),
    decreases n, 1int, 0int,
{
    lemma_expansion_swaps(a, i, k, n, n - 1);
}

/// Exchanging two rows below the first turns the sign of the cofactor
/// expansion, up to any column.
proof fn lemma_expansion_swaps(a: Seq<Seq<real>>, i: int, k: int, n: nat, col: int)
    requires
        has_shape(a, n, n),
        3 <= n <= 4,
        1 <= i < n,
        1 <= k < n,
        i != k,
        0 <= col < n,
    ensures
        expansion(swapped(a, i, k), col) == -expansion(a, col),
    decreases n, 0int, col,
{
    let s = swapped(a, i, k);
    let part = minor(a, col);
    assert(minor(s, col) =~= swapped(part, i - 1, k - 1)) by {
        assert forall|r: int| 0 <= r < n - 1 implies #[trigger] minor(s, col)[r] =~= swapped(
            part,
            i - 1,
            k - 1,
        )[r] by {}
    }
    lemma_det_swap(part, i - 1, k - 1, (n - 1) as nat);
    lemma_mul_distributes(0real, det(part), a[0][col]);
    assert(term(s, col) == -term(a, col));
    if col > 0 {
        lemma_expansion_swaps(a, i, k, n, col - 1);
    }
}

/// A matrix with two equal rows below the first has the determinant zero.
proof fn lemma_equal_lower(a: Seq<Seq<real>>, i: int, k: int, n: nat)
    requires
        has_shape(a, n, n),
        3 <= n <= 4,
        1 <= i < k < n,
        a[i] == a[k],
    ensures
        det(a) == 0real,
    decreases n, 1int, 0int,
{
    assert forall|j: int| 0 <= j <= n - 1 implies #[trigger] term(a, j) == 0real by {
        let part = minor(a, j);
        assert(part[i - 1] =~= part[k - 1]);
        lemma_det_equal_rows(part, i - 1, k - 1, (n - 1) as nat);
    }
    lemma_expansion_of_first_term(a, n - 1);
}

/// A matrix of two to four rows with two equal rows has the determinant
/// zero.
pub proof fn lemma_det_equal_rows(a: Seq<Seq<real>>, i: int, k: int, n: nat)
    requires
        has_shape(a, n, n),
        2 <= n <= 4,
        0 <= i < k < n,
        a[i] == a[k],
    ensures
        det(a) == 0real,
    decreases n, 2int, 0int,
{
    if n == 2 {
        assert(i == 0 && k == 1);
        assert(a[0][0] == a[1][0] && a[0][1] == a[1][1]);
    } else if i >= 1 {
        lemma_equal_lower(a, i, k, n);
    } else {
        let b = if k == 1 {
            a
        } else {
            swapped(a, 1, k)
        };
        if k != 1 {
            lemma_swap_lower(a, 1, k, n);
        }
        assert(b[0] == b[1]);
        assert(has_shape(b, n, n));
        if n == 3 {
            lemma_twin_rows_of_three(b);
        } else {
            lemma_twin_rows_of_four(b);
        }
    }
}

/// Exchanging the first row with another turns the sign of the
/// determinant: the matrix that holds the sum of the two rows in both
/// places has the determinant zero, and it is the sum of four determinants
/// of which two have equal rows.
proof fn lemma_swap_with_first(a: Seq<Seq<real>>, k: int, n: nat)
    requires
        has_shape(a, n, n),
        3 <= n <= 4,
        1 <= k < n,
    ensures
        det(swapped(a, 0, k)) == -det(a),
    decreases n, 3int, 0int,
{
    let u = a[0];
    let w = a[k];
    let both = Seq::new(n, |j: int| u[j] + w[j]);
    let p = a.update(0, both).update(k, both);
    let pu = a.update(k, both);
    let pw = a.update(0, w).update(k, both);
    let auu = a.update(k, u);
    let aww = a.update(0, w);
    let s = swapped(a, 0, k);
    let t = -1real;
    assert(s =~= a.update(0, w).update(k, u));

    assert(combines(pu, pw, p, 0, t, n));
    lemma_det_combines(pu, pw, p, 0, t, n);
    assert(combines(a, auu, pu, k, t, n));
    lemma_det_combines(a, auu, pu, k, t, n);
    assert(combines(aww, s, pw, k, t, n));
    lemma_det_combines(aww, s, pw, k, t, n);

    lemma_det_equal_rows(p, 0, k, n);
    lemma_det_equal_rows(auu, 0, k, n);
    lemma_det_equal_rows(aww, 0, k, n);
}

/// Whether the columns of `a` before column `r` are those of the identity
/// matrix: one on the diagonal, zero elsewhere.
pub open spec fn unit_columns(a: Seq<Seq<real>>, r: int, n: nat) -> bool {
    forall|i: int, j: int|
        0 <= i < n && 0 <= j < r ==> #[trigger] a[i][j] == (if i == j {
            1real
        } else {
            0real
        })
}

/// A matrix whose first `r` columns are those of the identity, and whose
/// column `r` is zero from the diagonal down, has the determinant zero.
pub proof fn lemma_det_of_stalled(a: Seq<Seq<real>>, r: int, n: nat)
    requires
        has_shape(a, n, n),
        n >= 2,
        0 <= r < n,
        unit_columns(a, r, n),
        forall|i: int| r <= i < n ==> (#[trigger] a[i])[r] == 0real,
    ensures
        det(a) == 0real,
    decreases n,
{
    if n == 2 {
        if r == 0 {
            assert(a[0][0] == 0real && a[1][0] == 0real);
        } else {
            assert(a[0][0] == 1real && a[1][0] == 0real && a[1][1] == 0real);
        }
    } else {
        assert forall|j: int| 0 <= j <= n - 1 implies #[trigger] term(a, j) == 0real by {
            let part = minor(a, j);
            let below = (n - 1) as nat;
            if r == 0 {
                if j == 0 {
                    assert(a[0][0] == 0real);
                } else {
                    assert forall|i: int| 0 <= i < below implies (#[trigger] part[i])[0]
                        == 0real by {
                        assert(a[i + 1][0] == 0real);
                    }
                    lemma_det_of_stalled(part, 0, below);
                }
            } else if j == 0 {
                assert(unit_columns(part, r - 1, below)) by {
                    assert forall|i: int, c: int| 0 <= i < below && 0 <= c < r - 1 implies #[trigger] part[i][c]
                        == (if i == c {
                        1real
                    } else {
                        0real
                    }) by {
                        assert(part[i][c] == a[i + 1][c + 1]);
                    }
                }
                assert forall|i: int| r - 1 <= i < below implies (#[trigger] part[i])[r - 1]
                    == 0real by {
                    assert(a[i + 1][r] == 0real);
                }
                lemma_det_of_stalled(part, r - 1, below);
            } else if j < r {
                assert(a[0][j] == 0real);
            } else {
                assert forall|i: int| 0 <= i < below implies (#[trigger] part[i])[0] == 0real by {
                    assert(a[i + 1][0] == 0real);
                }
                lemma_det_of_stalled(part, 0, below);
            }
        }
        lemma_expansion_of_first_term(a, n - 1);
    }
}

/// The identity matrix has the determinant one.
pub proof fn lemma_det_of_identity(a: Seq<Seq<real>>, n: nat)
    requires
        has_shape(a, n, n),
        n >= 2,
        unit_columns(a, n as int, n),
    ensures
        det(a) == 1real,
    decreases n,
{
    if n == 2 {
        assert(a[0][0] == 1real && a[1][0] == 0real && a[1][1] == 1real && a[0][1] == 0real);
    } else {
        let part = minor(a, 0);
        let below = (n - 1) as nat;
        assert(unit_columns(part, below as int, below)) by {
            assert forall|i: int, c: int| 0 <= i < below && 0 <= c < below implies #[trigger] part[i][c]
                == (if i == c {
                1real
            } else {
                0real
            }) by {
                assert(part[i][c] == a[i + 1][c + 1]);
            }
        }
        lemma_det_of_identity(part, below);
        assert(a[0][0] == 1real);
        assert forall|j: int| 1 <= j <= n - 1 implies #[trigger] term(a, j) == 0real by {
            assert(a[0][j] == 0real);
        }
        lemma_expansion_of_first_term(a, n - 1);
    }
}

/// Multiplying one row by a number multiplies the determinant by it.
pub proof fn lemma_det_scales(a: Seq<Seq<real>>, c: Seq<Seq<real>>, i: int, p: real, n: nat)
    requires
        has_shape(a, n, n),
        has_shape(c, n, n),
        n >= 2,
        0 <= i < n,
        forall|r: int| 0 <= r < n && r != i ==> #[trigger] a[r] == c[r],
        forall|j: int| 0 <= j < n ==> #[trigger] a[i][j] == p * c[i][j],
    ensures
        det(a) == p * det(c),
{
    let z = a.update(i, Seq::new(n, |j: int| 0real));
    assert(combines(z, z, z, i, 1real, n));
    lemma_det_combines(z, z, z, i, 1real, n);
    assert(combines(z, c, a, i, -p, n)) by {
        assert forall|j: int| 0 <= j < n implies #[trigger] a[i][j] == z[i][j] - (-p) * c[i][j] by {
            lemma_mul_distributes(0real, p, c[i][j]);
        }
    }
    lemma_det_combines(z, c, a, i, -p, n);
    lemma_mul_distributes(0real, p, det(c));
}

/// `a` with `fs[i]` times row `r` taken away from each row `i` before row
/// `upto`, but for row `r` itself.
pub open spec fn rows_reduced(a: Seq<Seq<real>>, r: int, fs: Seq<real>, upto: int) -> Seq<
    Seq<real>,
> {
    Seq::new(
        a.len(),
        |i: int|
            if i < upto && i != r {
                Seq::new(a[i].len(), |j: int| a[i][j] - fs[i] * a[r][j])
            } else {
                a[i]
            },
    )
}

/// Taking multiples of one row away from other rows keeps the determinant,
/// for matrices of two to four rows.
pub proof fn lemma_det_of_rows_reduced(a: Seq<Seq<real>>, r: int, fs: Seq<real>, upto: int, n: nat)
    requires
        has_shape(a, n, n),
        2 <= n <= 4,
        0 <= r < n,
        0 <= upto <= n,
    ensures
        det(rows_reduced(a, r, fs, upto)) == det(a),
    decreases upto,
{
    let now = rows_reduced(a, r, fs, upto);
    if upto == 0 {
        assert(now =~= a);
    } else {
        let row = upto - 1;
        let before = rows_reduced(a, r, fs, row);
        lemma_det_of_rows_reduced(a, r, fs, row, n);
        if row == r {
            assert(now =~= before);
        } else {
            let twin = before.update(row, before[r]);
            assert(before[r] == a[r]);
            assert(before[row] == a[row]);
            assert(combines(before, twin, now, row, fs[row], n));
            lemma_det_combines(before, twin, now, row, fs[row], n);
            if row < r {
                lemma_det_equal_rows(twin, row, r, n);
            } else {
                lemma_det_equal_rows(twin, r, row, n);
            }
        }
    }
}

} // verus!
