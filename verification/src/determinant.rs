use vstd::prelude::*;
use crate::matrix::Matrix;
use crate::scalar::Scalar;

verus! {

/// The square matrix `m` without its first row and without column `col`.
pub open spec fn minor<K>(m: Seq<Seq<K>>, col: int) -> Seq<Seq<K>> {
    Seq::new(
        (m.len() - 1) as nat,
        |i: int|
            Seq::new(
                (m.len() - 1) as nat,
                |j: int|
                    if j < col {
                        m[i + 1][j]
                    } else {
                        m[i + 1][j + 1]
                    },
            ),
    )
}

/// The determinant of a square matrix of two or more rows by cofactor
/// expansion along the first row: for two rows the difference of the two
/// diagonal products, for more the alternating sum of the first row's
/// entries times the determinants of their minors.
pub open spec fn cofactor_det<K: Scalar>(m: Seq<Seq<K>>) -> K
    decreases m.len(), m.len(),
{
    if m.len() < 2 {
        K::zero_spec()
    } else if m.len() == 2 {
        m[0][0].mul_spec(m[1][1]).sub_spec(m[0][1].mul_spec(m[1][0]))
    } else {
        expansion(m, m.len() - 1)
    }
}

/// The cofactor expansion along the first row up to and including column
/// `col`: the terms of the even columns are added and those of the odd
/// columns taken away, from the left.
pub open spec fn expansion<K: Scalar>(m: Seq<Seq<K>>, col: int) -> K
    decreases m.len(), col,
{
    if m.len() < 3 || col < 0 {
        K::zero_spec()
    } else {
        let term = m[0][col].mul_spec(cofactor_det(minor(m, col)));
        if col == 0 {
            term
        } else if col % 2 == 1 {
            expansion(m, col - 1).sub_spec(term)
        } else {
            expansion(m, col - 1).add_spec(term)
        }
    }
}

/// One row of a fraction-free elimination step with the pivot in column
/// `k`: each entry after column `k` becomes the pivot times the entry,
/// minus the row's entry in column `k` times the pivot row's entry, and that
/// divided by `divisor` where there is one.
pub open spec fn bareiss_row<K: Scalar>(
    row: Seq<K>,
    pivot_row: Seq<K>,
    k: int,
    divisor: Option<K>,
) -> Seq<K> {
    Seq::new(
        row.len(),
        |j: int|
            if j <= k {
                row[j]
            } else {
                let value = pivot_row[k].mul_spec(row[j]).sub_spec(row[k].mul_spec(pivot_row[j]));
                match divisor {
                    Some(d) => value.div_spec(d),
                    None => value,
                }
            },
    )
}

/// The divisor of elimination step `k`: the pivot of the step before, and
/// none for the first step.
pub open spec fn bareiss_divisor<K: Scalar>(m: Seq<Seq<K>>, k: int) -> Option<K> {
    if k == 0 {
        None
    } else {
        Some(m[k - 1][k - 1])
    }
}

/// Fraction-free elimination step `k`, on every row below row `k`.
pub open spec fn bareiss_step<K: Scalar>(m: Seq<Seq<K>>, k: int) -> Seq<Seq<K>> {
    Seq::new(
        m.len(),
        |i: int|
            if i <= k {
                m[i]
            } else {
                bareiss_row(m[i], m[k], k, bareiss_divisor(m, k))
            },
    )
}

/// The determinant by fraction-free elimination from step `k` on, where
/// `sign` keeps count of the row exchanges made so far. A pivot that is zero
/// changes places with the earliest row below it that is not zero in the
/// pivot's column, which turns the sign; where there is no such row the
/// determinant is zero. In the end the last diagonal entry, times the sign,
/// is the determinant.
pub open spec fn bareiss_from<K: Scalar>(m: Seq<Seq<K>>, k: int, sign: K) -> K
    decreases m.len() - k,
{
    if k < 0 || k + 1 >= m.len() {
        sign.mul_spec(m[m.len() - 1][m.len() - 1])
    } else if !crate::scalar::is_zero(m[k][k]) {
        bareiss_from(bareiss_step(m, k), k + 1, sign)
    } else {
        let p = crate::elimination::first_nonzero_row(m, k + 1, k);
        if p >= m.len() {
            K::zero_spec()
        } else {
            bareiss_from(bareiss_step(crate::elimination::swapped(m, p, k), k), k + 1, sign.neg_spec())
        }
    }
}

/// The determinant: zero for a matrix that is not square or has no rows,
/// the only entry of a matrix of one row, the cofactor expansion for two to
/// four rows, and the result of fraction-free elimination for more.
pub open spec fn determinant_spec<K: Scalar>(m: Seq<Seq<K>>) -> K {
    if m.len() != crate::matrix::col_count(m) || m.len() == 0 {
        K::zero_spec()
    } else if m.len() == 1 {
        m[0][0]
    } else if m.len() <= 4 {
        cofactor_det(m)
    } else {
        bareiss_from(m, 0, K::one_spec())
    }
}

/// The minor of `grid` for its first row and column `col`.
fn minor_of<K: Scalar>(grid: &Vec<Vec<K>>, col: usize) -> (r: Vec<Vec<K>>)
    requires
        2 <= grid@.len(),
        col < grid@.len(),
        crate::matrix::has_shape(crate::matrix::rows_of(grid@), grid@.len() as nat, grid@.len() as nat),
    ensures
        crate::matrix::rows_of(r@) == minor(crate::matrix::rows_of(grid@), col as int),
        r@.len() == grid@.len() - 1,
        crate::matrix::has_shape(
            crate::matrix::rows_of(r@),
            (grid@.len() - 1) as nat,
            (grid@.len() - 1) as nat,
        ),
{
    let ghost m = crate::matrix::rows_of(grid@);
    let size = grid.len();
    let mut r: Vec<Vec<K>> = Vec::with_capacity(size - 1);
    let mut i: usize = 1;
    while i < size
        invariant
            1 <= i <= size,
            col < size,
            size == grid@.len(),
            m == crate::matrix::rows_of(grid@),
            crate::matrix::has_shape(m, size as nat, size as nat),
            r@.len() == i - 1,
            forall|k: int| 0 <= k < i - 1 ==> (#[trigger] r@[k])@ == minor(m, col as int)[k],
        decreases size - i,
    {
        assert(m[i as int].len() == size);
        let mut line: Vec<K> = Vec::with_capacity(size - 1);
        let mut j: usize = 0;
        while j < size
            invariant
                j <= size,
                col < size,
                1 <= i < size,
                size == grid@.len(),
                grid@[i as int]@.len() == size,
                line@.len() == (if j <= col {
                    j as int
                } else {
                    j - 1
                }),
                forall|c: int| 0 <= c < j && c < col ==> line@[c] == grid@[i as int]@[c],
                forall|c: int| col < c < j ==> line@[c - 1] == grid@[i as int]@[c],
            decreases size - j,
        {
            if j != col {
                line.push(grid[i][j]);
            }
            j += 1;
        }
        assert(line@ =~= minor(m, col as int)[i - 1]);
        r.push(line);
        i += 1;
    }
    assert(crate::matrix::rows_of(r@) =~= minor(m, col as int));
    r
}

/// The determinant of a square grid of two or more rows by cofactor
/// expansion along the first row.
fn cofactor_of<K: Scalar>(grid: &Vec<Vec<K>>) -> (r: K)
    requires
        2 <= grid@.len(),
        crate::matrix::has_shape(crate::matrix::rows_of(grid@), grid@.len() as nat, grid@.len() as nat),
    ensures
        r == cofactor_det(crate::matrix::rows_of(grid@)),
    decreases grid@.len(),
{
    let ghost m = crate::matrix::rows_of(grid@);
    let size = grid.len();
    assert(m[0].len() == size && m[1].len() == size);
    if size == 2 {
        return grid[0][0].mul(grid[1][1]).sub(grid[0][1].mul(grid[1][0]));
    }
    let first = minor_of(grid, 0);
    let mut result = grid[0][0].mul(cofactor_of(&first));
    let mut col: usize = 1;
    while col < size
        invariant
            1 <= col <= size,
            3 <= size,
            size == grid@.len(),
            m == crate::matrix::rows_of(grid@),
            crate::matrix::has_shape(m, size as nat, size as nat),
            result == expansion(m, col - 1),
        decreases size - col,
    {
        assert(m[0].len() == size);
        let part = minor_of(grid, col);
        let term = grid[0][col].mul(cofactor_of(&part));
        if col % 2 == 1 {
            result = result.sub(term);
        } else {
            result = result.add(term);
        }
        col += 1;
    }
    result
}

/// One row of fraction-free elimination step `k`.
fn eliminate_row<K: Scalar>(row: &mut Vec<K>, pivot_row: &Vec<K>, k: usize, divisor: Option<K>)
    requires
        old(row)@.len() == pivot_row@.len(),
        k < pivot_row@.len(),
    ensures
        final(row)@ == bareiss_row(old(row)@, pivot_row@, k as int, divisor),
{
    let size = row.len();
    let pivot = pivot_row[k];
    let own = row[k];
    let mut j: usize = k + 1;
    while j < size
        invariant
            k < j <= size,
            row@.len() == size,
            old(row)@.len() == size,
            pivot_row@.len() == size,
            pivot == pivot_row@[k as int],
            own == old(row)@[k as int],
            forall|c: int| 0 <= c <= k ==> row@[c] == old(row)@[c],
            forall|c: int| k < c < j ==> row@[c] == bareiss_row(old(row)@, pivot_row@, k as int, divisor)[c],
            forall|c: int| j <= c < size ==> row@[c] == old(row)@[c],
        decreases size - j,
    {
        let mut value = pivot.mul(row[j]).sub(own.mul(pivot_row[j]));
        match divisor {
            Some(d) => {
                value = value.div(d);
            },
            None => {},
        }
        row[j] = value;
        j += 1;
    }
    assert(row@ =~= bareiss_row(old(row)@, pivot_row@, k as int, divisor));
}

/// Fraction-free elimination step `k` on every row of `grid` below row `k`.
fn eliminate_below<K: Scalar>(grid: &mut Vec<Vec<K>>, k: usize)
    requires
        k + 1 < old(grid)@.len(),
        crate::matrix::has_shape(
            crate::matrix::rows_of(old(grid)@),
            old(grid)@.len() as nat,
            old(grid)@.len() as nat,
        ),
    ensures
        crate::matrix::rows_of(final(grid)@) == bareiss_step(
            crate::matrix::rows_of(old(grid)@),
            k as int,
        ),
        final(grid)@.len() == old(grid)@.len(),
{
    let ghost m = crate::matrix::rows_of(grid@);
    let size = grid.len();
    assert(m[k as int].len() == size);
    let divisor = if k == 0 {
        None
    } else {
        assert(m[k - 1].len() == size);
        Some(grid[k - 1][k - 1])
    };
    let pivot_row = crate::vector::copy_of(&grid[k]);
    let mut i: usize = k + 1;
    while i < size
        invariant
            k < i <= size,
            grid@.len() == size,
            crate::matrix::has_shape(m, size as nat, size as nat),
            pivot_row@ == m[k as int],
            divisor == bareiss_divisor(m, k as int),
            forall|r: int| 0 <= r <= k ==> (#[trigger] grid@[r])@ == m[r],
            forall|r: int|
                k < r < i ==> (#[trigger] grid@[r])@ == bareiss_row(
                    m[r],
                    pivot_row@,
                    k as int,
                    divisor,
                ),
            forall|r: int| i <= r < size ==> (#[trigger] grid@[r])@ == m[r],
        decreases size - i,
    {
        assert(m[i as int].len() == size);
        assert(m[k as int].len() == size);
        eliminate_row(&mut grid[i], &pivot_row, k, divisor);
        i += 1;
    }
    assert(crate::matrix::rows_of(grid@) =~= bareiss_step(m, k as int));
}

/// The determinant of a square grid by fraction-free elimination.
fn bareiss_of<K: Scalar>(source: Vec<Vec<K>>) -> (r: K)
    requires
        1 <= source@.len(),
        crate::matrix::has_shape(
            crate::matrix::rows_of(source@),
            source@.len() as nat,
            source@.len() as nat,
        ),
    ensures
        r == bareiss_from(crate::matrix::rows_of(source@), 0, K::one_spec()),
{
    let ghost start = crate::matrix::rows_of(source@);
    let mut grid = source;
    let size = grid.len();
    let mut sign = K::one();
    let mut k: usize = 0;
    while k + 1 < size
        invariant
            k < size,
            grid@.len() == size,
            start == crate::matrix::rows_of(source@),
            crate::matrix::has_shape(crate::matrix::rows_of(grid@), size as nat, size as nat),
            bareiss_from(crate::matrix::rows_of(grid@), k as int, sign) == bareiss_from(
                start,
                0,
                K::one_spec(),
            ),
        decreases size - k,
    {
        let ghost m = crate::matrix::rows_of(grid@);
        assert(m[k as int].len() == size);
        if grid[k][k].equals(K::zero()) {
            assert forall|i: int| 0 <= i < grid@.len() implies k < (#[trigger] grid@[i])@.len() by {
                assert(m[i].len() == size);
            }
            let p = crate::elimination::find_nonzero_row(&grid, k + 1, k);
            if p >= size {
                assert(bareiss_from(m, k as int, sign) == K::zero_spec());
                return K::zero();
            }
            crate::elimination::swap_rows(&mut grid, p, k);
            sign = sign.neg();
            assert(crate::matrix::has_shape(
                crate::elimination::swapped(m, p as int, k as int),
                size as nat,
                size as nat,
            ));
        }
        let ghost s = crate::matrix::rows_of(grid@);
        eliminate_below(&mut grid, k);
        assert(crate::matrix::has_shape(bareiss_step(s, k as int), size as nat, size as nat)) by {
            assert forall|i: int| 0 <= i < size implies (#[trigger] bareiss_step(s, k as int)[i]).len()
                == size by {
                assert(s[i].len() == size);
            }
        }
        k += 1;
    }
    let ghost m = crate::matrix::rows_of(grid@);
    assert(m[size - 1].len() == size);
    sign.mul(grid[size - 1][size - 1])
}

impl<K: Scalar> Matrix<K> {
    /// The determinant of a square matrix: the only entry for one row, the
    /// cofactor expansion along the first row for two to four rows, and
    /// fraction-free elimination for more. Zero for a matrix that is not
    /// square or has no rows.
    pub fn determinant(&self) -> (r: K)
        ensures
            r == determinant_spec(self@),
    {
        let shape = self.shape();
        let rows = shape[0];
        let cols = shape[1];
        if rows != cols || rows == 0 {
            return K::zero();
        }
        let grid = self.to_grid();
        let ghost m = crate::matrix::rows_of(grid@);
        assert(m[0].len() == rows);
        if rows == 1 {
            return grid[0][0];
        }
        if rows <= 4 {
            return cofactor_of(&grid);
        }
        bareiss_of(grid)
    }
}

} // verus!
