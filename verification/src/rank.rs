use vstd::prelude::*;
use crate::matrix::Matrix;
use crate::scalar::Scalar;

verus! {

/// Among the rows `from` up to but not including `upto`, the row whose entry
/// in column `k` has the largest absolute value; of several such rows, the
/// earliest. It is `from` where the range holds no row.
pub open spec fn largest_row<K: Scalar>(m: Seq<Seq<K>>, from: int, upto: int, k: int) -> int
    decreases upto - from,
{
    if upto <= from + 1 {
        from
    } else {
        let best = largest_row(m, from, upto - 1, k);
        if m[best][k].abs_spec().less_than_spec(m[upto - 1][k].abs_spec()) {
            upto - 1
        } else {
            best
        }
    }
}

/// `row` with column `k` cleared by `pivot_row`: the entries before column
/// `k` stay, the entry in column `k` becomes zero, and each later entry
/// loses the pivot row's entry times the quotient of the two entries in
/// column `k`.
pub open spec fn cleared<K: Scalar>(row: Seq<K>, pivot_row: Seq<K>, k: int) -> Seq<K> {
    Seq::new(
        row.len(),
        |j: int|
            if j < k {
                row[j]
            } else if j == k {
                K::zero_spec()
            } else {
                row[j].sub_spec(pivot_row[j].mul_spec(row[k].div_spec(pivot_row[k])))
            },
    )
}

/// `m` with column `k` cleared by row `h` in every row below it.
pub open spec fn cleared_below<K: Scalar>(m: Seq<Seq<K>>, h: int, k: int) -> Seq<Seq<K>> {
    Seq::new(
        m.len(),
        |i: int|
            if i <= h {
                m[i]
            } else {
                cleared(m[i], m[h], k)
            },
    )
}

/// Gaussian elimination with partial pivoting, from row `h` and column `k`
/// on, and the number of pivots found in the end. In each column the row of
/// largest absolute value at or below row `h` offers the pivot; where that
/// is zero the column is passed over, else the row moves up to `h` and
/// clears the column below it.
pub open spec fn rank_from<K: Scalar>(m: Seq<Seq<K>>, h: int, k: int) -> int
    decreases m.len() - h, crate::matrix::col_count(m) - k,
{
    if h < 0 || k < 0 || h >= m.len() || k >= crate::matrix::col_count(m) {
        h
    } else {
        let p = largest_row(m, h, m.len() as int, k);
        if crate::scalar::is_zero(m[p][k]) {
            rank_from(m, h, k + 1)
        } else {
            rank_from(cleared_below(crate::elimination::swapped(m, h, p), h, k), h + 1, k + 1)
        }
    }
}

/// The rank of `m`: the number of pivots that elimination finds.
pub open spec fn rank_spec<K: Scalar>(m: Seq<Seq<K>>) -> int {
    rank_from(m, 0, 0)
}

/// Clears column `k` of `row` by `pivot_row`.
fn clear_row<K: Scalar>(row: &mut Vec<K>, pivot_row: &Vec<K>, k: usize)
    requires
        old(row)@.len() == pivot_row@.len(),
        k < pivot_row@.len(),
    ensures
        final(row)@ == cleared(old(row)@, pivot_row@, k as int),
{
    let size = row.len();
    let factor = row[k].div(pivot_row[k]);
    row[k] = K::zero();
    let mut j: usize = k + 1;
    while j < size
        invariant
            k < j <= size,
            row@.len() == size,
            old(row)@.len() == size,
            pivot_row@.len() == size,
            factor == old(row)@[k as int].div_spec(pivot_row@[k as int]),
            forall|c: int| 0 <= c < k ==> row@[c] == old(row)@[c],
            row@[k as int] == K::zero_spec(),
            forall|c: int| k < c < j ==> row@[c] == old(row)@[c].sub_spec(pivot_row@[c].mul_spec(factor)),
            forall|c: int| j <= c < size ==> row@[c] == old(row)@[c],
        decreases size - j,
    {
        let value = row[j].sub(pivot_row[j].mul(factor));
        row[j] = value;
        j += 1;
    }
    assert(row@ =~= cleared(old(row)@, pivot_row@, k as int));
}

/// Among the rows from `h` down, the earliest whose entry in column `k` has
/// the largest absolute value.
fn find_largest_row<K: Scalar>(grid: &Vec<Vec<K>>, h: usize, k: usize) -> (best: usize)
    requires
        h < grid@.len(),
        forall|i: int| 0 <= i < grid@.len() ==> k < (#[trigger] grid@[i])@.len(),
    ensures
        best == largest_row(crate::matrix::rows_of(grid@), h as int, grid@.len() as int, k as int),
        h <= best < grid@.len(),
{
    let ghost m = crate::matrix::rows_of(grid@);
    let rows = grid.len();
    let mut best: usize = h;
    let mut i: usize = h + 1;
    while i < rows
        invariant
            h < i <= rows,
            h <= best < i,
            rows == grid@.len(),
            m == crate::matrix::rows_of(grid@),
            forall|r: int| 0 <= r < grid@.len() ==> k < (#[trigger] grid@[r])@.len(),
            best == largest_row(m, h as int, i as int, k as int),
        decreases rows - i,
    {
        if grid[best][k].abs().less_than(grid[i][k].abs()) {
            best = i;
        }
        i += 1;
    }
    best
}

/// Clears column `k` below row `h` by row `h`.
fn clear_below<K: Scalar>(grid: &mut Vec<Vec<K>>, h: usize, k: usize)
    requires
        h < old(grid)@.len(),
        crate::matrix::rectangular(crate::matrix::rows_of(old(grid)@)),
        k < old(grid)@[0]@.len(),
    ensures
        crate::matrix::rows_of(final(grid)@) == cleared_below(
            crate::matrix::rows_of(old(grid)@),
            h as int,
            k as int,
        ),
{
    let ghost m = crate::matrix::rows_of(grid@);
    let rows = grid.len();
    assert(forall|i: int| 0 <= i < rows ==> (#[trigger] m[i]).len() == m[0].len());
    assert(m[h as int].len() == m[0].len());
    let pivot_row = crate::vector::copy_of(&grid[h]);
    let mut i: usize = h + 1;
    while i < rows
        invariant
            h < i <= rows,
            grid@.len() == rows,
            m.len() == rows,
            pivot_row@ == m[h as int],
            k < pivot_row@.len(),
            forall|r: int| 0 <= r < rows ==> (#[trigger] m[r]).len() == pivot_row@.len(),
            forall|r: int| 0 <= r <= h ==> (#[trigger] grid@[r])@ == m[r],
            forall|r: int| h < r < i ==> (#[trigger] grid@[r])@ == cleared(m[r], pivot_row@, k as int),
            forall|r: int| i <= r < rows ==> (#[trigger] grid@[r])@ == m[r],
        decreases rows - i,
    {
        assert(m[i as int].len() == pivot_row@.len());
        clear_row(&mut grid[i], &pivot_row, k);
        i += 1;
    }
    assert(crate::matrix::rows_of(grid@) =~= cleared_below(m, h as int, k as int));
}

impl<K: Scalar> Matrix<K> {
    /// The rank, by Gaussian elimination with partial pivoting: the number
    /// of columns in which a pivot other than zero was found.
    pub fn rank(&self) -> (r: usize)
        ensures
            r == rank_spec(self@),
            r <= self@.len(),
            r <= crate::matrix::col_count(self@),
    {
        let shape = self.shape();
        let rows = shape[0];
        let cols = shape[1];
        let mut grid = self.to_grid();
        let mut h: usize = 0;
        let mut k: usize = 0;
        while h < rows && k < cols
            invariant
                h <= rows,
                h <= k <= cols,
                grid@.len() == rows,
                crate::matrix::has_shape(crate::matrix::rows_of(grid@), rows as nat, cols as nat),
                rank_from(crate::matrix::rows_of(grid@), h as int, k as int) == rank_spec(self@),
            decreases cols - k,
        {
            let ghost m = crate::matrix::rows_of(grid@);
            assert(m[0].len() == cols);
            assert forall|i: int| 0 <= i < grid@.len() implies k < (#[trigger] grid@[i])@.len() by {
                assert(m[i].len() == cols);
            }
            let p = find_largest_row(&grid, h, k);
            if grid[p][k].equals(K::zero()) {
                k += 1;
            } else {
                crate::elimination::swap_rows(&mut grid, h, p);
                let ghost s = crate::elimination::swapped(m, h as int, p as int);
                assert(crate::matrix::has_shape(s, rows as nat, cols as nat));
                assert(grid@[0]@ == s[0]);
                clear_below(&mut grid, h, k);
                assert(crate::matrix::has_shape(
                    cleared_below(s, h as int, k as int),
                    rows as nat,
                    cols as nat,
                ));
                h += 1;
                k += 1;
            }
        }
        proof {
            let m = crate::matrix::rows_of(grid@);
            if rows > 0 {
                assert(m[0].len() == cols);
            }
        }
        h
    }
}

/// The row that [`largest_row`] picks lies in the range it was picked from.
pub proof fn lemma_largest_row_in_range<K: Scalar>(m: Seq<Seq<K>>, from: int, upto: int, k: int)
    requires
        from < upto,
    ensures
        from <= largest_row(m, from, upto, k) < upto,
    decreases upto - from,
{
    if upto > from + 1 {
        lemma_largest_row_in_range(m, from, upto - 1, k);
    }
}

/// Whether every cell of `m` is zero, by the scalar's own equality.
pub open spec fn all_zero<K: Scalar>(m: Seq<Seq<K>>) -> bool {
    forall|i: int, j: int|
        0 <= i < m.len() && 0 <= j < m[i].len() ==> crate::scalar::is_zero(#[trigger] m[i][j])
}

/// Elimination finds no pivot in a matrix of zeros, whatever row and column
/// it starts from.
proof fn lemma_no_pivot_among_zeros<K: Scalar>(m: Seq<Seq<K>>, h: int, k: int)
    requires
        crate::matrix::rectangular(m),
        all_zero(m),
        0 <= h,
        0 <= k,
    ensures
        rank_from(m, h, k) == h,
    decreases crate::matrix::col_count(m) - k,
{
    if h < m.len() && k < crate::matrix::col_count(m) {
        let p = largest_row(m, h, m.len() as int, k);
        lemma_largest_row_in_range(m, h, m.len() as int, k);
        assert(m[p].len() == m[0].len());
        assert(crate::scalar::is_zero(m[p][k]));
        lemma_no_pivot_among_zeros(m, h, k + 1);
    }
}

/// The rank of a matrix of zeros is zero.
pub proof fn lemma_rank_of_zeros<K: Scalar>(m: Seq<Seq<K>>)
    requires
        crate::matrix::rectangular(m),
        all_zero(m),
    ensures
        rank_spec(m) == 0,
{
    lemma_no_pivot_among_zeros(m, 0, 0);
}

/// Whether the scalar's arithmetic treats its zero and its one as numbers
/// do, as far as elimination of an identity matrix needs it: zero divided by
/// one, zero times zero and zero minus zero are zero, one minus zero is one,
/// one is not zero, and the absolute value of one is not below that of zero.
/// Rounding arithmetic meets this as exact arithmetic does.
pub open spec fn zero_and_one_behave<K: Scalar>() -> bool {
    let zero = K::zero_spec();
    let one = K::one_spec();
    &&& zero.div_spec(one) == zero
    &&& zero.mul_spec(zero) == zero
    &&& zero.sub_spec(zero) == zero
    &&& one.sub_spec(zero) == one
    &&& !one.equals_spec(zero)
    &&& !one.abs_spec().less_than_spec(zero.abs_spec())
}

/// In an identity matrix the diagonal entry is the largest of its column
/// from the diagonal down.
proof fn lemma_diagonal_is_largest<K: Scalar>(size: nat, h: int, upto: int)
    requires
        zero_and_one_behave::<K>(),
        0 <= h < upto <= size,
    ensures
        largest_row(crate::matrix::identity_spec(size, K::one_spec()), h, upto, h) == h,
    decreases upto - h,
{
    if upto > h + 1 {
        lemma_diagonal_is_largest::<K>(size, h, upto - 1);
    }
}

/// Elimination leaves an identity matrix as it is and finds a pivot in
/// every row.
proof fn lemma_identity_keeps_its_pivots<K: Scalar>(size: nat, h: int)
    requires
        zero_and_one_behave::<K>(),
        0 <= h <= size,
    ensures
        rank_from(crate::matrix::identity_spec(size, K::one_spec()), h, h) == size,
    decreases size - h,
{
    let unit = crate::matrix::identity_spec(size, K::one_spec());
    if h < size {
        assert(unit[0].len() == size);
        lemma_diagonal_is_largest::<K>(size, h, size as int);
        assert(crate::elimination::swapped(unit, h, h) =~= unit);
        let next = cleared_below(unit, h, h);
        assert(next =~= unit) by {
            assert forall|i: int| 0 <= i < size implies #[trigger] next[i] =~= unit[i] by {}
        }
        lemma_identity_keeps_its_pivots::<K>(size, h + 1);
    }
}

/// The rank of the identity matrix is its size, where the scalar's zero and
/// one behave as numbers do.
pub proof fn lemma_rank_of_identity<K: Scalar>(size: nat)
    requires
        zero_and_one_behave::<K>(),
    ensures
        rank_spec(crate::matrix::identity_spec(size, K::one_spec())) == size,
{
    lemma_identity_keeps_its_pivots::<K>(size, 0);
}

} // verus!
