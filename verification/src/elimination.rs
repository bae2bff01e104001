use vstd::prelude::*;
use crate::error::Error;
use crate::matrix::Matrix;
use crate::scalar::Scalar;

verus! {

/// The index of the earliest row of `m`, at or after `from`, whose entry in
/// column `lead` is not zero; the number of rows where there is none.
pub open spec fn first_nonzero_row<K: Scalar>(m: Seq<Seq<K>>, from: int, lead: int) -> int
    decreases m.len() - from,
{
    if from < 0 || from >= m.len() {
        m.len() as int
    } else if !crate::scalar::is_zero(m[from][lead]) {
        from
    } else {
        first_nonzero_row(m, from + 1, lead)
    }
}

/// The earliest column of `m`, at or after `lead`, that has an entry other
/// than zero in row `r` or below; the number of columns where there is none.
pub open spec fn pivot_column<K: Scalar>(m: Seq<Seq<K>>, r: int, lead: int) -> int
    decreases crate::matrix::col_count(m) - lead,
{
    if lead < 0 || lead >= crate::matrix::col_count(m) {
        crate::matrix::col_count(m) as int
    } else if first_nonzero_row(m, r, lead) < m.len() {
        lead
    } else {
        pivot_column(m, r, lead + 1)
    }
}

/// `m` with rows `i` and `j` exchanged.
pub open spec fn swapped<K>(m: Seq<Seq<K>>, i: int, j: int) -> Seq<Seq<K>> {
    Seq::new(
        m.len(),
        |k: int|
            if k == i {
                m[j]
            } else if k == j {
                m[i]
            } else {
                m[k]
            },
    )
}

/// Every item of `row` divided by `by`.
pub open spec fn divided<K: Scalar>(row: Seq<K>, by: K) -> Seq<K> {
    Seq::new(row.len(), |j: int| row[j].div_spec(by))
}

/// `row` minus `factor` times `pivot_row`, item by item.
pub open spec fn reduced_by<K: Scalar>(row: Seq<K>, factor: K, pivot_row: Seq<K>) -> Seq<K> {
    Seq::new(row.len(), |j: int| row[j].sub_spec(factor.mul_spec(pivot_row[j])))
}

/// One Gauss-Jordan step on `c`, steered by `factors`, one number for each
/// row: rows `p` and `r` change places, the new row `r` is divided by its
/// factor, and every other row loses its factor times the row `r` so made.
pub open spec fn stepped<K: Scalar>(c: Seq<Seq<K>>, factors: Seq<K>, r: int, p: int) -> Seq<
    Seq<K>,
> {
    let t = swapped(c, p, r);
    let pivot_row = divided(t[r], factors[r]);
    Seq::new(
        c.len(),
        |i: int|
            if i == r {
                pivot_row
            } else {
                reduced_by(t[i], factors[i], pivot_row)
            },
    )
}

/// The factors that steer the step which makes the entry of `guide` in row
/// `p` and column `lead` the pivot of row `r`: column `lead` of `guide` once
/// rows `p` and `r` have changed places.
pub open spec fn pivot_factors<K: Scalar>(guide: Seq<Seq<K>>, r: int, p: int, lead: int) -> Seq<K> {
    crate::matrix::column(swapped(guide, p, r), lead)
}

/// One Gauss-Jordan step carried out on `c` with the numbers of `guide`,
/// whose entry in row `p` and column `lead` becomes the pivot of row `r`.
pub open spec fn carried<K: Scalar>(
    c: Seq<Seq<K>>,
    guide: Seq<Seq<K>>,
    r: int,
    p: int,
    lead: int,
) -> Seq<Seq<K>> {
    stepped(c, pivot_factors(guide, r, p, lead), r, p)
}

/// One Gauss-Jordan step on `m` itself: afterwards the pivot is one and the
/// rest of column `lead` is cleared.
pub open spec fn pivoted<K: Scalar>(m: Seq<Seq<K>>, r: int, p: int, lead: int) -> Seq<Seq<K>> {
    carried(m, m, r, p, lead)
}

/// Gauss-Jordan elimination of `m` from row `r` on, with pivots sought from
/// column `lead` on: in each row the earliest column that still has an
/// entry other than zero at or below that row gives the pivot, taken from
/// the earliest such row. It stops where the rows or the columns run out.
pub open spec fn row_echelon_from<K: Scalar>(m: Seq<Seq<K>>, r: int, lead: int) -> Seq<Seq<K>>
    decreases m.len() - r,
{
    if r < 0 || r >= m.len() {
        m
    } else {
        let l = pivot_column(m, r, lead);
        if l >= crate::matrix::col_count(m) {
            m
        } else {
            row_echelon_from(pivoted(m, r, first_nonzero_row(m, r, l), l), r + 1, l + 1)
        }
    }
}

/// The reduced row-echelon form of `m`.
pub open spec fn row_echelon_spec<K: Scalar>(m: Seq<Seq<K>>) -> Seq<Seq<K>> {
    row_echelon_from(m, 0, 0)
}

/// Gauss-Jordan inversion from row `r` on: `m` is what is left to reduce and
/// `c` is the companion that started as the identity and took every step
/// with it. The pivot of row `r` is sought in column `r`; where that column
/// has only zeros at and below row `r` there is no inverse.
pub open spec fn inverse_from<K: Scalar>(m: Seq<Seq<K>>, c: Seq<Seq<K>>, r: int) -> Option<
    Seq<Seq<K>>,
>
    decreases m.len() - r,
{
    if r < 0 || r >= m.len() {
        Some(c)
    } else {
        let p = first_nonzero_row(m, r, r);
        if p >= m.len() {
            None
        } else {
            inverse_from(pivoted(m, r, p, r), carried(c, m, r, p, r), r + 1)
        }
    }
}

/// What inversion gives: the empty matrix for a matrix that is not square or
/// has no rows, the matrix itself where it has one row, and otherwise the
/// companion of Gauss-Jordan elimination or the news that `m` is singular.
pub open spec fn inverse_spec<K: Scalar>(m: Seq<Seq<K>>) -> Result<Seq<Seq<K>>, Error> {
    if m.len() != crate::matrix::col_count(m) || m.len() == 0 {
        Ok(Seq::empty())
    } else if m.len() == 1 {
        Ok(m)
    } else {
        match inverse_from(m, crate::matrix::identity_spec(m.len(), K::one_spec()), 0) {
            Some(c) => Ok(c),
            None => Err(Error::SingularMatrix),
        }
    }
}

/// Where [`first_nonzero_row`] lies: at or after the row where the search
/// began; on a row whose entry is not zero, where it lies within the matrix;
/// and after rows whose entries are all zero.
pub proof fn lemma_first_nonzero_row<K: Scalar>(m: Seq<Seq<K>>, from: int, lead: int)
    requires
        0 <= from <= m.len(),
    ensures
        from <= first_nonzero_row(m, from, lead) <= m.len(),
        first_nonzero_row(m, from, lead) < m.len() ==> !crate::scalar::is_zero(
            m[first_nonzero_row(m, from, lead)][lead],
        ),
        forall|i: int|
            from <= i < first_nonzero_row(m, from, lead) ==> crate::scalar::is_zero(
                (#[trigger] m[i])[lead],
            ),
    decreases m.len() - from,
{
    if from < m.len() && crate::scalar::is_zero(m[from][lead]) {
        lemma_first_nonzero_row(m, from + 1, lead);
    }
}

/// Where [`pivot_column`] lies: at or after the column where the search
/// began; on a column that has an entry other than zero in row `r` or below,
/// where it lies within the matrix; and after columns that hold only zeros
/// there.
pub proof fn lemma_pivot_column<K: Scalar>(m: Seq<Seq<K>>, r: int, lead: int)
    requires
        0 <= r <= m.len(),
        0 <= lead <= crate::matrix::col_count(m),
    ensures
        lead <= pivot_column(m, r, lead) <= crate::matrix::col_count(m),
        pivot_column(m, r, lead) < crate::matrix::col_count(m) ==> first_nonzero_row(
            m,
            r,
            pivot_column(m, r, lead),
        ) < m.len(),
        forall|i: int, j: int|
            r <= i < m.len() && lead <= j < pivot_column(m, r, lead) ==> crate::scalar::is_zero(
                #[trigger] m[i][j],
            ),
    decreases crate::matrix::col_count(m) - lead,
{
    if lead < crate::matrix::col_count(m) && first_nonzero_row(m, r, lead) >= m.len() {
        lemma_first_nonzero_row(m, r, lead);
        lemma_pivot_column(m, r, lead + 1);
    }
}

/// A Gauss-Jordan step keeps the shape of what it is carried out on.
pub proof fn lemma_carried_shape<K: Scalar>(
    c: Seq<Seq<K>>,
    guide: Seq<Seq<K>>,
    r: int,
    p: int,
    lead: int,
    rows: nat,
    cols: nat,
)
    requires
        crate::matrix::has_shape(c, rows, cols),
        0 <= r < rows,
        0 <= p < rows,
    ensures
        crate::matrix::has_shape(carried(c, guide, r, p, lead), rows, cols),
{
}

/// Exchanges rows `i` and `j` of `grid`.
pub(crate) fn swap_rows<K: Scalar>(grid: &mut Vec<Vec<K>>, i: usize, j: usize)
    requires
        i < old(grid)@.len(),
        j < old(grid)@.len(),
    ensures
        final(grid)@.len() == old(grid)@.len(),
        crate::matrix::rows_of(final(grid)@) == swapped(crate::matrix::rows_of(old(grid)@), i as int, j as int),
{
    if i != j {
        let low = if i < j {
            i
        } else {
            j
        };
        let high = if i < j {
            j
        } else {
            i
        };
        let (head, tail) = grid.as_mut_slice().split_at_mut(high);
        core::mem::swap(&mut head[low], &mut tail[0]);
    }
    assert(crate::matrix::rows_of(grid@) =~= swapped(
        crate::matrix::rows_of(old(grid)@),
        i as int,
        j as int,
    ));
}

/// Divides every item of `row` by `by`.
pub(crate) fn divide_row<K: Scalar>(row: &mut Vec<K>, by: K)
    ensures
        final(row)@ == divided(old(row)@, by),
{
    let size = row.len();
    let mut j: usize = 0;
    while j < size
        invariant
            j <= size,
            row@.len() == size,
            old(row)@.len() == size,
            forall|k: int| 0 <= k < j ==> row@[k] == old(row)@[k].div_spec(by),
            forall|k: int| j <= k < size ==> row@[k] == old(row)@[k],
        decreases size - j,
    {
        let value = row[j].div(by);
        row[j] = value;
        j += 1;
    }
    assert(row@ =~= divided(old(row)@, by));
}

/// Takes `factor` times `pivot_row` away from `row`, item by item.
pub(crate) fn reduce_row<K: Scalar>(row: &mut Vec<K>, factor: K, pivot_row: &Vec<K>)
    requires
        old(row)@.len() == pivot_row@.len(),
    ensures
        final(row)@ == reduced_by(old(row)@, factor, pivot_row@),
{
    let size = row.len();
    let mut j: usize = 0;
    while j < size
        invariant
            j <= size,
            row@.len() == size,
            old(row)@.len() == size,
            pivot_row@.len() == size,
            forall|k: int| 0 <= k < j ==> row@[k] == old(row)@[k].sub_spec(factor.mul_spec(pivot_row@[k])),
            forall|k: int| j <= k < size ==> row@[k] == old(row)@[k],
        decreases size - j,
    {
        let value = row[j].sub(factor.mul(pivot_row[j]));
        row[j] = value;
        j += 1;
    }
    assert(row@ =~= reduced_by(old(row)@, factor, pivot_row@));
}

/// The earliest row at or after `from` whose entry in column `lead` is not
/// zero; the number of rows where there is none.
pub(crate) fn find_nonzero_row<K: Scalar>(grid: &Vec<Vec<K>>, from: usize, lead: usize) -> (p: usize)
    requires
        forall|i: int| 0 <= i < grid@.len() ==> lead < (#[trigger] grid@[i])@.len(),
    ensures
        p == first_nonzero_row(crate::matrix::rows_of(grid@), from as int, lead as int),
        from <= p <= grid@.len() || (p == grid@.len() && from > p),
{
    let ghost m = crate::matrix::rows_of(grid@);
    let rows = grid.len();
    let mut i: usize = from;
    while i < rows
        invariant
            from <= i,
            rows == grid@.len(),
            m == crate::matrix::rows_of(grid@),
            forall|k: int| 0 <= k < grid@.len() ==> lead < (#[trigger] grid@[k])@.len(),
            first_nonzero_row(m, from as int, lead as int) == first_nonzero_row(m, i as int, lead as int),
        decreases rows - i,
    {
        if !grid[i][lead].equals(K::zero()) {
            return i;
        }
        i += 1;
    }
    rows
}

/// The pivot for row `r`: the earliest column at or after `lead` with an
/// entry other than zero at or below row `r`, and the earliest such row.
pub(crate) fn find_pivot<K: Scalar>(grid: &Vec<Vec<K>>, r: usize, lead: usize, cols: usize) -> (found:
    Option<(usize, usize)>)
    requires
        r < grid@.len(),
        crate::matrix::has_shape(crate::matrix::rows_of(grid@), grid@.len() as nat, cols as nat),
    ensures
        ({
            let m = crate::matrix::rows_of(grid@);
            let l = pivot_column(m, r as int, lead as int);
            match found {
                Some((row, column)) => {
                    &&& column == l
                    &&& lead <= column < cols
                    &&& row == first_nonzero_row(m, r as int, l)
                    &&& r <= row < grid@.len()
                },
                None => l >= cols,
            }
        }),
{
    let ghost m = crate::matrix::rows_of(grid@);
    let rows = grid.len();
    assert(m[0].len() == cols);
    let mut l: usize = lead;
    while l < cols
        invariant
            lead <= l,
            r < rows,
            rows == grid@.len(),
            m == crate::matrix::rows_of(grid@),
            crate::matrix::has_shape(m, rows as nat, cols as nat),
            crate::matrix::col_count(m) == cols,
            pivot_column(m, r as int, lead as int) == pivot_column(m, r as int, l as int),
        decreases cols - l,
    {
        assert forall|i: int| 0 <= i < grid@.len() implies l < (#[trigger] grid@[i])@.len() by {
            assert(m[i].len() == cols);
        }
        let p = find_nonzero_row(grid, r, l);
        if p < rows {
            return Some((p, l));
        }
        l += 1;
    }
    None
}

/// Column `lead` of `grid` as it stands once rows `p` and `r` have changed
/// places.
pub(crate) fn factors_of<K: Scalar>(grid: &Vec<Vec<K>>, r: usize, p: usize, lead: usize) -> (factors:
    Vec<K>)
    requires
        r < grid@.len(),
        p < grid@.len(),
        forall|i: int| 0 <= i < grid@.len() ==> lead < (#[trigger] grid@[i])@.len(),
    ensures
        factors@ == pivot_factors(crate::matrix::rows_of(grid@), r as int, p as int, lead as int),
{
    let ghost s = swapped(crate::matrix::rows_of(grid@), p as int, r as int);
    let rows = grid.len();
    let mut factors: Vec<K> = Vec::with_capacity(rows);
    let mut i: usize = 0;
    while i < rows
        invariant
            i <= rows,
            r < rows,
            p < rows,
            rows == grid@.len(),
            s == swapped(crate::matrix::rows_of(grid@), p as int, r as int),
            forall|k: int| 0 <= k < grid@.len() ==> lead < (#[trigger] grid@[k])@.len(),
            factors@.len() == i,
            forall|k: int| 0 <= k < i ==> factors@[k] == s[k][lead as int],
        decreases rows - i,
    {
        let source = if i == r {
            p
        } else if i == p {
            r
        } else {
            i
        };
        factors.push(grid[source][lead]);
        i += 1;
    }
    assert(factors@ =~= crate::matrix::column(s, lead as int));
    factors
}

/// Carries out one Gauss-Jordan step on `target`, steered by `factors`.
pub(crate) fn carry_step<K: Scalar>(target: &mut Vec<Vec<K>>, factors: &Vec<K>, r: usize, p: usize)
    requires
        r < old(target)@.len(),
        p < old(target)@.len(),
        factors@.len() == old(target)@.len(),
        crate::matrix::rectangular(crate::matrix::rows_of(old(target)@)),
    ensures
        crate::matrix::rows_of(final(target)@) == stepped(
            crate::matrix::rows_of(old(target)@),
            factors@,
            r as int,
            p as int,
        ),
{
    let ghost c = crate::matrix::rows_of(target@);
    let ghost t = swapped(c, p as int, r as int);
    let rows = target.len();
    assert(c[r as int].len() == c[0].len() && c[p as int].len() == c[0].len());
    swap_rows(target, p, r);
    assert(forall|k: int| 0 <= k < rows ==> (#[trigger] target@[k])@ == t[k]) by {
        assert(forall|k: int| 0 <= k < rows ==> crate::matrix::rows_of(target@)[k] == target@[k]@);
    }
    divide_row(&mut target[r], factors[r]);
    let pivot_row = crate::vector::copy_of(&target[r]);
    let mut i: usize = 0;
    while i < rows
        invariant
            i <= rows,
            r < rows,
            target@.len() == rows,
            factors@.len() == rows,
            t.len() == rows,
            forall|k: int| 0 <= k < rows ==> (#[trigger] t[k]).len() == pivot_row@.len(),
            pivot_row@ == divided(t[r as int], factors@[r as int]),
            target@[r as int]@ == pivot_row@,
            forall|k: int|
                0 <= k < i && k != r ==> (#[trigger] target@[k])@ == reduced_by(
                    t[k],
                    factors@[k],
                    pivot_row@,
                ),
            forall|k: int| i <= k < rows && k != r ==> (#[trigger] target@[k])@ == t[k],
        decreases rows - i,
    {
        if i != r {
            assert(t[i as int].len() == pivot_row@.len());
            reduce_row(&mut target[i], factors[i], &pivot_row);
        }
        i += 1;
    }
    assert(crate::matrix::rows_of(target@) =~= stepped(c, factors@, r as int, p as int));
}

impl<K: Scalar> Matrix<K> {
    /// The reduced row-echelon form, by Gauss-Jordan elimination: each
    /// pivot is the first entry other than zero, from the current row down,
    /// in the first column that has one; its row moves up, is divided by the
    /// pivot, and clears the pivot's column in every other row.
    pub fn row_echelon(&self) -> (r: Matrix<K>)
        ensures
            r@ == row_echelon_spec(self@),
            crate::matrix::has_shape(r@, self@.len(), crate::matrix::col_count(self@)),
    {
        let shape = self.shape();
        let rows = shape[0];
        let cols = shape[1];
        let mut grid = self.to_grid();
        let mut lead: usize = 0;
        let mut r: usize = 0;
        while r < rows
            invariant
                r <= rows,
                lead <= cols,
                rows == self@.len(),
                cols == crate::matrix::col_count(self@),
                grid@.len() == rows,
                crate::matrix::has_shape(crate::matrix::rows_of(grid@), rows as nat, cols as nat),
                row_echelon_from(crate::matrix::rows_of(grid@), r as int, lead as int)
                    == row_echelon_spec(self@),
            decreases rows - r,
        {
            let ghost m = crate::matrix::rows_of(grid@);
            assert(m[0].len() == cols);
            match find_pivot(&grid, r, lead, cols) {
                None => {
                    return Matrix::from_grid(grid);
                },
                Some((p, l)) => {
                    proof {
                        lemma_carried_shape(m, m, r as int, p as int, l as int, rows as nat, cols as nat);
                        assert forall|i: int| 0 <= i < grid@.len() implies l < (
                        #[trigger] grid@[i])@.len() by {
                            assert(m[i].len() == cols);
                        }
                    }
                    let factors = factors_of(&grid, r, p, l);
                    carry_step(&mut grid, &factors, r, p);
                    lead = l + 1;
                    r += 1;
                },
            }
        }
        Matrix::from_grid(grid)
    }

    /// The inverse, by Gauss-Jordan elimination on the matrix beside an
    /// identity matrix that takes every step with it. A matrix that is not
    /// square, or has no rows, gives the empty matrix; a matrix of one row
    /// gives itself. Where a column has only zeros at and below the
    /// diagonal the matrix is singular.
    pub fn inverse(&self) -> (r: Result<Matrix<K>, Error>)
        ensures
            r is Ok <==> inverse_spec(self@) is Ok,
            r is Ok ==> r->Ok_0@ == inverse_spec(self@)->Ok_0,
            r is Ok && 0 < self@.len() == crate::matrix::col_count(self@)
                ==> crate::matrix::has_shape(r->Ok_0@, self@.len(), self@.len()),
            r is Err ==> r->Err_0 == Error::SingularMatrix,
    {
        let shape = self.shape();
        let rows = shape[0];
        let cols = shape[1];
        if rows != cols || rows < 1 {
            return Ok(Matrix::new([0, 0]));
        }
        if rows < 2 {
            return Ok(self.clone());
        }
        let mut reduced = self.to_grid();
        let mut unit = Matrix::identity(rows, K::one());
        let mut companion = unit.take_rows();
        let mut r: usize = 0;
        while r < rows
            invariant
                r <= rows,
                2 <= rows,
                self@.len() == rows,
                crate::matrix::col_count(self@) == rows,
                reduced@.len() == rows,
                companion@.len() == rows,
                crate::matrix::has_shape(crate::matrix::rows_of(reduced@), rows as nat, rows as nat),
                crate::matrix::has_shape(crate::matrix::rows_of(companion@), rows as nat, rows as nat),
                inverse_from(
                    crate::matrix::rows_of(reduced@),
                    crate::matrix::rows_of(companion@),
                    r as int,
                ) == inverse_from(
                    self@,
                    crate::matrix::identity_spec(rows as nat, K::one_spec()),
                    0,
                ),
            decreases rows - r,
        {
            let ghost m = crate::matrix::rows_of(reduced@);
            let ghost c = crate::matrix::rows_of(companion@);
            assert forall|i: int| 0 <= i < reduced@.len() implies r < (#[trigger] reduced@[i])@.len() by {
                assert(m[i].len() == rows);
            }
            let p = find_nonzero_row(&reduced, r, r);
            if p >= rows {
                assert(inverse_from(m, c, r as int) is None);
                return Err(Error::SingularMatrix);
            }
            proof {
                lemma_carried_shape(m, m, r as int, p as int, r as int, rows as nat, rows as nat);
                lemma_carried_shape(c, m, r as int, p as int, r as int, rows as nat, rows as nat);
            }
            let factors = factors_of(&reduced, r, p, r);
            carry_step(&mut reduced, &factors, r, p);
            carry_step(&mut companion, &factors, r, p);
            r += 1;
        }
        Ok(Matrix::from_grid(companion))
    }

    /// The reduced row-echelon form; another name for [`Matrix::row_echelon`].
    pub fn reduced_row_echelon(&self) -> (r: Matrix<K>)
        ensures
            r@ == row_echelon_spec(self@),
            crate::matrix::has_shape(r@, self@.len(), crate::matrix::col_count(self@)),
    {
        self.row_echelon()
    }
}

} // verus!
