use vstd::prelude::*;
use crate::error::{Error, Shape};
use crate::matrix::Matrix;
use crate::scalar::Scalar;

verus! {

/// What a walk through `lines`, one line after the other, has still to
/// visit when it stands at position `offset` of line `line`.
pub open spec fn rest_of<T>(lines: Seq<Seq<T>>, line: int, offset: int) -> Seq<T> {
    if 0 <= line < lines.len() {
        lines[line].skip(offset) + lines.skip(line + 1).flatten()
    } else {
        Seq::empty()
    }
}

/// The cells of `m` column by column, each column from the top.
pub open spec fn column_major<K>(m: Seq<Seq<K>>) -> Seq<K> {
    crate::matrix::transposed(m).flatten()
}

/// The rows of two matrices side by side: cell (i, j) holds the two cells
/// (i, j) of `a` and `b`.
pub open spec fn paired<K>(a: Seq<Seq<K>>, b: Seq<Seq<K>>) -> Seq<Seq<(K, K)>> {
    Seq::new(a.len(), |i: int| Seq::new(a[i].len(), |j: int| (a[i][j], b[i][j])))
}

/// The pairs of cells of two matrices of one shape row by row, each row
/// from the left.
pub open spec fn row_major_pairs<K>(a: Seq<Seq<K>>, b: Seq<Seq<K>>) -> Seq<(K, K)> {
    paired(a, b).flatten()
}

/// A walk that starts at the first line has everything to visit.
pub proof fn lemma_rest_at_start<T>(lines: Seq<Seq<T>>)
    ensures
        rest_of(lines, 0, 0) == lines.flatten(),
{
    if lines.len() > 0 {
        assert(lines[0].skip(0) =~= lines.first());
        assert(lines.skip(1) =~= lines.drop_first());
    }
}

/// Lines without cells hold no cells between them.
pub proof fn lemma_flatten_empty_lines<T>(lines: Seq<Seq<T>>)
    requires
        forall|i: int| 0 <= i < lines.len() ==> (#[trigger] lines[i]).len() == 0,
    ensures
        lines.flatten().len() == 0,
    decreases lines.len(),
{
    if lines.len() > 0 {
        let tail = lines.drop_first();
        assert forall|i: int| 0 <= i < tail.len() implies (#[trigger] tail[i]).len() == 0 by {
            assert(tail[i] == lines[i + 1]);
        }
        lemma_flatten_empty_lines(tail);
    }
}

/// Visiting one cell takes it from the front of what is left, and moves the
/// walk to the next cell of the line or, at the end of a line, to the start
/// of the next line.
pub proof fn lemma_rest_step<T>(lines: Seq<Seq<T>>, line: int, offset: int)
    requires
        0 <= line < lines.len(),
        0 <= offset < lines[line].len(),
    ensures
        rest_of(lines, line, offset).len() > 0,
        rest_of(lines, line, offset)[0] == lines[line][offset],
        offset + 1 < lines[line].len() ==> rest_of(lines, line, offset + 1) == rest_of(
            lines,
            line,
            offset,
        ).skip(1),
        offset + 1 == lines[line].len() ==> rest_of(lines, line + 1, 0) == rest_of(
            lines,
            line,
            offset,
        ).skip(1),
{
    let here = rest_of(lines, line, offset);
    let tail = lines.skip(line + 1).flatten();
    assert(here.skip(1) =~= lines[line].skip(offset + 1) + tail);
    if offset + 1 == lines[line].len() {
        assert(lines[line].skip(offset + 1) =~= Seq::<T>::empty());
        assert(here.skip(1) =~= tail);
        if line + 1 < lines.len() {
            let after = lines.skip(line + 1);
            assert(after.first() == lines[line + 1]);
            assert(after.drop_first() =~= lines.skip(line + 2));
            assert(lines[line + 1].skip(0) =~= lines[line + 1]);
        } else {
            assert(lines.skip(line + 1) =~= Seq::<Seq<T>>::empty());
        }
    }
}

/// A walk through the cells of a matrix column by column, each column from
/// the top.
pub struct ColumnIterator<'a, K: Scalar> {
    matrix: &'a Matrix<K>,
    shape: [usize; 2],
    current_row: usize,
    current_column: usize,
}

impl<'a, K: Scalar> ColumnIterator<'a, K> {
    #[verifier::type_invariant]
    spec fn well_formed(self) -> bool {
        &&& crate::matrix::has_shape(self.matrix@, self.shape[0] as nat, self.shape[1] as nat)
        &&& self.current_column <= self.shape[1]
        &&& self.current_row < self.shape[0] || self.current_column == self.shape[1]
    }

    /// The cells that the walk has still to visit, in the order in which it
    /// will visit them.
    pub closed spec fn remaining(&self) -> Seq<K> {
        rest_of(
            crate::matrix::transposed(self.matrix@),
            self.current_column as int,
            self.current_row as int,
        )
    }

    /// The next cell, or nothing where every cell was visited.
    pub fn next(&mut self) -> (r: Option<K>)
        ensures
            old(self).remaining().len() == 0 ==> r is None && final(self).remaining().len() == 0,
            old(self).remaining().len() > 0 ==> r == Some(old(self).remaining()[0])
                && final(self).remaining() == old(self).remaining().skip(1),
    {
        proof {
            use_type_invariant(&*self);
        }
        let ghost lines = crate::matrix::transposed(self.matrix@);
        let rows = self.shape[0];
        let cols = self.shape[1];
        proof {
            if rows > 0 {
                assert(self.matrix@[0].len() == cols);
            }
        }
        if rows == 0 || cols == 0 {
            return None;
        }
        if self.current_column >= cols {
            return None;
        }
        let row = self.current_row;
        let column = self.current_column;
        let cells = self.matrix.all();
        proof {
            assert(self.matrix@[row as int].len() == cols);
            assert(self.matrix@[row as int] == cells@[row as int]@);
            assert(lines[column as int].len() == rows);
            lemma_rest_step(lines, column as int, row as int);
        }
        let value = cells[row][column];
        if row + 1 >= rows {
            *self = ColumnIterator {
                matrix: self.matrix,
                shape: self.shape,
                current_row: 0,
                current_column: column + 1,
            };
        } else {
            *self = ColumnIterator {
                matrix: self.matrix,
                shape: self.shape,
                current_row: row + 1,
                current_column: column,
            };
        }
        Some(value)
    }
}

/// A walk through the cells of two matrices of one shape at once, row by
/// row, each row from the left.
pub struct TupleIterator<'a, K: Scalar> {
    matrix_a: &'a Matrix<K>,
    matrix_b: &'a Matrix<K>,
    shape: [usize; 2],
    current_row: usize,
    current_column: usize,
}

impl<'a, K: Scalar> TupleIterator<'a, K> {
    #[verifier::type_invariant]
    spec fn well_formed(self) -> bool {
        &&& crate::matrix::has_shape(self.matrix_a@, self.shape[0] as nat, self.shape[1] as nat)
        &&& crate::matrix::has_shape(self.matrix_b@, self.shape[0] as nat, self.shape[1] as nat)
        &&& self.current_row <= self.shape[0]
        &&& self.current_column <= self.shape[1]
        &&& self.current_column < self.shape[1] || self.current_row == self.shape[0] || self.shape[1]
            == 0
    }

    /// The pairs of cells that the walk has still to visit, in the order in
    /// which it will visit them.
    pub closed spec fn remaining(&self) -> Seq<(K, K)> {
        rest_of(
            paired(self.matrix_a@, self.matrix_b@),
            self.current_row as int,
            self.current_column as int,
        )
    }

    /// The next pair of cells, the first matrix's cell first, or nothing
    /// where every cell was visited.
    pub fn next(&mut self) -> (r: Option<[K; 2]>)
        ensures
            old(self).remaining().len() == 0 ==> r is None && final(self).remaining().len() == 0,
            old(self).remaining().len() > 0 ==> r is Some && (r->Some_0[0], r->Some_0[1]) == old(
                self,
            ).remaining()[0] && final(self).remaining() == old(self).remaining().skip(1),
    {
        proof {
            use_type_invariant(&*self);
        }
        let ghost lines = paired(self.matrix_a@, self.matrix_b@);
        let rows = self.shape[0];
        let cols = self.shape[1];
        if rows == 0 || cols == 0 {
            proof {
                if self.current_row < rows {
                    let after = lines.skip(self.current_row + 1);
                    assert forall|i: int| 0 <= i < after.len() implies (#[trigger] after[i]).len()
                        == 0 by {
                        assert(self.matrix_a@[self.current_row + 1 + i].len() == cols);
                    }
                    lemma_flatten_empty_lines(after);
                    assert(self.matrix_a@[self.current_row as int].len() == cols);
                    assert(lines[self.current_row as int].len() == 0);
                }
            }
            return None;
        }
        if self.current_row >= rows {
            return None;
        }
        let row = self.current_row;
        let column = self.current_column;
        let left = self.matrix_a.all();
        let right = self.matrix_b.all();
        proof {
            assert(self.matrix_a@[row as int].len() == cols);
            assert(self.matrix_b@[row as int].len() == cols);
            assert(self.matrix_a@[row as int] == left@[row as int]@);
            assert(self.matrix_b@[row as int] == right@[row as int]@);
            assert(lines[row as int].len() == cols);
            lemma_rest_step(lines, row as int, column as int);
        }
        let pair = [left[row][column], right[row][column]];
        if column + 1 >= cols {
            *self = TupleIterator {
                matrix_a: self.matrix_a,
                matrix_b: self.matrix_b,
                shape: self.shape,
                current_row: row + 1,
                current_column: 0,
            };
        } else {
            *self = TupleIterator {
                matrix_a: self.matrix_a,
                matrix_b: self.matrix_b,
                shape: self.shape,
                current_row: row,
                current_column: column + 1,
            };
        }
        Some(pair)
    }
}

impl<K: Scalar> Matrix<K> {
    /// An iterator over the rows, from first to last.
    pub fn iter_rows(&self) -> (r: core::slice::Iter<'_, Vec<K>>)
        ensures
            crate::matrix::rows_of(vstd::std_specs::slice::into_iter_elts(r)) == self@,
    {
        self.all().iter()
    }

    /// A walk through the cells column by column, each column from the top.
    pub fn iter_cols(&self) -> (r: ColumnIterator<'_, K>)
        ensures
            r.remaining() == column_major(self@),
    {
        let shape = self.shape();
        proof {
            lemma_rest_at_start(crate::matrix::transposed(self@));
        }
        ColumnIterator { matrix: self, shape, current_row: 0, current_column: 0 }
    }

    /// A walk through the cells of two matrices of one shape at once, row by
    /// row. Where the shapes differ the two shapes are reported.
    pub fn iter_tuple<'a>(a: &'a Matrix<K>, b: &'a Matrix<K>) -> (r: Result<TupleIterator<'a, K>, Error>)
        ensures
            crate::matrix::shape_spec(a@) == crate::matrix::shape_spec(b@) <==> r is Ok,
            r is Ok ==> r->Ok_0.remaining() == row_major_pairs(a@, b@),
            r is Err ==> r->Err_0 == (Error::ShapeMismatch {
                expected: crate::matrix::shape_spec(a@),
                actual: crate::matrix::shape_spec(b@),
            }),
    {
        let a_shape = a.shape();
        let b_shape = b.shape();
        if a_shape[0] != b_shape[0] || a_shape[1] != b_shape[1] {
            return Err(
                Error::ShapeMismatch {
                    expected: Shape { rows: a_shape[0], cols: a_shape[1] },
                    actual: Shape { rows: b_shape[0], cols: b_shape[1] },
                },
            );
        }
        proof {
            lemma_rest_at_start(paired(a@, b@));
        }
        Ok(TupleIterator { matrix_a: a, matrix_b: b, shape: a_shape, current_row: 0, current_column: 0 })
    }

    /// A walk through the cells of this matrix and of `b` at once; see
    /// [`Matrix::iter_tuple`].
    pub fn iter_with<'a>(&'a self, b: &'a Matrix<K>) -> (r: Result<TupleIterator<'a, K>, Error>)
        ensures
            crate::matrix::shape_spec(self@) == crate::matrix::shape_spec(b@) <==> r is Ok,
            r is Ok ==> r->Ok_0.remaining() == row_major_pairs(self@, b@),
            r is Err ==> r->Err_0 == (Error::ShapeMismatch {
                expected: crate::matrix::shape_spec(self@),
                actual: crate::matrix::shape_spec(b@),
            }),
    {
        Matrix::iter_tuple(self, b)
    }
}

} // verus!
