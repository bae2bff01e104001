use vstd::prelude::*;
use crate::error::{Error, Shape};
use crate::scalar::Scalar;
use crate::vector::Vector;

verus! {

/// Whether all rows of `m` have one length.
pub open spec fn rectangular<K>(m: Seq<Seq<K>>) -> bool {
    forall|i: int| 0 <= i < m.len() ==> (#[trigger] m[i]).len() == m[0].len()
}

/// The number of columns of `m`: the length of its first row, and zero where
/// it has no rows.
pub open spec fn col_count<K>(m: Seq<Seq<K>>) -> nat {
    if m.len() == 0 {
        0
    } else {
        m[0].len()
    }
}

/// Whether `m` has `rows` rows of `cols` items each.
pub open spec fn has_shape<K>(m: Seq<Seq<K>>, rows: nat, cols: nat) -> bool {
    &&& m.len() == rows
    &&& forall|i: int| 0 <= i < rows ==> (#[trigger] m[i]).len() == cols
}

/// Column `j` of `m`, from the top.
pub open spec fn column<K>(m: Seq<Seq<K>>, j: int) -> Seq<K> {
    Seq::new(m.len(), |i: int| m[i][j])
}

/// The main diagonal of `m`, as far as it has rows.
pub open spec fn diagonal<K>(m: Seq<Seq<K>>) -> Seq<K> {
    Seq::new(m.len(), |i: int| m[i][i])
}

/// `rows` rows of `cols` zeros.
pub open spec fn zero_matrix<K: Scalar>(rows: nat, cols: nat) -> Seq<Seq<K>> {
    Seq::new(rows, |i: int| crate::vector::zeros::<K>(cols))
}

/// The square matrix of the given size with `value` on the main diagonal
/// and zero elsewhere.
pub open spec fn identity_spec<K: Scalar>(size: nat, value: K) -> Seq<Seq<K>> {
    Seq::new(
        size,
        |i: int|
            Seq::new(
                size,
                |j: int|
                    if i == j {
                        value
                    } else {
                        K::zero_spec()
                    },
            ),
    )
}

/// The index of the earliest row of `m`, at or after `from`, whose length
/// differs from the first row's; the number of rows where there is none.
pub open spec fn first_ragged_row<K>(m: Seq<Seq<K>>, from: int) -> int
    decreases m.len() - from,
{
    if from < 0 || from >= m.len() {
        m.len() as int
    } else if m[from].len() != m[0].len() {
        from
    } else {
        first_ragged_row(m, from + 1)
    }
}

/// The shape of `m`: its rows, and the length of its first row.
pub open spec fn shape_spec<K>(m: Seq<Seq<K>>) -> Shape {
    Shape { rows: m.len() as usize, cols: col_count(m) as usize }
}

/// The cell by cell sums of two matrices, row for row of `a`.
pub open spec fn cell_sums<K: Scalar>(a: Seq<Seq<K>>, b: Seq<Seq<K>>) -> Seq<Seq<K>> {
    Seq::new(a.len(), |i: int| crate::vector::sums(a[i], b[i]))
}

/// The cell by cell differences of two matrices, row for row of `a`.
pub open spec fn cell_differences<K: Scalar>(a: Seq<Seq<K>>, b: Seq<Seq<K>>) -> Seq<Seq<K>> {
    Seq::new(a.len(), |i: int| crate::vector::differences(a[i], b[i]))
}

/// Every cell of `a` multiplied by `factor`.
pub open spec fn cell_scaled<K: Scalar>(a: Seq<Seq<K>>, factor: K) -> Seq<Seq<K>> {
    Seq::new(a.len(), |i: int| crate::vector::scaled(a[i], factor))
}

/// Every cell of `a` replaced by `value`.
pub open spec fn cell_filled<K: Scalar>(a: Seq<Seq<K>>, value: K) -> Seq<Seq<K>> {
    Seq::new(a.len(), |i: int| crate::vector::filled(a[i].len(), value))
}

/// The transpose: row `j` of the result is column `j` of `m`.
pub open spec fn transposed<K>(m: Seq<Seq<K>>) -> Seq<Seq<K>> {
    Seq::new(col_count(m), |j: int| column(m, j))
}

/// Transposing twice gives the matrix back, for every matrix that has a
/// cell or has no row: rows without cells have no column to keep them.
pub proof fn lemma_transpose_involution<K>(m: Seq<Seq<K>>)
    requires
        rectangular(m),
        m.len() == 0 || col_count(m) > 0,
    ensures
        transposed(transposed(m)) == m,
{
    let t = transposed(m);
    if m.len() > 0 {
        assert(t[0].len() == m.len());
        assert(col_count(t) == m.len());
        assert forall|i: int| 0 <= i < m.len() implies #[trigger] transposed(t)[i] =~= m[i] by {
            assert(m[i].len() == m[0].len());
        }
    }
    assert(transposed(t) =~= m);
}

/// The product of the matrix `m` and the column vector `v`: one dot product
/// per row. Empty where `v` has not as many items as `m` has columns.
pub open spec fn applied<K: Scalar>(m: Seq<Seq<K>>, v: Seq<K>) -> Seq<K> {
    if col_count(m) == v.len() {
        Seq::new(m.len(), |i: int| crate::vector::dot_spec(m[i], v))
    } else {
        Seq::empty()
    }
}

/// The matrix product: cell (i, j) is the dot product of row `i` of `a` and
/// column `j` of `b`. Empty where `b` has not as many rows as `a` has
/// columns.
pub open spec fn product<K: Scalar>(a: Seq<Seq<K>>, b: Seq<Seq<K>>) -> Seq<Seq<K>> {
    if col_count(a) == b.len() {
        Seq::new(
            a.len(),
            |i: int| Seq::new(col_count(b), |j: int| crate::vector::dot_spec(a[i], column(b, j))),
        )
    } else {
        Seq::empty()
    }
}

/// The trace: the sum of the main diagonal of a square matrix, and zero for
/// any other shape.
pub open spec fn trace_spec<K: Scalar>(m: Seq<Seq<K>>) -> K {
    if m.len() == col_count(m) {
        crate::scalar::sum(diagonal(m))
    } else {
        K::zero_spec()
    }
}

/// The rows of a nested vector as sequences.
pub open spec fn rows_of<K>(grid: Seq<Vec<K>>) -> Seq<Seq<K>> {
    Seq::new(grid.len(), |i: int| grid[i]@)
}

/// An ordered sequence of rows of scalars, all of one length.
#[derive(Debug)]
pub struct Matrix<K: Scalar> {
    pub(crate) elements: Vec<Vec<K>>,
}

impl<K: Scalar> View for Matrix<K> {
    type V = Seq<Seq<K>>;

    closed spec fn view(&self) -> Seq<Seq<K>> {
        rows_of(self.elements@)
    }
}

impl<K: Scalar> Clone for Matrix<K> {
    fn clone(&self) -> (r: Self)
        ensures
            r@ == self@,
    {
        proof {
            use_type_invariant(self);
        }
        Matrix { elements: copy_grid(&self.elements) }
    }
}

impl<K: Scalar> Default for Matrix<K> {
    fn default() -> (r: Self)
        ensures
            r@ == Seq::<Seq<K>>::empty(),
    {
        let elements: Vec<Vec<K>> = Vec::new();
        assert(rows_of(elements@) =~= Seq::<Seq<K>>::empty());
        Matrix { elements }
    }
}

/// The cell by cell sum of two matrices of one shape, as a new matrix; an
/// empty matrix where the shapes differ. The contract of an operator stands
/// on its method, where callers of the operator find it.
impl<K: Scalar> core::ops::Add for Matrix<K> {
    type Output = Matrix<K>;

    fn add(self, rhs: Self) -> (r: Matrix<K>)
        ensures
            r@ == (if shape_spec(self@) == shape_spec(rhs@) {
                cell_sums(self@, rhs@)
            } else {
                Seq::empty()
            }),
    {
        let mut result = self;
        match Matrix::add(&mut result, &rhs) {
            Ok(_) => result,
            Err(_) => Matrix::default(),
        }
    }
}

/// Nothing is claimed of the operator through its generic specification;
/// its contract stands on the method above.
impl<K: Scalar> vstd::std_specs::ops::AddSpecImpl for Matrix<K> {
    open spec fn obeys_add_spec() -> bool {
        false
    }

    open spec fn add_req(self, rhs: Self) -> bool {
        true
    }

    open spec fn add_spec(self, rhs: Self) -> Matrix<K> {
        self
    }
}

/// The cell by cell difference of two matrices of one shape, as a new
/// matrix; an empty matrix where the shapes differ.
impl<K: Scalar> core::ops::Sub for Matrix<K> {
    type Output = Matrix<K>;

    fn sub(self, rhs: Self) -> (r: Matrix<K>)
        ensures
            r@ == (if shape_spec(self@) == shape_spec(rhs@) {
                cell_differences(self@, rhs@)
            } else {
                Seq::empty()
            }),
    {
        let mut result = self;
        match Matrix::sub(&mut result, &rhs) {
            Ok(_) => result,
            Err(_) => Matrix::default(),
        }
    }
}

/// Nothing is claimed of the operator through its generic specification;
/// its contract stands on the method above.
impl<K: Scalar> vstd::std_specs::ops::SubSpecImpl for Matrix<K> {
    open spec fn obeys_sub_spec() -> bool {
        false
    }

    open spec fn sub_req(self, rhs: Self) -> bool {
        true
    }

    open spec fn sub_spec(self, rhs: Self) -> Matrix<K> {
        self
    }
}

/// Every cell times a scalar, as a new matrix.
impl<K: Scalar> core::ops::Mul<K> for Matrix<K> {
    type Output = Matrix<K>;

    fn mul(self, rhs: K) -> (r: Matrix<K>)
        ensures
            r@ == cell_scaled(self@, rhs),
    {
        let mut result = self;
        result.scl(rhs);
        result
    }
}

/// Nothing is claimed of the operator through its generic specification;
/// its contract stands on the method above.
impl<K: Scalar> vstd::std_specs::ops::MulSpecImpl<K> for Matrix<K> {
    open spec fn obeys_mul_spec() -> bool {
        false
    }

    open spec fn mul_req(self, rhs: K) -> bool {
        true
    }

    open spec fn mul_spec(self, rhs: K) -> Matrix<K> {
        self
    }
}

/// The row at an index within the matrix. An index at or beyond the number
/// of rows is a mistake of the caller's that the precondition rules out.
impl<K: Scalar> core::ops::Index<usize> for Matrix<K> {
    type Output = Vec<K>;

    fn index(&self, i: usize) -> (r: &Vec<K>)
        ensures
            r@ == self@[i as int],
    {
        &self.elements[i]
    }
}

impl<K: Scalar> vstd::std_specs::core::IndexSpecImpl<usize> for Matrix<K> {
    open spec fn index_req(&self, index: &usize) -> bool {
        *index < self@.len()
    }
}

/// A fresh nested vector with the items of `source`.
pub(crate) fn copy_grid<K: Scalar>(source: &Vec<Vec<K>>) -> (r: Vec<Vec<K>>)
    ensures
        rows_of(r@) == rows_of(source@),
{
    let mut r: Vec<Vec<K>> = Vec::with_capacity(source.len());
    let mut i: usize = 0;
    while i < source.len()
        invariant
            i <= source.len(),
            r@.len() == i,
            forall|k: int| 0 <= k < i ==> r@[k]@ == source@[k]@,
        decreases source.len() - i,
    {
        r.push(crate::vector::copy_of(&source[i]));
        i += 1;
    }
    assert(rows_of(r@) =~= rows_of(source@));
    r
}

/// A nested vector of `rows` rows of `cols` copies of `value`.
pub(crate) fn filled_grid<K: Scalar>(rows: usize, cols: usize, value: K) -> (r: Vec<Vec<K>>)
    ensures
        r@.len() == rows,
        forall|i: int| 0 <= i < rows ==> (#[trigger] r@[i])@ == crate::vector::filled(cols as nat, value),
{
    let mut r: Vec<Vec<K>> = Vec::with_capacity(rows);
    let mut i: usize = 0;
    while i < rows
        invariant
            i <= rows,
            r@.len() == i,
            forall|k: int| 0 <= k < i ==> r@[k]@ == crate::vector::filled(cols as nat, value),
        decreases rows - i,
    {
        let mut row: Vec<K> = Vec::with_capacity(cols);
        let mut j: usize = 0;
        while j < cols
            invariant
                j <= cols,
                row@ == crate::vector::filled(j as nat, value),
            decreases cols - j,
        {
            row.push(value);
            j += 1;
        }
        r.push(row);
        i += 1;
    }
    r
}

impl<K: Scalar> Matrix<K> {
    #[verifier::type_invariant]
    spec fn well_formed(self) -> bool {
        rectangular(rows_of(self.elements@))
    }

    /// Moves the rows out, so that they can be changed in place, and leaves
    /// the matrix empty until they are put back.
    pub(crate) fn take_rows(&mut self) -> (grid: Vec<Vec<K>>)
        ensures
            rows_of(grid@) == old(self)@,
            rectangular(rows_of(grid@)),
            final(self)@ == Seq::<Seq<K>>::empty(),
    {
        proof {
            use_type_invariant(&*self);
        }
        let mut grid: Vec<Vec<K>> = Vec::new();
        assert(rows_of(grid@) =~= Seq::<Seq<K>>::empty());
        core::mem::swap(&mut self.elements, &mut grid);
        grid
    }

    /// The matrix with the given rows, which all have one length.
    pub(crate) fn from_grid(grid: Vec<Vec<K>>) -> (r: Self)
        requires
            rectangular(rows_of(grid@)),
        ensures
            r@ == rows_of(grid@),
    {
        Matrix { elements: grid }
    }

    /// A copy of the rows.
    pub(crate) fn to_grid(&self) -> (grid: Vec<Vec<K>>)
        ensures
            rows_of(grid@) == self@,
            rectangular(self@),
    {
        proof {
            use_type_invariant(self);
        }
        copy_grid(&self.elements)
    }

    /// The zero matrix of `shape[0]` rows and `shape[1]` columns.
    pub fn new(shape: [usize; 2]) -> (r: Self)
        ensures
            r@ == zero_matrix::<K>(shape[0] as nat, shape[1] as nat),
    {
        let elements = filled_grid(shape[0], shape[1], K::zero());
        assert(rows_of(elements@) =~= zero_matrix::<K>(shape[0] as nat, shape[1] as nat)) by {
            assert forall|i: int| 0 <= i < shape[0] implies rows_of(elements@)[i]
                =~= crate::vector::zeros::<K>(shape[1] as nat) by {}
        }
        Matrix { elements }
    }

    /// The matrix of one row that holds the items of `row`.
    pub fn from_row(row: Vec<K>) -> (r: Self)
        ensures
            r@ == seq![row@],
    {
        let mut elements: Vec<Vec<K>> = Vec::with_capacity(1);
        elements.push(row);
        assert(rows_of(elements@) =~= seq![row@]);
        Matrix { elements }
    }

    /// The matrix with the given rows, where they all have one length. Where
    /// they do not, the error names the shape that the first row asks for and
    /// the length of the earliest row that differs from it.
    pub fn from_rows(rows: Vec<Vec<K>>) -> (r: Result<Self, Error>)
        ensures
            rectangular(rows_of(rows@)) <==> r is Ok,
            r is Ok ==> r->Ok_0@ == rows_of(rows@),
            r is Err ==> r == Err::<Self, Error>(
                Error::ShapeMismatch {
                    expected: Shape { rows: rows@.len() as usize, cols: rows@[0]@.len() as usize },
                    actual: Shape {
                        rows: rows@.len() as usize,
                        cols: rows@[first_ragged_row(rows_of(rows@), 0)]@.len() as usize,
                    },
                },
            ),
    {
        let count = rows.len();
        let ghost m = rows_of(rows@);
        let mut i: usize = 1;
        if count == 0 {
            return Ok(Matrix { elements: rows });
        }
        assert(first_ragged_row(m, 0) == first_ragged_row(m, 1));
        while i < count
            invariant
                1 <= i <= count,
                count == rows@.len(),
                m == rows_of(rows@),
                forall|k: int| 0 <= k < i ==> (#[trigger] m[k]).len() == m[0].len(),
                first_ragged_row(m, 0) == first_ragged_row(m, i as int),
            decreases count - i,
        {
            if rows[i].len() != rows[0].len() {
                assert(m[i as int].len() != m[0].len());
                return Err(
                    Error::ShapeMismatch {
                        expected: Shape { rows: count, cols: rows[0].len() },
                        actual: Shape { rows: count, cols: rows[i].len() },
                    },
                );
            }
            i += 1;
        }
        Ok(Matrix { elements: rows })
    }

    /// The square matrix of the given size with `value` on the main diagonal
    /// and zero elsewhere.
    pub fn identity(size: usize, value: K) -> (r: Self)
        ensures
            r@ == identity_spec(size as nat, value),
    {
        let mut elements = filled_grid(size, size, K::zero());
        let mut d: usize = 0;
        while d < size
            invariant
                d <= size,
                elements@.len() == size,
                forall|i: int| 0 <= i < size ==> (#[trigger] elements@[i])@.len() == size,
                forall|i: int, j: int|
                    0 <= i < size && 0 <= j < size ==> (#[trigger] elements@[i]@[j]) == (if i == j
                        && i < d {
                        value
                    } else {
                        K::zero_spec()
                    }),
            decreases size - d,
        {
            elements[d][d] = value;
            d += 1;
        }
        assert(rows_of(elements@) =~= identity_spec(size as nat, value)) by {
            assert forall|i: int| 0 <= i < size implies rows_of(elements@)[i] =~= identity_spec(
                size as nat,
                value,
            )[i] by {}
        }
        Matrix { elements }
    }

    /// The shape as `[rows, columns]`, the columns counted in the first row;
    /// `[0, 0]` for a matrix without rows.
    pub fn shape(&self) -> (r: [usize; 2])
        ensures
            r[0] == self@.len(),
            r[1] == col_count(self@),
            has_shape(self@, r[0] as nat, r[1] as nat),
    {
        proof {
            use_type_invariant(self);
        }
        let rows = self.elements.len();
        if rows > 0 {
            return [rows, self.elements[0].len()];
        }
        [0, 0]
    }

    /// The rows, in order.
    pub fn all(&self) -> (r: &Vec<Vec<K>>)
        ensures
            rows_of(r@) == self@,
    {
        &self.elements
    }

    /// The element in row `row` and column `column`.
    pub fn get(&self, row: usize, column: usize) -> (r: K)
        requires
            row < self@.len(),
            column < self@[row as int].len(),
        ensures
            r == self@[row as int][column as int],
    {
        self.elements[row][column]
    }

    /// Replaces the element in row `row` and column `column` by `value`.
    pub fn set(&mut self, row: usize, column: usize, value: K)
        requires
            row < old(self)@.len(),
            column < old(self)@[row as int].len(),
        ensures
            final(self)@ == old(self)@.update(
                row as int,
                old(self)@[row as int].update(column as int, value),
            ),
    {
        proof {
            use_type_invariant(&*self);
        }
        let mut grid = self.take_rows();
        grid[row][column] = value;
        assert(rows_of(grid@) =~= old(self)@.update(
            row as int,
            old(self)@[row as int].update(column as int, value),
        ));
        self.elements = grid;
    }
}

impl<K: Scalar> Matrix<K> {
    /// Overwrites every element with `value`.
    pub fn fill(&mut self, value: K)
        ensures
            final(self)@ == cell_filled(old(self)@, value),
    {
        let mut grid = self.take_rows();
        let rows = grid.len();
        let mut i: usize = 0;
        while i < rows
            invariant
                i <= rows,
                grid@.len() == rows,
                old(self)@.len() == rows,
                forall|k: int| 0 <= k < i ==> (#[trigger] grid@[k])@ == crate::vector::filled(
                    old(self)@[k].len(),
                    value,
                ),
                forall|k: int| i <= k < rows ==> (#[trigger] grid@[k])@ == old(self)@[k],
            decreases rows - i,
        {
            crate::vector::fill_in_place(&mut grid[i], value);
            i += 1;
        }
        assert(rows_of(grid@) =~= cell_filled(old(self)@, value));
        assert(rectangular(rows_of(grid@))) by {
            assert(rectangular(old(self)@));
            assert forall|k: int| 0 <= k < rows implies (#[trigger] rows_of(grid@)[k]).len()
                == rows_of(grid@)[0].len() by {
                assert(old(self)@[k].len() == old(self)@[0].len());
            }
        }
        self.elements = grid;
    }

    /// Adds `b` to this matrix, element by element. Where the shapes differ
    /// the matrix is left as it was and the two shapes are reported.
    pub fn add(&mut self, b: &Matrix<K>) -> (r: Result<(), Error>)
        ensures
            shape_spec(old(self)@) == shape_spec(b@) ==> r == Ok::<(), Error>(()) && final(self)@
                == cell_sums(old(self)@, b@),
            shape_spec(old(self)@) != shape_spec(b@) ==> final(self)@ == old(self)@ && r == Err::<
                (),
                Error,
            >(Error::ShapeMismatch { expected: shape_spec(old(self)@), actual: shape_spec(b@) }),
    {
        let shape = self.shape();
        let other = b.shape();
        if shape[0] != other[0] || shape[1] != other[1] {
            return Err(
                Error::ShapeMismatch {
                    expected: Shape { rows: shape[0], cols: shape[1] },
                    actual: Shape { rows: other[0], cols: other[1] },
                },
            );
        }
        let mut grid = self.take_rows();
        let rows = shape[0];
        let mut i: usize = 0;
        while i < rows
            invariant
                i <= rows,
                grid@.len() == rows,
                has_shape(old(self)@, rows as nat, shape[1] as nat),
                has_shape(b@, rows as nat, shape[1] as nat),
                b@ == rows_of(b.elements@),
                forall|k: int| 0 <= k < i ==> (#[trigger] grid@[k])@ == crate::vector::sums(
                    old(self)@[k],
                    b@[k],
                ),
                forall|k: int| i <= k < rows ==> (#[trigger] grid@[k])@ == old(self)@[k],
            decreases rows - i,
        {
            assert(b@[i as int] == b.elements@[i as int]@);
            crate::vector::add_into(&mut grid[i], &b.elements[i]);
            i += 1;
        }
        assert(rows_of(grid@) =~= cell_sums(old(self)@, b@));
        self.elements = grid;
        Ok(())
    }

    /// Subtracts `b` from this matrix, element by element. Where the shapes
    /// differ the matrix is left as it was and the two shapes are reported.
    pub fn sub(&mut self, b: &Matrix<K>) -> (r: Result<(), Error>)
        ensures
            shape_spec(old(self)@) == shape_spec(b@) ==> r == Ok::<(), Error>(()) && final(self)@
                == cell_differences(old(self)@, b@),
            shape_spec(old(self)@) != shape_spec(b@) ==> final(self)@ == old(self)@ && r == Err::<
                (),
                Error,
            >(Error::ShapeMismatch { expected: shape_spec(old(self)@), actual: shape_spec(b@) }),
    {
        let shape = self.shape();
        let other = b.shape();
        if shape[0] != other[0] || shape[1] != other[1] {
            return Err(
                Error::ShapeMismatch {
                    expected: Shape { rows: shape[0], cols: shape[1] },
                    actual: Shape { rows: other[0], cols: other[1] },
                },
            );
        }
        let mut grid = self.take_rows();
        let rows = shape[0];
        let mut i: usize = 0;
        while i < rows
            invariant
                i <= rows,
                grid@.len() == rows,
                has_shape(old(self)@, rows as nat, shape[1] as nat),
                has_shape(b@, rows as nat, shape[1] as nat),
                b@ == rows_of(b.elements@),
                forall|k: int| 0 <= k < i ==> (#[trigger] grid@[k])@ == crate::vector::differences(
                    old(self)@[k],
                    b@[k],
                ),
                forall|k: int| i <= k < rows ==> (#[trigger] grid@[k])@ == old(self)@[k],
            decreases rows - i,
        {
            assert(b@[i as int] == b.elements@[i as int]@);
            crate::vector::sub_into(&mut grid[i], &b.elements[i]);
            i += 1;
        }
        assert(rows_of(grid@) =~= cell_differences(old(self)@, b@));
        self.elements = grid;
        Ok(())
    }

    /// Multiplies every element by `value`.
    pub fn scl(&mut self, value: K)
        ensures
            final(self)@ == cell_scaled(old(self)@, value),
    {
        let mut grid = self.take_rows();
        let rows = grid.len();
        let mut i: usize = 0;
        while i < rows
            invariant
                i <= rows,
                grid@.len() == rows,
                old(self)@.len() == rows,
                rectangular(old(self)@),
                forall|k: int| 0 <= k < i ==> (#[trigger] grid@[k])@ == crate::vector::scaled(
                    old(self)@[k],
                    value,
                ),
                forall|k: int| i <= k < rows ==> (#[trigger] grid@[k])@ == old(self)@[k],
            decreases rows - i,
        {
            crate::vector::scale_in_place(&mut grid[i], value);
            i += 1;
        }
        assert(rows_of(grid@) =~= cell_scaled(old(self)@, value));
        assert(rectangular(rows_of(grid@))) by {
            assert forall|k: int| 0 <= k < rows implies (#[trigger] rows_of(grid@)[k]).len()
                == rows_of(grid@)[0].len() by {
                assert(old(self)@[k].len() == old(self)@[0].len());
            }
        }
        self.elements = grid;
    }

    /// The product of this matrix and the column vector `vector`; an empty
    /// vector where the vector's size is not the number of columns.
    pub fn mul_vec(&self, vector: &Vector<K>) -> (r: Vector<K>)
        ensures
            r@ == applied(self@, vector@),
    {
        let shape = self.shape();
        if shape[1] != vector.size() {
            return Vector::new(0);
        }
        let rows = shape[0];
        let items = vector.all();
        let mut result: Vec<K> = Vec::with_capacity(rows);
        let mut i: usize = 0;
        while i < rows
            invariant
                i <= rows,
                rows == self@.len(),
                self@ == rows_of(self.elements@),
                items@ == vector@,
                result@.len() == i,
                forall|k: int| 0 <= k < i ==> result@[k] == crate::vector::dot_spec(self@[k], vector@),
            decreases rows - i,
        {
            assert(self@[i as int] == self.elements@[i as int]@);
            result.push(crate::vector::dot_of(&self.elements[i], items));
            i += 1;
        }
        assert(result@ =~= applied(self@, vector@));
        Vector::from(result)
    }

    /// The product of this matrix and `matrix`; an empty matrix where
    /// `matrix` has not as many rows as this matrix has columns.
    pub fn mul_mat(&self, matrix: &Matrix<K>) -> (r: Matrix<K>)
        ensures
            r@ == product(self@, matrix@),
    {
        let self_shape = self.shape();
        let other_shape = matrix.shape();
        if self_shape[1] != other_shape[0] {
            return Matrix::new([0, 0]);
        }
        let rows = self_shape[0];
        let inner = self_shape[1];
        let cols = other_shape[1];
        let mut result: Vec<Vec<K>> = Vec::with_capacity(rows);
        let mut i: usize = 0;
        while i < rows
            invariant
                i <= rows,
                has_shape(self@, rows as nat, inner as nat),
                has_shape(matrix@, inner as nat, cols as nat),
                cols == col_count(matrix@),
                self@ == rows_of(self.elements@),
                matrix@ == rows_of(matrix.elements@),
                result@.len() == i,
                forall|k: int| 0 <= k < i ==> (#[trigger] result@[k])@ == product(self@, matrix@)[k],
            decreases rows - i,
        {
            let mut row: Vec<K> = Vec::with_capacity(cols);
            let mut j: usize = 0;
            while j < cols
                invariant
                    i < rows,
                    j <= cols,
                    has_shape(self@, rows as nat, inner as nat),
                    has_shape(matrix@, inner as nat, cols as nat),
                    self@ == rows_of(self.elements@),
                    matrix@ == rows_of(matrix.elements@),
                    row@.len() == j,
                    forall|c: int| 0 <= c < j ==> row@[c] == crate::vector::dot_spec(
                        self@[i as int],
                        column(matrix@, c),
                    ),
                decreases cols - j,
            {
                let ghost terms = crate::vector::products(self@[i as int], column(matrix@, j as int));
                let mut value = K::zero();
                let mut k: usize = 0;
                while k < inner
                    invariant
                        i < rows,
                        j < cols,
                        k <= inner,
                        has_shape(self@, rows as nat, inner as nat),
                        has_shape(matrix@, inner as nat, cols as nat),
                        self@ == rows_of(self.elements@),
                        matrix@ == rows_of(matrix.elements@),
                        terms == crate::vector::products(self@[i as int], column(matrix@, j as int)),
                        value == crate::scalar::sum(terms.take(k as int)),
                    decreases inner - k,
                {
                    proof {
                        assert(self@[i as int].len() == inner);
                        assert(matrix@[k as int].len() == cols);
                        crate::scalar::lemma_sum_step(terms, k as int);
                    }
                    value = value.add(self.elements[i][k].mul(matrix.elements[k][j]));
                    k += 1;
                }
                proof {
                    assert(self@[i as int].len() == inner);
                    assert(terms.take(inner as int) == terms);
                }
                row.push(value);
                j += 1;
            }
            assert(row@ =~= product(self@, matrix@)[i as int]);
            result.push(row);
            i += 1;
        }
        assert(rows_of(result@) =~= product(self@, matrix@));
        Matrix { elements: result }
    }

    /// The sum of the main diagonal of a square matrix; zero for any other
    /// shape.
    pub fn trace(&self) -> (r: K)
        ensures
            r == trace_spec(self@),
    {
        let shape = self.shape();
        if shape[0] != shape[1] {
            return K::zero();
        }
        let size = shape[0];
        let ghost terms = diagonal(self@);
        let mut result = K::zero();
        let mut i: usize = 0;
        while i < size
            invariant
                i <= size,
                has_shape(self@, size as nat, size as nat),
                self@ == rows_of(self.elements@),
                terms == diagonal(self@),
                result == crate::scalar::sum(terms.take(i as int)),
            decreases size - i,
        {
            proof {
                assert(self@[i as int].len() == size);
                crate::scalar::lemma_sum_step(terms, i as int);
            }
            result = result.add(self.elements[i][i]);
            i += 1;
        }
        assert(terms.take(size as int) == terms);
        result
    }

    /// The transpose: a new matrix whose rows are the columns of this one.
    pub fn transpose(&self) -> (r: Matrix<K>)
        ensures
            r@ == transposed(self@),
    {
        let shape = self.shape();
        let rows = shape[0];
        let cols = shape[1];
        let mut result: Vec<Vec<K>> = Vec::with_capacity(cols);
        let mut j: usize = 0;
        while j < cols
            invariant
                j <= cols,
                has_shape(self@, rows as nat, cols as nat),
                self@ == rows_of(self.elements@),
                result@.len() == j,
                forall|c: int| 0 <= c < j ==> (#[trigger] result@[c])@ == column(self@, c),
            decreases cols - j,
        {
            let mut line: Vec<K> = Vec::with_capacity(rows);
            let mut i: usize = 0;
            while i < rows
                invariant
                    i <= rows,
                    j < cols,
                    has_shape(self@, rows as nat, cols as nat),
                    self@ == rows_of(self.elements@),
                    line@.len() == i,
                    forall|k: int| 0 <= k < i ==> line@[k] == self@[k][j as int],
                decreases rows - i,
            {
                assert(self@[i as int].len() == cols);
                line.push(self.elements[i][j]);
                i += 1;
            }
            assert(line@ =~= column(self@, j as int));
            result.push(line);
            j += 1;
        }
        assert(rows_of(result@) =~= transposed(self@));
        Matrix { elements: result }
    }
}

/// The perspective projection for a field of view of `fov` degrees, an
/// aspect ratio of `ratio` and clipping planes at `near` and `far`: four
/// rows of four. With `s` the reciprocal of the tangent of half the field of
/// view, the diagonal starts with `s`, narrowed by the ratio where that is
/// below one, and `s`, divided by the ratio where that is above one.
pub open spec fn projection_spec<K: Scalar>(fov: K, ratio: K, near: K, far: K) -> Seq<Seq<K>> {
    let zero = K::zero_spec();
    let one = K::one_spec();
    let half_angle = fov.div_spec(K::from_int_spec(2)).mul_spec(
        K::pi_spec().div_spec(K::from_int_spec(180)),
    );
    let s = one.div_spec(half_angle.tan_spec());
    let x_scale = if ratio.less_than_spec(one) {
        ratio
    } else {
        one
    };
    let y_scale = if one.less_than_spec(ratio) {
        one.div_spec(ratio)
    } else {
        one
    };
    let depth = far.sub_spec(near);
    seq![
        seq![s.mul_spec(x_scale), zero, zero, zero],
        seq![zero, s.mul_spec(y_scale), zero, zero],
        seq![zero, zero, far.neg_spec().div_spec(depth), one.neg_spec()],
        seq![zero, zero, far.mul_spec(near).div_spec(depth).neg_spec(), zero],
    ]
}

impl<K: Scalar> Matrix<K> {
    /// A new matrix whose every element is what `callback` returns for the
    /// elements of `a` and `b` in its place. Where the shapes differ the two
    /// shapes are reported.
    pub fn map<F: Fn(K, K) -> K>(a: &Matrix<K>, b: &Matrix<K>, callback: F) -> (r: Result<
        Matrix<K>,
        Error,
    >)
        requires
            shape_spec(a@) == shape_spec(b@) ==> forall|i: int, j: int|
                0 <= i < a@.len() && 0 <= j < a@[i].len() ==> #[trigger] call_requires(
                    callback,
                    (a@[i][j], b@[i][j]),
                ),
        ensures
            shape_spec(a@) == shape_spec(b@) <==> r is Ok,
            r is Ok ==> has_shape(r->Ok_0@, a@.len(), col_count(a@)) && forall|i: int, j: int|
                0 <= i < a@.len() && 0 <= j < a@[i].len() ==> #[trigger] call_ensures(
                    callback,
                    (a@[i][j], b@[i][j]),
                    r->Ok_0@[i][j],
                ),
            r is Err ==> r->Err_0 == (Error::ShapeMismatch {
                expected: shape_spec(a@),
                actual: shape_spec(b@),
            }),
    {
        let a_shape = a.shape();
        let b_shape = b.shape();
        if a_shape[0] != b_shape[0] || a_shape[1] != b_shape[1] {
            return Err(
                Error::ShapeMismatch {
                    expected: Shape { rows: a_shape[0], cols: a_shape[1] },
                    actual: Shape { rows: b_shape[0], cols: b_shape[1] },
                },
            );
        }
        let rows = a_shape[0];
        let cols = a_shape[1];
        let mut grid: Vec<Vec<K>> = Vec::with_capacity(rows);
        let mut i: usize = 0;
        while i < rows
            invariant
                i <= rows,
                a@ == rows_of(a.elements@),
                b@ == rows_of(b.elements@),
                has_shape(a@, rows as nat, cols as nat),
                has_shape(b@, rows as nat, cols as nat),
                forall|x: int, y: int|
                    0 <= x < a@.len() && 0 <= y < a@[x].len() ==> #[trigger] call_requires(
                        callback,
                        (a@[x][y], b@[x][y]),
                    ),
                grid@.len() == i,
                forall|x: int| 0 <= x < i ==> (#[trigger] grid@[x])@.len() == cols,
                forall|x: int, y: int|
                    0 <= x < i && 0 <= y < cols ==> #[trigger] call_ensures(
                        callback,
                        (a@[x][y], b@[x][y]),
                        grid@[x]@[y],
                    ),
            decreases rows - i,
        {
            let mut row: Vec<K> = Vec::with_capacity(cols);
            let mut j: usize = 0;
            while j < cols
                invariant
                    i < rows,
                    j <= cols,
                    a@ == rows_of(a.elements@),
                    b@ == rows_of(b.elements@),
                    has_shape(a@, rows as nat, cols as nat),
                    has_shape(b@, rows as nat, cols as nat),
                    forall|x: int, y: int|
                        0 <= x < a@.len() && 0 <= y < a@[x].len() ==> #[trigger] call_requires(
                            callback,
                            (a@[x][y], b@[x][y]),
                        ),
                    row@.len() == j,
                    forall|y: int|
                        0 <= y < j ==> #[trigger] call_ensures(
                            callback,
                            (a@[i as int][y], b@[i as int][y]),
                            row@[y],
                        ),
                decreases cols - j,
            {
                assert(a@[i as int].len() == cols);
                assert(b@[i as int].len() == cols);
                assert(call_requires(callback, (a@[i as int][j as int], b@[i as int][j as int])));
                let value = callback(a.elements[i][j], b.elements[i][j]);
                row.push(value);
                j += 1;
            }
            grid.push(row);
            i += 1;
        }
        let result = Matrix { elements: grid };
        assert forall|x: int, y: int| 0 <= x < a@.len() && 0 <= y < a@[x].len() implies #[trigger] call_ensures(
            callback,
            (a@[x][y], b@[x][y]),
            result@[x][y],
        ) by {
            assert(a@[x].len() == cols);
            assert(result@[x][y] == grid@[x]@[y]);
        }
        Ok(result)
    }

    /// The perspective projection matrix for a field of view of `fov`
    /// degrees, an aspect ratio of `ratio` and clipping planes at `near`
    /// and `far`.
    pub fn projection(fov: K, ratio: K, near: K, far: K) -> (r: Matrix<K>)
        ensures
            r@ == projection_spec(fov, ratio, near, far),
    {
        let zero = K::zero();
        let one = K::one();
        let half_angle = fov.div(K::from_int(2)).mul(K::pi().div(K::from_int(180)));
        let s = one.div(half_angle.tan());
        let x_scale = if ratio.less_than(one) {
            ratio
        } else {
            one
        };
        let y_scale = if one.less_than(ratio) {
            one.div(ratio)
        } else {
            one
        };
        let depth = far.sub(near);
        let mut first: Vec<K> = Vec::with_capacity(4);
        first.push(s.mul(x_scale));
        first.push(zero);
        first.push(zero);
        first.push(zero);
        let mut second: Vec<K> = Vec::with_capacity(4);
        second.push(zero);
        second.push(s.mul(y_scale));
        second.push(zero);
        second.push(zero);
        let mut third: Vec<K> = Vec::with_capacity(4);
        third.push(zero);
        third.push(zero);
        third.push(far.neg().div(depth));
        third.push(one.neg());
        let mut fourth: Vec<K> = Vec::with_capacity(4);
        fourth.push(zero);
        fourth.push(zero);
        fourth.push(far.mul(near).div(depth).neg());
        fourth.push(zero);
        let mut grid: Vec<Vec<K>> = Vec::with_capacity(4);
        grid.push(first);
        grid.push(second);
        grid.push(third);
        grid.push(fourth);
        let ghost expected = projection_spec(fov, ratio, near, far);
        assert(rows_of(grid@) =~= expected) by {
            assert(rows_of(grid@)[0] =~= expected[0]);
            assert(rows_of(grid@)[1] =~= expected[1]);
            assert(rows_of(grid@)[2] =~= expected[2]);
            assert(rows_of(grid@)[3] =~= expected[3]);
        }
        Matrix { elements: grid }
    }
}

} // verus!
