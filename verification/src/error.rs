use vstd::prelude::*;

verus! {

/// The dimensions of a matrix, or of a vector seen as a matrix of one row.
#[derive(Clone, Copy, Debug, PartialEq, Eq, Structural)]
pub struct Shape {
    pub rows: usize,
    pub cols: usize,
}

/// Why an operation could not produce a result.
#[derive(Clone, Copy, Debug, PartialEq, Eq, Structural)]
pub enum Error {
    /// Two operands, or the rows of one operand, do not have the shapes the
    /// operation needs.
    ShapeMismatch { expected: Shape, actual: Shape },
    /// A list that must hold at least one item was empty.
    EmptyInput,
    /// The matrix has no inverse: some column offers no pivot.
    SingularMatrix,
}

} // verus!
