use vstd::prelude::*;

verus! {

/// What a number must offer for norms to be taken of it: its absolute value
/// and its powers. As in [`crate::scalar::Scalar`], each operation is a
/// specification function that names the result and a method that computes
/// it.
pub trait Norm: Sized {
    /// The absolute value of `self`.
    spec fn abs_spec(self) -> Self;

    /// `self` raised to the power `exponent`.
    spec fn pow_spec(self, exponent: Self) -> Self;

    fn abs(self) -> (r: Self)
        ensures
            r == self.abs_spec(),
    ;

    fn pow(self, exponent: Self) -> (r: Self)
        ensures
            r == self.pow_spec(exponent),
    ;
}

} // verus!
