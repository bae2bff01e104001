use vstd::prelude::*;
use crate::norm::Norm;

verus! {

/// The arithmetic that the element type of a vector or matrix must offer.
///
/// Every operation comes as a pair: a specification function that names the
/// result, and an executable method that computes it. The contracts of this
/// crate are written over the specification functions, so they hold for any
/// scalar whose methods are functions of their arguments: rounding
/// arithmetic as much as exact arithmetic. Nothing here says that the
/// operations obey the laws of a field; a theorem that needs such laws asks
/// for them (see [`crate::exact`]).
///
/// What this crate proves of its operations holds for every implementation
/// that keeps the contracts below. That an implementation keeps them is
/// proved where it is written in Verus, and is its author's promise where it
/// is written in plain Rust; there the specification functions get bodies
/// that are never run.
pub trait Scalar: Norm + Copy {
    /// The additive identity, and the value of a freshly made element.
    spec fn zero_spec() -> Self;

    /// The multiplicative identity.
    spec fn one_spec() -> Self;

    /// The scalar that stands for the integer `n`.
    spec fn from_int_spec(n: i32) -> Self;

    /// The ratio of a circle's circumference to its diameter.
    spec fn pi_spec() -> Self;

    /// `self + rhs`.
    spec fn add_spec(self, rhs: Self) -> Self;

    /// `self - rhs`.
    spec fn sub_spec(self, rhs: Self) -> Self;

    /// `self * rhs`.
    spec fn mul_spec(self, rhs: Self) -> Self;

    /// `self / rhs`.
    spec fn div_spec(self, rhs: Self) -> Self;

    /// `-self`.
    spec fn neg_spec(self) -> Self;

    /// The tangent of `self`, an angle in radians.
    spec fn tan_spec(self) -> Self;

    /// Whether `self` and `rhs` are the same number. This is the scalar's own
    /// notion of equality, which need not be structural equality.
    spec fn equals_spec(self, rhs: Self) -> bool;

    /// Whether `self` is strictly less than `rhs`.
    spec fn less_than_spec(self, rhs: Self) -> bool;

    fn zero() -> (r: Self)
        ensures
            r == Self::zero_spec(),
    ;

    fn one() -> (r: Self)
        ensures
            r == Self::one_spec(),
    ;

    fn from_int(n: i32) -> (r: Self)
        ensures
            r == Self::from_int_spec(n),
    ;

    fn pi() -> (r: Self)
        ensures
            r == Self::pi_spec(),
    ;

    fn add(self, rhs: Self) -> (r: Self)
        ensures
            r == self.add_spec(rhs),
    ;

    fn sub(self, rhs: Self) -> (r: Self)
        ensures
            r == self.sub_spec(rhs),
    ;

    fn mul(self, rhs: Self) -> (r: Self)
        ensures
            r == self.mul_spec(rhs),
    ;

    fn div(self, rhs: Self) -> (r: Self)
        ensures
            r == self.div_spec(rhs),
    ;

    fn neg(self) -> (r: Self)
        ensures
            r == self.neg_spec(),
    ;

    fn tan(self) -> (r: Self)
        ensures
            r == self.tan_spec(),
    ;

    fn equals(self, rhs: Self) -> (r: bool)
        ensures
            r == self.equals_spec(rhs),
    ;

    fn less_than(self, rhs: Self) -> (r: bool)
        ensures
            r == self.less_than_spec(rhs),
    ;
}

/// Whether `x` is the scalar zero, by the scalar's own equality.
pub open spec fn is_zero<K: Scalar>(x: K) -> bool {
    x.equals_spec(K::zero_spec())
}

/// The scalar two.
pub open spec fn two<K: Scalar>() -> K {
    K::from_int_spec(2)
}

/// The scalar one half, as the quotient of one and two.
pub open spec fn half<K: Scalar>() -> K {
    K::one_spec().div_spec(two::<K>())
}

/// The larger of `a` and `b`; `a` where neither is less than the other.
pub open spec fn larger<K: Scalar>(a: K, b: K) -> K {
    if a.less_than_spec(b) {
        b
    } else {
        a
    }
}

/// The sum of the items of `s`, added from the left, starting at zero.
pub open spec fn sum<K: Scalar>(s: Seq<K>) -> K
    decreases s.len(),
{
    if s.len() == 0 {
        K::zero_spec()
    } else {
        sum(s.drop_last()).add_spec(s.last())
    }
}

/// Adding one more item to a prefix sum gives the sum of the longer prefix.
pub proof fn lemma_sum_step<K: Scalar>(s: Seq<K>, n: int)
    requires
        0 <= n < s.len(),
    ensures
        sum(s.take(n + 1)) == sum(s.take(n)).add_spec(s[n]),
{
    assert(s.take(n + 1).drop_last() == s.take(n));
}

} // verus!
