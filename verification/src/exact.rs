use vstd::prelude::*;
use crate::scalar::Scalar;

verus! {

/// The absolute value of a real number.
pub open spec fn magnitude(x: real) -> real {
    if x < 0real {
        -x
    } else {
        x
    }
}

/// Whether the scalar's arithmetic is exact under `value`, which reads each
/// scalar as a real number: the constants stand for zero and one, sums,
/// differences, products, negations and absolute values are those of the
/// real numbers, so are quotients by anything but zero, and the scalar's
/// equality and order are those of the numbers the scalars stand for.
///
/// Rounding arithmetic is not exact under any reading. The contracts of the
/// operations never ask for exactness; theorems that hold of exact
/// arithmetic only do.
pub open spec fn exact_under<K: Scalar>(value: spec_fn(K) -> real) -> bool {
    &&& value(K::zero_spec()) == 0real
    &&& value(K::one_spec()) == 1real
    &&& forall|a: K, b: K| value(#[trigger] a.add_spec(b)) == value(a) + value(b)
    &&& forall|a: K, b: K| value(#[trigger] a.sub_spec(b)) == value(a) - value(b)
    &&& forall|a: K, b: K| value(#[trigger] a.mul_spec(b)) == value(a) * value(b)
    &&& forall|a: K, b: K|
        value(b) != 0real ==> value(#[trigger] a.div_spec(b)) == value(a) / value(b)
    &&& forall|a: K| value(#[trigger] a.neg_spec()) == -value(a)
    &&& forall|a: K| value(#[trigger] a.abs_spec()) == magnitude(value(a))
    &&& forall|a: K, b: K| #[trigger] a.equals_spec(b) <==> value(a) == value(b)
    &&& forall|a: K, b: K| #[trigger] a.less_than_spec(b) <==> value(a) < value(b)
}

/// Whether squares and square roots are exact under `value`: a power with
/// the exponent two stands for the square, and a power of a number that is
/// not negative with the exponent one half stands for the root that is not
/// negative.
pub open spec fn powers_exact_under<K: Scalar>(value: spec_fn(K) -> real) -> bool {
    &&& forall|a: K|
        value(#[trigger] a.pow_spec(crate::scalar::two::<K>())) == value(a) * value(a)
    &&& forall|a: K|
        value(a) >= 0real ==> {
            let root = value(#[trigger] a.pow_spec(crate::scalar::half::<K>()));
            root >= 0real && root * root == value(a)
        }
}

/// Whether two matrices have one shape and hold, cell for cell, the same
/// numbers by the scalar's own equality.
pub open spec fn same_numbers<K: Scalar>(a: Seq<Seq<K>>, b: Seq<Seq<K>>) -> bool {
    &&& a.len() == b.len()
    &&& forall|i: int| 0 <= i < a.len() ==> (#[trigger] a[i]).len() == b[i].len()
    &&& forall|i: int, j: int|
        0 <= i < a.len() && 0 <= j < a[i].len() ==> (#[trigger] a[i][j]).equals_spec(b[i][j])
}

/// The numbers that the items of `s` stand for.
pub open spec fn values<K: Scalar>(value: spec_fn(K) -> real, s: Seq<K>) -> Seq<real> {
    Seq::new(s.len(), |i: int| value(s[i]))
}

/// The numbers that the cells of `m` stand for.
pub open spec fn cell_values<K: Scalar>(value: spec_fn(K) -> real, m: Seq<Seq<K>>) -> Seq<
    Seq<real>,
> {
    Seq::new(m.len(), |i: int| values(value, m[i]))
}

/// The sum of a sequence of real numbers.
pub open spec fn total(s: Seq<real>) -> real
    decreases s.len(),
{
    if s.len() == 0 {
        0real
    } else {
        total(s.drop_last()) + s.last()
    }
}

/// Under exact arithmetic the sum of scalars stands for the sum of the
/// numbers they stand for.
pub proof fn lemma_sum_value<K: Scalar>(value: spec_fn(K) -> real, s: Seq<K>)
    requires
        exact_under(value),
    ensures
        value(crate::scalar::sum(s)) == total(values(value, s)),
    decreases s.len(),
{
    if s.len() > 0 {
        lemma_sum_value(value, s.drop_last());
        assert(values(value, s).drop_last() =~= values(value, s.drop_last()));
    }
}

/// A sum of zeros is zero.
pub proof fn lemma_total_zero(s: Seq<real>)
    requires
        forall|k: int| 0 <= k < s.len() ==> s[k] == 0real,
    ensures
        total(s) == 0real,
    decreases s.len(),
{
    if s.len() > 0 {
        lemma_total_zero(s.drop_last());
    }
}

/// A sum in which every term but the one at `at` is zero is that term.
pub proof fn lemma_total_single(s: Seq<real>, at: int)
    requires
        0 <= at < s.len(),
        forall|k: int| 0 <= k < s.len() && k != at ==> s[k] == 0real,
    ensures
        total(s) == s[at],
    decreases s.len(),
{
    let front = s.drop_last();
    if at == s.len() - 1 {
        lemma_total_zero(front);
    } else {
        lemma_total_single(front, at);
    }
}

} // verus!
