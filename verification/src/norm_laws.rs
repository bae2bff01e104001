use vstd::prelude::*;
use crate::exact::{exact_under, powers_exact_under};
use crate::scalar::Scalar;

verus! {

/// The squares of a sequence of real numbers.
pub open spec fn squared(s: Seq<real>) -> Seq<real> {
    Seq::new(s.len(), |i: int| s[i] * s[i])
}

/// The absolute values of a sequence of real numbers.
pub open spec fn magnitudes_of(s: Seq<real>) -> Seq<real> {
    Seq::new(s.len(), |i: int| crate::exact::magnitude(s[i]))
}

/// Of two numbers that are not negative, the one with the smaller square is
/// the smaller.
proof fn lemma_order_by_squares(a: real, b: real)
    requires
        0real <= a,
        0real <= b,
        a * a <= b * b,
    ensures
        a <= b,
{
    if a > b {
        assert(a * a > b * b) by (nonlinear_arith)
            requires
                a > b,
                b >= 0real,
        ;
    }
}

/// A square is not negative, and is zero for zero only.
proof fn lemma_square(x: real)
    ensures
        x * x >= 0real,
        x * x == 0real <==> x == 0real,
        crate::exact::magnitude(x) * crate::exact::magnitude(x) == x * x,
{
    assert(x * x >= 0real) by (nonlinear_arith);
    assert(x * x == 0real <==> x == 0real) by (nonlinear_arith);
    assert((-x) * (-x) == x * x) by (nonlinear_arith);
}

/// A sum of squares is not negative, and is zero where every number is.
proof fn lemma_total_of_squares(s: Seq<real>)
    ensures
        total_of_squares(s) >= 0real,
        total_of_squares(s) == 0real <==> forall|i: int| 0 <= i < s.len() ==> s[i] == 0real,
    decreases s.len(),
{
    if s.len() > 0 {
        let front = s.drop_last();
        lemma_total_of_squares(front);
        lemma_square(s.last());
        assert(squared(s).drop_last() =~= squared(front));
        assert(total_of_squares(s) == total_of_squares(front) + s.last() * s.last());
        if total_of_squares(s) == 0real {
            assert forall|i: int| 0 <= i < s.len() implies s[i] == 0real by {
                if i < s.len() - 1 {
                    assert(front[i] == 0real);
                }
            }
        }
        if forall|i: int| 0 <= i < s.len() ==> s[i] == 0real {
            assert forall|i: int| 0 <= i < front.len() implies front[i] == 0real by {
                assert(s[i] == 0real);
            }
        }
    }
}

/// The sum of the squares of a sequence of real numbers.
pub open spec fn total_of_squares(s: Seq<real>) -> real {
    crate::exact::total(squared(s))
}

/// The square of a sum of absolute values is at least the sum of the
/// squares.
proof fn lemma_taxicab_bounds_squares(s: Seq<real>)
    ensures
        crate::exact::total(magnitudes_of(s)) >= 0real,
        total_of_squares(s) <= crate::exact::total(magnitudes_of(s)) * crate::exact::total(
            magnitudes_of(s),
        ),
    decreases s.len(),
{
    if s.len() > 0 {
        let front = s.drop_last();
        lemma_taxicab_bounds_squares(front);
        lemma_square(s.last());
        assert(squared(s).drop_last() =~= squared(front));
        assert(magnitudes_of(s).drop_last() =~= magnitudes_of(front));
        let t = crate::exact::total(magnitudes_of(front));
        let a = crate::exact::magnitude(s.last());
        assert((t + a) * (t + a) >= t * t + a * a) by (nonlinear_arith)
            requires
                t >= 0real,
                a >= 0real,
        ;
    } else {
        assert(0real * 0real == 0real) by (nonlinear_arith);
    }
}

/// Under exact arithmetic the supremum norm stands for a number that is
/// not negative and whose square is at most the sum of the squares.
proof fn lemma_supremum_bounded_by_squares<K: Scalar>(value: spec_fn(K) -> real, v: Seq<K>)
    requires
        exact_under(value),
    ensures
        value(crate::vector::norm_inf_spec(v)) >= 0real,
        value(crate::vector::norm_inf_spec(v)) * value(crate::vector::norm_inf_spec(v))
            <= total_of_squares(crate::exact::values(value, v)),
    decreases v.len(),
{
    let xs = crate::exact::values(value, v);
    if v.len() == 0 {
        assert(0real * 0real == 0real) by (nonlinear_arith);
    } else if v.len() == 1 {
        lemma_square(xs[0]);
        assert(squared(xs).drop_last() =~= Seq::<real>::empty());
        assert(crate::exact::total(Seq::<real>::empty()) == 0real);
        assert(squared(xs).last() == xs[0] * xs[0]);
        assert(total_of_squares(xs) == 0real + xs[0] * xs[0]);
    } else {
        let front = v.drop_last();
        lemma_supremum_bounded_by_squares(value, front);
        assert(xs.drop_last() =~= crate::exact::values(value, front));
        assert(squared(xs).drop_last() =~= squared(xs.drop_last()));
        lemma_total_of_squares(xs.drop_last());
        lemma_square(xs.last());
        assert(xs.last() == value(v.last()));
    }
}

/// Under exact arithmetic the three norms are in order: the supremum norm
/// is at most the Euclidean norm, which is at most the taxicab norm. The
/// Euclidean norm is zero for the vectors of zeros and for no others.
pub proof fn lemma_norms_in_order<K: Scalar>(value: spec_fn(K) -> real, v: Seq<K>)
    requires
        exact_under(value),
        powers_exact_under(value),
    ensures
        value(crate::vector::norm_inf_spec(v)) <= value(crate::vector::norm_spec(v)),
        value(crate::vector::norm_spec(v)) <= value(crate::vector::norm_1_spec(v)),
        !crate::vector::norm_spec(v).less_than_spec(crate::vector::norm_inf_spec(v)),
        !crate::vector::norm_1_spec(v).less_than_spec(crate::vector::norm_spec(v)),
        crate::scalar::is_zero(crate::vector::norm_spec(v)) <==> forall|i: int|
            0 <= i < v.len() ==> crate::scalar::is_zero(#[trigger] v[i]),
{
    let xs = crate::exact::values(value, v);
    let sum_of_squares = crate::scalar::sum(crate::vector::squares(v));
    let root = value(crate::vector::norm_spec(v));
    lemma_euclidean_value(value, v);
    lemma_total_of_squares(xs);
    assert(root >= 0real && root * root == total_of_squares(xs));

    lemma_supremum_bounded_by_squares(value, v);
    lemma_order_by_squares(value(crate::vector::norm_inf_spec(v)), root);

    crate::exact::lemma_sum_value(value, crate::vector::magnitudes(v));
    assert(crate::exact::values(value, crate::vector::magnitudes(v)) =~= magnitudes_of(xs));
    lemma_taxicab_bounds_squares(xs);
    lemma_order_by_squares(root, value(crate::vector::norm_1_spec(v)));

    lemma_square(root);
    if crate::scalar::is_zero(crate::vector::norm_spec(v)) {
        assert forall|i: int| 0 <= i < v.len() implies crate::scalar::is_zero(#[trigger] v[i]) by {
            assert(xs[i] == 0real);
        }
    }
    if forall|i: int| 0 <= i < v.len() ==> crate::scalar::is_zero(#[trigger] v[i]) {
        assert forall|i: int| 0 <= i < xs.len() implies xs[i] == 0real by {
            assert(crate::scalar::is_zero(v[i]));
        }
    }
}

/// Under exact arithmetic the Euclidean norm stands for the root, not
/// negative, of the sum of the squares.
proof fn lemma_euclidean_value<K: Scalar>(value: spec_fn(K) -> real, v: Seq<K>)
    requires
        exact_under(value),
        powers_exact_under(value),
    ensures
        value(crate::vector::norm_spec(v)) >= 0real,
        value(crate::vector::norm_spec(v)) * value(crate::vector::norm_spec(v)) == total_of_squares(
            crate::exact::values(value, v),
        ),
        value(crate::scalar::sum(crate::vector::squares(v))) == total_of_squares(
            crate::exact::values(value, v),
        ),
{
    let xs = crate::exact::values(value, v);
    crate::exact::lemma_sum_value(value, crate::vector::squares(v));
    assert(crate::exact::values(value, crate::vector::squares(v)) =~= squared(xs));
    lemma_total_of_squares(xs);
}

/// Under exact arithmetic the cosine of the angle between a vector and
/// itself is one, for every vector that has an element other than zero.
pub proof fn lemma_cosine_with_itself<K: Scalar>(value: spec_fn(K) -> real, u: Seq<K>)
    requires
        exact_under(value),
        powers_exact_under(value),
        exists|i: int| 0 <= i < u.len() && !crate::scalar::is_zero(#[trigger] u[i]),
    ensures
        crate::cosine::angle_cos_spec(u, u).equals_spec(K::one_spec()),
{
    let xs = crate::exact::values(value, u);
    let witness = choose|i: int| 0 <= i < u.len() && !crate::scalar::is_zero(#[trigger] u[i]);
    assert(xs[witness] != 0real);
    lemma_euclidean_value(value, u);
    lemma_total_of_squares(xs);
    let s = total_of_squares(xs);
    assert(s != 0real);
    crate::exact::lemma_sum_value(value, crate::vector::products(u, u));
    assert(crate::exact::values(value, crate::vector::products(u, u)) =~= squared(xs));
    let scale = crate::vector::norm_spec(u).mul_spec(crate::vector::norm_spec(u));
    assert(value(scale) == s);
    assert(value(crate::vector::dot_spec(u, u)) == s);
    assert(s / s == 1real) by (nonlinear_arith)
        requires
            s != 0real,
    ;
}

} // verus!
