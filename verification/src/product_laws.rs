use vstd::prelude::*;
use crate::matrix::{col_count, column, identity_spec, product, rectangular};
use crate::scalar::{sum, Scalar};
use crate::vector::products;

verus! {

/// Whether the scalar's zero and one act on `x` as they act on a number:
/// zero times `x` is zero, one times `x` is `x`, both in either order, and
/// zero added to `x` is `x`, in either order. Exact arithmetic meets this
/// for every `x`; rounding arithmetic meets it for the finite numbers, but
/// for a zero with a sign.
pub open spec fn zero_and_one_respect<K: Scalar>(x: K) -> bool {
    let zero = K::zero_spec();
    let one = K::one_spec();
    &&& zero.mul_spec(x) == zero
    &&& x.mul_spec(zero) == zero
    &&& one.mul_spec(x) == x
    &&& x.mul_spec(one) == x
    &&& zero.add_spec(x) == x
    &&& x.add_spec(zero) == x
}

/// Whether the scalar's zero and one act as on numbers on zero itself and
/// on every cell of `m`.
pub open spec fn respected_throughout<K: Scalar>(m: Seq<Seq<K>>) -> bool {
    &&& zero_and_one_respect(K::zero_spec())
    &&& forall|i: int, j: int|
        0 <= i < m.len() && 0 <= j < m[i].len() ==> zero_and_one_respect(#[trigger] m[i][j])
}

/// A sum of terms that are all zero but the one at `at` is that term, where
/// zero and one act on it as on a number. Up to `upto` terms the sum is zero
/// before the term is reached and the term after.
proof fn lemma_sum_of_single_term<K: Scalar>(terms: Seq<K>, at: int, upto: int)
    requires
        0 <= at < terms.len(),
        0 <= upto <= terms.len(),
        zero_and_one_respect(K::zero_spec()),
        zero_and_one_respect(terms[at]),
        forall|k: int| 0 <= k < terms.len() && k != at ==> terms[k] == K::zero_spec(),
    ensures
        sum(terms.take(upto)) == (if upto <= at {
            K::zero_spec()
        } else {
            terms[at]
        }),
    decreases upto,
{
    if upto > 0 {
        lemma_sum_of_single_term(terms, at, upto - 1);
        crate::scalar::lemma_sum_step(terms, upto - 1);
    }
}

/// The identity matrix times a matrix is that matrix, where zero and one
/// act on its cells as on numbers.
pub proof fn lemma_identity_times<K: Scalar>(m: Seq<Seq<K>>)
    requires
        rectangular(m),
        respected_throughout(m),
    ensures
        product(identity_spec(m.len(), K::one_spec()), m) == m,
{
    let unit = identity_spec(m.len(), K::one_spec());
    let p = product(unit, m);
    if m.len() > 0 {
        assert(unit[0].len() == m.len());
        assert forall|i: int| 0 <= i < m.len() implies #[trigger] p[i] =~= m[i] by {
            assert(m[i].len() == m[0].len());
            assert forall|j: int| 0 <= j < m[i].len() implies p[i][j] == m[i][j] by {
                let terms = products(unit[i], column(m, j));
                assert forall|k: int| 0 <= k < terms.len() && k != i implies terms[k]
                    == K::zero_spec() by {
                    assert(m[k].len() == m[0].len());
                    assert(zero_and_one_respect(m[k][j]));
                }
                assert(zero_and_one_respect(m[i][j]));
                assert(terms[i] == m[i][j]);
                lemma_sum_of_single_term(terms, i, terms.len() as int);
                assert(terms.take(terms.len() as int) =~= terms);
            }
        }
    }
    assert(p =~= m);
}

/// A matrix times the identity matrix is that matrix, where zero and one
/// act on its cells as on numbers.
pub proof fn lemma_times_identity<K: Scalar>(m: Seq<Seq<K>>)
    requires
        rectangular(m),
        respected_throughout(m),
    ensures
        product(m, identity_spec(col_count(m), K::one_spec())) == m,
{
    let cols = col_count(m);
    let unit = identity_spec(cols, K::one_spec());
    let p = product(m, unit);
    if cols > 0 {
        assert(unit[0].len() == cols);
    }
    assert(col_count(unit) == cols);
    assert forall|i: int| 0 <= i < m.len() implies #[trigger] p[i] =~= m[i] by {
        assert(m[i].len() == m[0].len());
        assert forall|j: int| 0 <= j < m[i].len() implies p[i][j] == m[i][j] by {
            let terms = products(m[i], column(unit, j));
            assert forall|k: int| 0 <= k < terms.len() && k != j implies terms[k]
                == K::zero_spec() by {
                assert(zero_and_one_respect(m[i][k]));
            }
            assert(zero_and_one_respect(m[i][j]));
            assert(terms[j] == m[i][j]);
            lemma_sum_of_single_term(terms, j, terms.len() as int);
            assert(terms.take(terms.len() as int) =~= terms);
        }
    }
    assert(p =~= m);
}

} // verus!
