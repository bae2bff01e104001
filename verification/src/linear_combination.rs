use vstd::prelude::*;
use crate::error::Error;
use crate::scalar::Scalar;
use crate::vector::Vector;

verus! {

/// The views of a list of vectors, in order.
pub open spec fn views<K: Scalar>(vectors: Seq<Vector<K>>) -> Seq<Seq<K>> {
    Seq::new(vectors.len(), |i: int| vectors[i]@)
}

/// The weighted sum of the vectors `vs` with the weights `coeffs`: in each
/// position the dot product of the vectors' items there and the weights.
/// An empty list of either kind is an error, and so are vectors of
/// different lengths and a number of weights other than that of the
/// vectors, in this order.
pub open spec fn linear_combination_spec<K: Scalar>(vs: Seq<Seq<K>>, coeffs: Seq<K>) -> Result<
    Seq<K>,
    Error,
> {
    if vs.len() == 0 || coeffs.len() == 0 {
        Err(Error::EmptyInput)
    } else if !crate::matrix::rectangular(vs) {
        Err(
            Error::ShapeMismatch {
                expected: crate::vector::shape_of(vs[0].len() as usize),
                actual: crate::vector::shape_of(
                    vs[crate::matrix::first_ragged_row(vs, 0)].len() as usize,
                ),
            },
        )
    } else if coeffs.len() != vs.len() {
        Err(
            Error::ShapeMismatch {
                expected: crate::vector::shape_of(vs.len() as usize),
                actual: crate::vector::shape_of(coeffs.len() as usize),
            },
        )
    } else {
        Ok(
            Seq::new(
                vs[0].len(),
                |c: int| crate::vector::dot_spec(crate::matrix::column(vs, c), coeffs),
            ),
        )
    }
}

/// The weighted sum of `vectors` with the weights `coeffs`.
pub fn linear_combination<K: Scalar>(vectors: &[Vector<K>], coeffs: &[K]) -> (r: Result<
    Vector<K>,
    Error,
>)
    ensures
        r is Ok <==> linear_combination_spec(views(vectors@), coeffs@) is Ok,
        r is Ok ==> r->Ok_0@ == linear_combination_spec(views(vectors@), coeffs@)->Ok_0,
        r is Err ==> r->Err_0 == linear_combination_spec(views(vectors@), coeffs@)->Err_0,
{
    let ghost vs = views(vectors@);
    let count = vectors.len();
    if count == 0 {
        return Err(Error::EmptyInput);
    }
    if coeffs.len() == 0 {
        return Err(Error::EmptyInput);
    }
    let size = vectors[0].size();
    assert(vs[0] == vectors@[0]@);
    assert(crate::matrix::first_ragged_row(vs, 0) == crate::matrix::first_ragged_row(vs, 1));
    let mut i: usize = 1;
    while i < count
        invariant
            1 <= i <= count,
            count == vectors@.len(),
            coeffs@.len() > 0,
            vs == views(vectors@),
            size == vs[0].len(),
            forall|k: int| 0 <= k < i ==> (#[trigger] vs[k]).len() == size,
            crate::matrix::first_ragged_row(vs, 0) == crate::matrix::first_ragged_row(vs, i as int),
        decreases count - i,
    {
        assert(vs[i as int] == vectors@[i as int]@);
        if vectors[i].size() != size {
            assert(crate::matrix::first_ragged_row(vs, i as int) == i);
            assert(!crate::matrix::rectangular(vs));
            return Err(crate::vector::mismatch(size, vectors[i].size()));
        }
        i += 1;
    }
    assert(crate::matrix::rectangular(vs));
    if coeffs.len() != count {
        return Err(crate::vector::mismatch(count, coeffs.len()));
    }
    let mut elements: Vec<K> = Vec::with_capacity(size);
    let mut column: usize = 0;
    while column < size
        invariant
            column <= size,
            0 < count,
            count == vectors@.len(),
            count == coeffs@.len(),
            vs == views(vectors@),
            crate::matrix::has_shape(vs, count as nat, size as nat),
            elements@.len() == column,
            forall|c: int|
                0 <= c < column ==> elements@[c] == crate::vector::dot_spec(
                    crate::matrix::column(vs, c),
                    coeffs@,
                ),
        decreases size - column,
    {
        let ghost terms = crate::vector::products(crate::matrix::column(vs, column as int), coeffs@);
        let mut value = K::zero();
        let mut index: usize = 0;
        while index < count
            invariant
                index <= count,
                column < size,
                count == vectors@.len(),
                count == coeffs@.len(),
                vs == views(vectors@),
                crate::matrix::has_shape(vs, count as nat, size as nat),
                terms == crate::vector::products(crate::matrix::column(vs, column as int), coeffs@),
                value == crate::scalar::sum(terms.take(index as int)),
            decreases count - index,
        {
            proof {
                assert(vs[index as int] == vectors@[index as int]@);
                assert(vs[index as int].len() == size);
                crate::scalar::lemma_sum_step(terms, index as int);
            }
            value = value.add(vectors[index].get(column).mul(coeffs[index]));
            index += 1;
        }
        assert(terms.take(count as int) == terms);
        elements.push(value);
        column += 1;
    }
    assert(elements@ =~= linear_combination_spec(vs, coeffs@)->Ok_0);
    Ok(Vector::from(elements))
}

} // verus!
