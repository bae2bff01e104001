use vstd::prelude::*;
use crate::scalar::Scalar;
use crate::vector::Vector;

verus! {

/// The cross product of two sequences of three scalars each; empty for any
/// other lengths.
pub open spec fn cross_product_spec<K: Scalar>(u: Seq<K>, v: Seq<K>) -> Seq<K> {
    if u.len() == 3 && v.len() == 3 {
        seq![
            u[1].mul_spec(v[2]).sub_spec(u[2].mul_spec(v[1])),
            u[2].mul_spec(v[0]).sub_spec(u[0].mul_spec(v[2])),
            u[0].mul_spec(v[1]).sub_spec(u[1].mul_spec(v[0])),
        ]
    } else {
        Seq::empty()
    }
}

/// The cross product of two vectors of three elements each; an empty vector
/// where either has another size.
pub fn cross_product<K: Scalar>(u: &Vector<K>, v: &Vector<K>) -> (r: Vector<K>)
    ensures
        r@ == cross_product_spec(u@, v@),
{
    if u.size() != 3 || v.size() != 3 {
        return Vector::new(0);
    }
    let mut elements: Vec<K> = Vec::with_capacity(3);
    elements.push(u.get(1).mul(v.get(2)).sub(u.get(2).mul(v.get(1))));
    elements.push(u.get(2).mul(v.get(0)).sub(u.get(0).mul(v.get(2))));
    elements.push(u.get(0).mul(v.get(1)).sub(u.get(1).mul(v.get(0))));
    assert(elements@ =~= cross_product_spec(u@, v@));
    Vector::from(elements)
}

} // verus!
