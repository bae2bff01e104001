use vstd::prelude::*;
use crate::scalar::Scalar;
use crate::vector::Vector;

verus! {

/// The cosine of the angle between `u` and `v`: their dot product divided by
/// the product of their Euclidean norms. Zero where either is empty, where
/// the lengths differ, or where the product of the norms is zero.
pub open spec fn angle_cos_spec<K: Scalar>(u: Seq<K>, v: Seq<K>) -> K {
    let scale = crate::vector::norm_spec(u).mul_spec(crate::vector::norm_spec(v));
    if u.len() == 0 || u.len() != v.len() || crate::scalar::is_zero(scale) {
        K::zero_spec()
    } else {
        crate::vector::dot_spec(u, v).div_spec(scale)
    }
}

/// The cosine of the angle between two vectors of one size. Two vectors for
/// which no angle is defined give zero: empty vectors, vectors of different
/// sizes, and vectors whose norms multiply to zero.
pub fn angle_cos<K: Scalar>(u: &Vector<K>, v: &Vector<K>) -> (r: K)
    ensures
        r == angle_cos_spec(u@, v@),
{
    let u_size = u.size();
    let v_size = v.size();
    if u_size == 0 || v_size == 0 {
        return K::zero();
    }
    if u_size != v_size {
        return K::zero();
    }
    let scale = u.norm().mul(v.norm());
    if scale.equals(K::zero()) {
        return K::zero();
    }
    u.dot(v).div(scale)
}

} // verus!
