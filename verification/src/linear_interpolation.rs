use vstd::prelude::*;
use crate::matrix::Matrix;
use crate::scalar::Scalar;
use crate::vector::Vector;

verus! {

/// The point between `a` and `b` at the fraction `t` of the way:
/// `a * (1 - t) + b * t`.
pub open spec fn interpolated<K: Scalar>(a: K, b: K, t: K) -> K {
    a.mul_spec(K::one_spec().sub_spec(t)).add_spec(b.mul_spec(t))
}

/// Item by item interpolation between two sequences of one length; empty
/// where the lengths differ.
pub open spec fn interpolated_items<K: Scalar>(a: Seq<K>, b: Seq<K>, t: K) -> Seq<K> {
    if a.len() == b.len() {
        Seq::new(a.len(), |i: int| interpolated(a[i], b[i], t))
    } else {
        Seq::empty()
    }
}

/// Cell by cell interpolation between two matrices of one shape; empty
/// where the shapes differ.
pub open spec fn interpolated_cells<K: Scalar>(a: Seq<Seq<K>>, b: Seq<Seq<K>>, t: K) -> Seq<
    Seq<K>,
> {
    if crate::matrix::shape_spec(a) == crate::matrix::shape_spec(b) {
        Seq::new(a.len(), |i: int| interpolated_items(a[i], b[i], t))
    } else {
        Seq::empty()
    }
}

/// Values between which one can interpolate linearly, with weights of the
/// scalar type `K`.
pub trait Lerp<K: Scalar>: Sized {
    /// Whether `r` is the interpolation between `a` and `b` at `t`.
    spec fn is_lerp(a: &Self, b: &Self, t: K, r: &Self) -> bool;

    /// The interpolation between `a` and `b` at `t`: `a` at zero, `b` at
    /// one.
    fn lerp(a: &Self, b: &Self, t: K) -> (r: Self)
        ensures
            Self::is_lerp(a, b, t, &r),
    ;
}

impl<K: Scalar> Lerp<K> for K {
    open spec fn is_lerp(a: &Self, b: &Self, t: K, r: &Self) -> bool {
        *r == interpolated(*a, *b, t)
    }

    fn lerp(a: &Self, b: &Self, t: K) -> (r: Self) {
        a.mul(K::one().sub(t)).add(b.mul(t))
    }
}

impl<K: Scalar> Lerp<K> for Vector<K> {
    open spec fn is_lerp(a: &Self, b: &Self, t: K, r: &Self) -> bool {
        r@ == interpolated_items(a@, b@, t)
    }

    /// Element by element; an empty vector where the sizes differ.
    fn lerp(a: &Self, b: &Self, t: K) -> (r: Self) {
        Vector::from(lerp_items(a.all(), b.all(), t))
    }
}

impl<K: Scalar> Lerp<K> for Matrix<K> {
    open spec fn is_lerp(a: &Self, b: &Self, t: K, r: &Self) -> bool {
        r@ == interpolated_cells(a@, b@, t)
    }

    /// Element by element; an empty matrix where the shapes differ.
    fn lerp(a: &Self, b: &Self, t: K) -> (r: Self) {
        let a_shape = a.shape();
        let b_shape = b.shape();
        if a_shape[0] != b_shape[0] || a_shape[1] != b_shape[1] {
            let empty = Matrix::new([0, 0]);
            assert(empty@ =~= Seq::<Seq<K>>::empty());
            return empty;
        }
        let rows = a_shape[0];
        let left = a.all();
        let right = b.all();
        let mut grid: Vec<Vec<K>> = Vec::with_capacity(rows);
        let mut i: usize = 0;
        while i < rows
            invariant
                i <= rows,
                crate::matrix::rows_of(left@) == a@,
                crate::matrix::rows_of(right@) == b@,
                crate::matrix::has_shape(a@, rows as nat, a_shape[1] as nat),
                crate::matrix::has_shape(b@, rows as nat, a_shape[1] as nat),
                grid@.len() == i,
                forall|k: int| 0 <= k < i ==> (#[trigger] grid@[k])@ == interpolated_items(a@[k], b@[k], t),
            decreases rows - i,
        {
            assert(a@[i as int] == left@[i as int]@);
            assert(b@[i as int] == right@[i as int]@);
            grid.push(lerp_items(&left[i], &right[i], t));
            i += 1;
        }
        assert(crate::matrix::rows_of(grid@) =~= interpolated_cells(a@, b@, t));
        assert(crate::matrix::rectangular(crate::matrix::rows_of(grid@))) by {
            assert forall|k: int| 0 <= k < rows implies (#[trigger] crate::matrix::rows_of(
                grid@,
            )[k]).len() == crate::matrix::rows_of(grid@)[0].len() by {
                assert(a@[k].len() == b@[k].len());
                assert(a@[0].len() == b@[0].len());
            }
        }
        Matrix::from_grid(grid)
    }
}

/// Item by item interpolation between two lists; empty where the lengths
/// differ.
fn lerp_items<K: Scalar>(a: &Vec<K>, b: &Vec<K>, t: K) -> (r: Vec<K>)
    ensures
        r@ == interpolated_items(a@, b@, t),
{
    let size = a.len();
    if size != b.len() {
        return Vec::new();
    }
    let mut r: Vec<K> = Vec::with_capacity(size);
    let mut i: usize = 0;
    while i < size
        invariant
            i <= size,
            size == a@.len(),
            size == b@.len(),
            r@.len() == i,
            forall|k: int| 0 <= k < i ==> r@[k] == interpolated(a@[k], b@[k], t),
        decreases size - i,
    {
        r.push(a[i].mul(K::one().sub(t)).add(b[i].mul(t)));
        i += 1;
    }
    assert(r@ =~= interpolated_items(a@, b@, t));
    r
}

/// The linear interpolation between `a` and `b` at `t`, for scalars,
/// vectors and matrices alike.
pub fn lerp<K: Scalar, T: Lerp<K>>(a: &T, b: &T, t: K) -> (r: T)
    ensures
        T::is_lerp(a, b, t, &r),
{
    T::lerp(a, b, t)
}

} // verus!
