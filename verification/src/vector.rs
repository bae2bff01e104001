use vstd::prelude::*;
use crate::error::{Error, Shape};
use crate::matrix::Matrix;
use crate::scalar::Scalar;

verus! {

/// `n` zeros.
pub open spec fn zeros<K: Scalar>(n: nat) -> Seq<K> {
    Seq::new(n, |i: int| K::zero_spec())
}

/// `n` copies of `value`.
pub open spec fn filled<K: Scalar>(n: nat, value: K) -> Seq<K> {
    Seq::new(n, |i: int| value)
}

/// The elementwise sums `u[i] + v[i]`, as many as `u` has items.
pub open spec fn sums<K: Scalar>(u: Seq<K>, v: Seq<K>) -> Seq<K> {
    Seq::new(u.len(), |i: int| u[i].add_spec(v[i]))
}

/// The elementwise differences `u[i] - v[i]`, as many as `u` has items.
pub open spec fn differences<K: Scalar>(u: Seq<K>, v: Seq<K>) -> Seq<K> {
    Seq::new(u.len(), |i: int| u[i].sub_spec(v[i]))
}

/// The elementwise products `u[i] * v[i]`, as many as `u` has items.
pub open spec fn products<K: Scalar>(u: Seq<K>, v: Seq<K>) -> Seq<K> {
    Seq::new(u.len(), |i: int| u[i].mul_spec(v[i]))
}

/// Every item of `u` multiplied by `factor`.
pub open spec fn scaled<K: Scalar>(u: Seq<K>, factor: K) -> Seq<K> {
    Seq::new(u.len(), |i: int| u[i].mul_spec(factor))
}

/// The absolute values of the items of `u`.
pub open spec fn magnitudes<K: Scalar>(u: Seq<K>) -> Seq<K> {
    Seq::new(u.len(), |i: int| u[i].abs_spec())
}

/// The squares of the items of `u`, each as a power with exponent two.
pub open spec fn squares<K: Scalar>(u: Seq<K>) -> Seq<K> {
    Seq::new(u.len(), |i: int| u[i].pow_spec(crate::scalar::two::<K>()))
}

/// The dot product: the sum of the elementwise products of two sequences of
/// one length, and zero for sequences of different lengths.
pub open spec fn dot_spec<K: Scalar>(u: Seq<K>, v: Seq<K>) -> K {
    if u.len() == v.len() {
        crate::scalar::sum(products(u, v))
    } else {
        K::zero_spec()
    }
}

/// The taxicab norm: the sum of the absolute values.
pub open spec fn norm_1_spec<K: Scalar>(u: Seq<K>) -> K {
    crate::scalar::sum(magnitudes(u))
}

/// The Euclidean norm: the sum of the squares, raised to the power one half.
pub open spec fn norm_spec<K: Scalar>(u: Seq<K>) -> K {
    crate::scalar::sum(squares(u)).pow_spec(crate::scalar::half::<K>())
}

/// The supremum norm: the largest absolute value, and zero for no items.
/// Among items of which none is less than another the earliest counts.
pub open spec fn norm_inf_spec<K: Scalar>(u: Seq<K>) -> K
    decreases u.len(),
{
    if u.len() == 0 {
        K::zero_spec()
    } else if u.len() == 1 {
        u[0].abs_spec()
    } else {
        crate::scalar::larger(norm_inf_spec(u.drop_last()), u.last().abs_spec())
    }
}

/// Whether the scalar's multiplication gives the same product for either
/// order of its factors.
pub open spec fn multiplication_commutes<K: Scalar>() -> bool {
    forall|a: K, b: K| #[trigger] a.mul_spec(b) == b.mul_spec(a)
}

/// The dot product does not depend on the order of its two vectors, where
/// the scalar's multiplication does not depend on the order of its factors.
pub proof fn lemma_dot_commutes<K: Scalar>(u: Seq<K>, v: Seq<K>)
    requires
        multiplication_commutes::<K>(),
    ensures
        dot_spec(u, v) == dot_spec(v, u),
{
    if u.len() == v.len() {
        assert(products(u, v) =~= products(v, u));
    }
}

/// The shape of a vector of `n` elements seen as a matrix: one row of `n`
/// columns, or no rows and no columns where it is empty.
pub open spec fn shape_of(n: usize) -> Shape {
    if n > 0 {
        Shape { rows: 1, cols: n }
    } else {
        Shape { rows: 0, cols: 0 }
    }
}

/// An ordered sequence of scalars whose length is fixed once it is made.
#[derive(Debug)]
pub struct Vector<K: Scalar> {
    pub(crate) elements: Vec<K>,
}

impl<K: Scalar> View for Vector<K> {
    type V = Seq<K>;

    closed spec fn view(&self) -> Seq<K> {
        self.elements@
    }
}

impl<K: Scalar> Clone for Vector<K> {
    fn clone(&self) -> (r: Self)
        ensures
            r@ == self@,
    {
        Vector { elements: copy_of(&self.elements) }
    }
}

impl<K: Scalar> Default for Vector<K> {
    fn default() -> (r: Self)
        ensures
            r@ == Seq::<K>::empty(),
    {
        Vector { elements: Vec::new() }
    }
}

impl<K: Scalar> From<Vec<K>> for Vector<K> {
    fn from(vec: Vec<K>) -> (r: Self)
        ensures
            r@ == vec@,
    {
        Vector { elements: vec }
    }
}

impl<K: Scalar> vstd::std_specs::convert::FromSpecImpl<Vec<K>> for Vector<K> {
    open spec fn obeys_from_spec() -> bool {
        true
    }

    closed spec fn from_spec(vec: Vec<K>) -> Self {
        Vector { elements: vec }
    }
}

/// The elementwise sum of two vectors of one size, as a new vector; an
/// empty vector where the sizes differ. The contract of an operator stands
/// on its method, where callers of the operator find it.
impl<K: Scalar> core::ops::Add for Vector<K> {
    type Output = Vector<K>;

    fn add(self, rhs: Self) -> (r: Vector<K>)
        ensures
            r@ == (if self@.len() == rhs@.len() {
                sums(self@, rhs@)
            } else {
                Seq::empty()
            }),
    {
        if self.elements.len() != rhs.elements.len() {
            return Vector::new(0);
        }
        let mut result = self;
        add_into(&mut result.elements, &rhs.elements);
        result
    }
}

/// Nothing is claimed of the operator through its generic specification;
/// its contract stands on the method above.
impl<K: Scalar> vstd::std_specs::ops::AddSpecImpl for Vector<K> {
    open spec fn obeys_add_spec() -> bool {
        false
    }

    open spec fn add_req(self, rhs: Self) -> bool {
        true
    }

    open spec fn add_spec(self, rhs: Self) -> Vector<K> {
        self
    }
}

/// The elementwise difference of two vectors of one size, as a new vector;
/// an empty vector where the sizes differ.
impl<K: Scalar> core::ops::Sub for Vector<K> {
    type Output = Vector<K>;

    fn sub(self, rhs: Self) -> (r: Vector<K>)
        ensures
            r@ == (if self@.len() == rhs@.len() {
                differences(self@, rhs@)
            } else {
                Seq::empty()
            }),
    {
        if self.elements.len() != rhs.elements.len() {
            return Vector::new(0);
        }
        let mut result = self;
        sub_into(&mut result.elements, &rhs.elements);
        result
    }
}

/// Nothing is claimed of the operator through its generic specification;
/// its contract stands on the method above.
impl<K: Scalar> vstd::std_specs::ops::SubSpecImpl for Vector<K> {
    open spec fn obeys_sub_spec() -> bool {
        false
    }

    open spec fn sub_req(self, rhs: Self) -> bool {
        true
    }

    open spec fn sub_spec(self, rhs: Self) -> Vector<K> {
        self
    }
}

/// The elementwise product of two vectors of one size, as a new vector; an
/// empty vector where the sizes differ.
impl<K: Scalar> core::ops::Mul for Vector<K> {
    type Output = Vector<K>;

    fn mul(self, rhs: Self) -> (r: Vector<K>)
        ensures
            r@ == (if self@.len() == rhs@.len() {
                products(self@, rhs@)
            } else {
                Seq::empty()
            }),
    {
        let size = self.elements.len();
        if size != rhs.elements.len() {
            return Vector::new(0);
        }
        let mut elements: Vec<K> = Vec::with_capacity(size);
        let mut i: usize = 0;
        while i < size
            invariant
                i <= size,
                size == self.elements@.len(),
                size == rhs.elements@.len(),
                elements@.len() == i,
                forall|k: int| 0 <= k < i ==> elements@[k] == self.elements@[k].mul_spec(rhs.elements@[k]),
            decreases size - i,
        {
            elements.push(self.elements[i].mul(rhs.elements[i]));
            i += 1;
        }
        assert(elements@ =~= products(self@, rhs@));
        Vector { elements }
    }
}

/// Nothing is claimed of the operator through its generic specification;
/// its contract stands on the method above.
impl<K: Scalar> vstd::std_specs::ops::MulSpecImpl for Vector<K> {
    open spec fn obeys_mul_spec() -> bool {
        false
    }

    open spec fn mul_req(self, rhs: Self) -> bool {
        true
    }

    open spec fn mul_spec(self, rhs: Self) -> Vector<K> {
        self
    }
}

/// Every element times a scalar, as a new vector.
impl<K: Scalar> core::ops::Mul<K> for Vector<K> {
    type Output = Vector<K>;

    fn mul(self, rhs: K) -> (r: Vector<K>)
        ensures
            r@ == scaled(self@, rhs),
    {
        let mut result = self;
        scale_in_place(&mut result.elements, rhs);
        result
    }
}

/// Nothing is claimed of the operator through its generic specification;
/// its contract stands on the method above.
impl<K: Scalar> vstd::std_specs::ops::MulSpecImpl<K> for Vector<K> {
    open spec fn obeys_mul_spec() -> bool {
        false
    }

    open spec fn mul_req(self, rhs: K) -> bool {
        true
    }

    open spec fn mul_spec(self, rhs: K) -> Vector<K> {
        self
    }
}

/// The element at an index within the vector. An index at or beyond the
/// size is a mistake of the caller's that the precondition rules out.
impl<K: Scalar> core::ops::Index<usize> for Vector<K> {
    type Output = K;

    fn index(&self, i: usize) -> (r: &K)
        ensures
            *r == self@[i as int],
    {
        &self.elements[i]
    }
}

impl<K: Scalar> vstd::std_specs::core::IndexSpecImpl<usize> for Vector<K> {
    open spec fn index_req(&self, index: &usize) -> bool {
        *index < self@.len()
    }
}

/// A fresh vector with the items of `source`.
pub(crate) fn copy_of<K: Scalar>(source: &Vec<K>) -> (r: Vec<K>)
    ensures
        r@ == source@,
{
    let mut r: Vec<K> = Vec::with_capacity(source.len());
    let mut i: usize = 0;
    while i < source.len()
        invariant
            i <= source.len(),
            r@ == source@.take(i as int),
        decreases source.len() - i,
    {
        r.push(source[i]);
        i += 1;
    }
    r
}

impl<K: Scalar> Vector<K> {
    /// A vector of `size` zeros.
    pub fn new(size: usize) -> (r: Self)
        ensures
            r@ == zeros::<K>(size as nat),
    {
        let mut elements: Vec<K> = Vec::with_capacity(size);
        let mut i: usize = 0;
        while i < size
            invariant
                i <= size,
                elements@ == zeros::<K>(i as nat),
            decreases size - i,
        {
            elements.push(K::zero());
            i += 1;
        }
        Vector { elements }
    }

    /// The number of elements.
    pub fn size(&self) -> (r: usize)
        ensures
            r == self@.len(),
    {
        self.elements.len()
    }

    /// The shape of the vector seen as a matrix: `[1, size]`, or `[0, 0]`
    /// where it is empty.
    pub fn shape(&self) -> (r: [usize; 2])
        ensures
            (Shape { rows: r[0], cols: r[1] }) == shape_of(self@.len() as usize),
    {
        let size = self.size();
        if size > 0 {
            return [1, size];
        }
        [0, 0]
    }

    /// The vector as a matrix of one row: a copy, which shares nothing with
    /// the vector.
    pub fn reshape(&self) -> (r: Matrix<K>)
        ensures
            r@ == seq![self@],
    {
        Matrix::from_row(copy_of(&self.elements))
    }

    /// An iterator over the elements, from first to last.
    pub fn iter_rows(&self) -> (r: core::slice::Iter<'_, K>)
        ensures
            vstd::std_specs::slice::into_iter_elts(r) == self@,
    {
        self.elements.iter()
    }

    /// An iterator over the elements, from first to last. A vector is a
    /// single row, so walking it by columns visits the same elements in the
    /// same order as walking it by rows.
    pub fn iter_cols(&self) -> (r: core::slice::Iter<'_, K>)
        ensures
            vstd::std_specs::slice::into_iter_elts(r) == self@,
    {
        self.elements.iter()
    }

    /// A new vector whose element at each index is what `callback` returns
    /// for the index and the element there. It always succeeds.
    pub fn map<F: Fn(usize, K) -> K>(&self, callback: F) -> (r: Result<Vector<K>, Error>)
        requires
            forall|i: usize| i < self@.len() ==> #[trigger] call_requires(callback, (i, self@[i as int])),
        ensures
            r is Ok,
            r->Ok_0@.len() == self@.len(),
            forall|i: usize|
                i < self@.len() ==> #[trigger] call_ensures(
                    callback,
                    (i, self@[i as int]),
                    r->Ok_0@[i as int],
                ),
    {
        let size = self.elements.len();
        let mut elements: Vec<K> = Vec::with_capacity(size);
        let mut i: usize = 0;
        while i < size
            invariant
                i <= size,
                size == self.elements@.len(),
                self@ == self.elements@,
                elements@.len() == i,
                forall|k: usize| k < size ==> #[trigger] call_requires(callback, (k, self@[k as int])),
                forall|k: usize|
                    k < i ==> #[trigger] call_ensures(callback, (k, self@[k as int]), elements@[k as int]),
            decreases size - i,
        {
            assert(call_requires(callback, (i, self@[i as int])));
            let value = callback(i, self.elements[i]);
            elements.push(value);
            i += 1;
        }
        Ok(Vector { elements })
    }

    /// A new vector whose element at each index is what `callback` returns
    /// for the index and the elements of `a` and `b` there. Where the sizes
    /// differ the two shapes are reported.
    pub fn map_tuple<F: Fn(usize, K, K) -> K>(a: &Vector<K>, b: &Vector<K>, callback: F) -> (r: Result<
        Vector<K>,
        Error,
    >)
        requires
            a@.len() == b@.len() ==> forall|i: usize|
                i < a@.len() ==> #[trigger] call_requires(callback, (i, a@[i as int], b@[i as int])),
        ensures
            a@.len() == b@.len() <==> r is Ok,
            r is Ok ==> r->Ok_0@.len() == a@.len() && forall|i: usize|
                i < a@.len() ==> #[trigger] call_ensures(
                    callback,
                    (i, a@[i as int], b@[i as int]),
                    r->Ok_0@[i as int],
                ),
            r is Err ==> r->Err_0 == (Error::ShapeMismatch {
                expected: shape_of(a@.len() as usize),
                actual: shape_of(b@.len() as usize),
            }),
    {
        let size = a.elements.len();
        if size != b.elements.len() {
            return Err(mismatch(size, b.elements.len()));
        }
        let mut elements: Vec<K> = Vec::with_capacity(size);
        let mut i: usize = 0;
        while i < size
            invariant
                i <= size,
                size == a.elements@.len(),
                size == b.elements@.len(),
                a@ == a.elements@,
                b@ == b.elements@,
                elements@.len() == i,
                forall|k: usize|
                    k < size ==> #[trigger] call_requires(callback, (k, a@[k as int], b@[k as int])),
                forall|k: usize|
                    k < i ==> #[trigger] call_ensures(
                        callback,
                        (k, a@[k as int], b@[k as int]),
                        elements@[k as int],
                    ),
            decreases size - i,
        {
            assert(call_requires(callback, (i, a@[i as int], b@[i as int])));
            let value = callback(i, a.elements[i], b.elements[i]);
            elements.push(value);
            i += 1;
        }
        Ok(Vector { elements })
    }

    /// The elements, in order.
    pub fn all(&self) -> (r: &Vec<K>)
        ensures
            r@ == self@,
    {
        &self.elements
    }

    /// The element at `index`.
    pub fn get(&self, index: usize) -> (r: K)
        requires
            index < self@.len(),
        ensures
            r == self@[index as int],
    {
        self.elements[index]
    }

    /// Replaces the element at `index` by `value`.
    pub fn set(&mut self, index: usize, value: K)
        requires
            index < old(self)@.len(),
        ensures
            final(self)@ == old(self)@.update(index as int, value),
    {
        self.elements[index] = value;
    }

    /// Overwrites every element with `value`.
    pub fn fill(&mut self, value: K)
        ensures
            final(self)@ == filled(old(self)@.len(), value),
    {
        fill_in_place(&mut self.elements, value);
    }

    /// Adds `b` to this vector, element by element. Where the sizes differ
    /// the vector is left as it was and the two shapes are reported.
    pub fn add(&mut self, b: &Vector<K>) -> (r: Result<(), Error>)
        ensures
            old(self)@.len() == b@.len() ==> r == Ok::<(), Error>(()) && final(self)@ == sums(
                old(self)@,
                b@,
            ),
            old(self)@.len() != b@.len() ==> final(self)@ == old(self)@ && r == Err::<(), Error>(
                Error::ShapeMismatch {
                    expected: shape_of(old(self)@.len() as usize),
                    actual: shape_of(b@.len() as usize),
                },
            ),
    {
        let size = self.elements.len();
        if size != b.elements.len() {
            return Err(mismatch(size, b.elements.len()));
        }
        add_into(&mut self.elements, &b.elements);
        Ok(())
    }

    /// Subtracts `b` from this vector, element by element. Where the sizes
    /// differ the vector is left as it was and the two shapes are reported.
    pub fn sub(&mut self, b: &Vector<K>) -> (r: Result<(), Error>)
        ensures
            old(self)@.len() == b@.len() ==> r == Ok::<(), Error>(()) && final(self)@
                == differences(old(self)@, b@),
            old(self)@.len() != b@.len() ==> final(self)@ == old(self)@ && r == Err::<(), Error>(
                Error::ShapeMismatch {
                    expected: shape_of(old(self)@.len() as usize),
                    actual: shape_of(b@.len() as usize),
                },
            ),
    {
        let size = self.elements.len();
        if size != b.elements.len() {
            return Err(mismatch(size, b.elements.len()));
        }
        sub_into(&mut self.elements, &b.elements);
        Ok(())
    }

    /// Multiplies every element by `value`.
    pub fn scl(&mut self, value: K)
        ensures
            final(self)@ == scaled(old(self)@, value),
    {
        scale_in_place(&mut self.elements, value);
    }

    /// The dot product with `b`; zero where the sizes differ.
    pub fn dot(&self, b: &Vector<K>) -> (r: K)
        ensures
            r == dot_spec(self@, b@),
    {
        dot_of(&self.elements, &b.elements)
    }

    /// The sum of the absolute values of the elements.
    pub fn norm_1(&self) -> (r: K)
        ensures
            r == norm_1_spec(self@),
    {
        let size = self.elements.len();
        let ghost terms = magnitudes(self.elements@);
        let mut result = K::zero();
        let mut i: usize = 0;
        while i < size
            invariant
                i <= size,
                self.elements@.len() == size,
                terms == magnitudes(self.elements@),
                result == crate::scalar::sum(terms.take(i as int)),
            decreases size - i,
        {
            proof {
                crate::scalar::lemma_sum_step(terms, i as int);
            }
            result = result.add(self.elements[i].abs());
            i += 1;
        }
        assert(terms.take(size as int) == terms);
        result
    }

    /// The Euclidean norm: the sum of the squares of the elements, raised to
    /// the power one half.
    pub fn norm(&self) -> (r: K)
        ensures
            r == norm_spec(self@),
    {
        let size = self.elements.len();
        let ghost terms = squares(self.elements@);
        let two = K::from_int(2);
        let mut result = K::zero();
        let mut i: usize = 0;
        while i < size
            invariant
                i <= size,
                self.elements@.len() == size,
                two == crate::scalar::two::<K>(),
                terms == squares(self.elements@),
                result == crate::scalar::sum(terms.take(i as int)),
            decreases size - i,
        {
            proof {
                crate::scalar::lemma_sum_step(terms, i as int);
            }
            result = result.add(self.elements[i].pow(two));
            i += 1;
        }
        assert(terms.take(size as int) == terms);
        result.pow(K::one().div(two))
    }

    /// The largest absolute value among the elements; zero for an empty
    /// vector.
    pub fn norm_inf(&self) -> (r: K)
        ensures
            r == norm_inf_spec(self@),
    {
        let size = self.elements.len();
        if size == 0 {
            return K::zero();
        }
        let mut result = self.elements[0].abs();
        assert(self.elements@.take(1).len() == 1);
        let mut i: usize = 1;
        while i < size
            invariant
                1 <= i <= size,
                self.elements@.len() == size,
                result == norm_inf_spec(self.elements@.take(i as int)),
            decreases size - i,
        {
            assert(self.elements@.take(i + 1).drop_last() == self.elements@.take(i as int));
            let candidate = self.elements[i].abs();
            if result.less_than(candidate) {
                result = candidate;
            }
            i += 1;
        }
        assert(self.elements@.take(size as int) == self.elements@);
        result
    }
}

/// The error that reports two vectors of sizes `expected` and `actual`.
pub(crate) fn mismatch(expected: usize, actual: usize) -> (r: Error)
    ensures
        r == (Error::ShapeMismatch { expected: shape_of(expected), actual: shape_of(actual) }),
{
    let expected_shape = if expected > 0 {
        Shape { rows: 1, cols: expected }
    } else {
        Shape { rows: 0, cols: 0 }
    };
    let actual_shape = if actual > 0 {
        Shape { rows: 1, cols: actual }
    } else {
        Shape { rows: 0, cols: 0 }
    };
    Error::ShapeMismatch { expected: expected_shape, actual: actual_shape }
}

/// Overwrites every item of `target` with `value`.
pub(crate) fn fill_in_place<K: Scalar>(target: &mut Vec<K>, value: K)
    ensures
        final(target)@ == filled(old(target)@.len(), value),
{
    let size = target.len();
    let mut i: usize = 0;
    while i < size
        invariant
            i <= size,
            target@.len() == size,
            forall|j: int| 0 <= j < i ==> target@[j] == value,
        decreases size - i,
    {
        target[i] = value;
        i += 1;
    }
    assert(target@ =~= filled(size as nat, value));
}

/// Adds the items of `other` to those of `target`, one by one.
pub(crate) fn add_into<K: Scalar>(target: &mut Vec<K>, other: &Vec<K>)
    requires
        old(target)@.len() == other@.len(),
    ensures
        final(target)@ == sums(old(target)@, other@),
{
    let size = target.len();
    let mut i: usize = 0;
    while i < size
        invariant
            i <= size,
            target@.len() == size,
            other@.len() == size,
            old(target)@.len() == size,
            forall|j: int| 0 <= j < i ==> target@[j] == old(target)@[j].add_spec(other@[j]),
            forall|j: int| i <= j < size ==> target@[j] == old(target)@[j],
        decreases size - i,
    {
        let value = target[i].add(other[i]);
        target[i] = value;
        i += 1;
    }
    assert(target@ =~= sums(old(target)@, other@));
}

/// Subtracts the items of `other` from those of `target`, one by one.
pub(crate) fn sub_into<K: Scalar>(target: &mut Vec<K>, other: &Vec<K>)
    requires
        old(target)@.len() == other@.len(),
    ensures
        final(target)@ == differences(old(target)@, other@),
{
    let size = target.len();
    let mut i: usize = 0;
    while i < size
        invariant
            i <= size,
            target@.len() == size,
            other@.len() == size,
            old(target)@.len() == size,
            forall|j: int| 0 <= j < i ==> target@[j] == old(target)@[j].sub_spec(other@[j]),
            forall|j: int| i <= j < size ==> target@[j] == old(target)@[j],
        decreases size - i,
    {
        let value = target[i].sub(other[i]);
        target[i] = value;
        i += 1;
    }
    assert(target@ =~= differences(old(target)@, other@));
}

/// Multiplies every item of `target` by `factor`.
pub(crate) fn scale_in_place<K: Scalar>(target: &mut Vec<K>, factor: K)
    ensures
        final(target)@ == scaled(old(target)@, factor),
{
    let size = target.len();
    let mut i: usize = 0;
    while i < size
        invariant
            i <= size,
            target@.len() == size,
            old(target)@.len() == size,
            forall|j: int| 0 <= j < i ==> target@[j] == old(target)@[j].mul_spec(factor),
            forall|j: int| i <= j < size ==> target@[j] == old(target)@[j],
        decreases size - i,
    {
        let value = target[i].mul(factor);
        target[i] = value;
        i += 1;
    }
    assert(target@ =~= scaled(old(target)@, factor));
}

/// The dot product of two lists of scalars; zero where the lengths differ.
pub(crate) fn dot_of<K: Scalar>(u: &Vec<K>, v: &Vec<K>) -> (r: K)
    ensures
        r == dot_spec(u@, v@),
{
    let size = u.len();
    if size != v.len() {
        return K::zero();
    }
    let ghost terms = products(u@, v@);
    let mut result = K::zero();
    let mut i: usize = 0;
    while i < size
        invariant
            i <= size,
            u@.len() == size,
            v@.len() == size,
            terms == products(u@, v@),
            result == crate::scalar::sum(terms.take(i as int)),
        decreases size - i,
    {
        proof {
            crate::scalar::lemma_sum_step(terms, i as int);
        }
        result = result.add(u[i].mul(v[i]));
        i += 1;
    }
    assert(terms.take(size as int) == terms);
    result
}

} // verus!
