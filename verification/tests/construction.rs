use matrix::error::{Error, Shape};
use matrix::matrix::Matrix;
use matrix::norm::Norm;
use matrix::scalar::Scalar;
use matrix::vector::Vector;

/// Double-precision numbers as the scalar of the tests. The functions whose
/// names end in `_spec` name results in the library's contracts; nothing
/// ever runs them.
#[derive(Clone, Copy, Debug, PartialEq)]
struct Real(f64);

impl Norm for Real {
    fn abs_spec(self) -> Self {
        unreachable!()
    }

    fn pow_spec(self, _: Self) -> Self {
        unreachable!()
    }

    fn abs(self) -> Self {
        Real(self.0.abs())
    }

    fn pow(self, exponent: Self) -> Self {
        Real(self.0.powf(exponent.0))
    }
}

impl Scalar for Real {
    fn zero_spec() -> Self {
        unreachable!()
    }

    fn one_spec() -> Self {
        unreachable!()
    }

    fn from_int_spec(_: i32) -> Self {
        unreachable!()
    }

    fn pi_spec() -> Self {
        unreachable!()
    }

    fn add_spec(self, _: Self) -> Self {
        unreachable!()
    }

    fn sub_spec(self, _: Self) -> Self {
        unreachable!()
    }

    fn mul_spec(self, _: Self) -> Self {
        unreachable!()
    }

    fn div_spec(self, _: Self) -> Self {
        unreachable!()
    }

    fn neg_spec(self) -> Self {
        unreachable!()
    }

    fn tan_spec(self) -> Self {
        unreachable!()
    }

    fn equals_spec(self, _: Self) -> bool {
        unreachable!()
    }

    fn less_than_spec(self, _: Self) -> bool {
        unreachable!()
    }

    fn zero() -> Self {
        Real(0.)
    }

    fn one() -> Self {
        Real(1.)
    }

    fn from_int(n: i32) -> Self {
        Real(f64::from(n))
    }

    fn pi() -> Self {
        Real(std::f64::consts::PI)
    }

    fn add(self, rhs: Self) -> Self {
        Real(self.0 + rhs.0)
    }

    fn sub(self, rhs: Self) -> Self {
        Real(self.0 - rhs.0)
    }

    fn mul(self, rhs: Self) -> Self {
        Real(self.0 * rhs.0)
    }

    fn div(self, rhs: Self) -> Self {
        Real(self.0 / rhs.0)
    }

    fn neg(self) -> Self {
        Real(-self.0)
    }

    fn tan(self) -> Self {
        Real(self.0.tan())
    }

    fn equals(self, rhs: Self) -> bool {
        self.0 == rhs.0
    }

    fn less_than(self, rhs: Self) -> bool {
        self.0 < rhs.0
    }
}

#[allow(dead_code)]
fn reals(values: &[f64]) -> Vec<Real> {
    values.iter().map(|x| Real(*x)).collect()
}

#[allow(dead_code)]
fn vector(values: &[f64]) -> Vector<Real> {
    Vector::from(reals(values))
}

#[allow(dead_code)]
fn values(vector: &Vector<Real>) -> Vec<f64> {
    vector.all().iter().map(|x| x.0).collect()
}

#[allow(dead_code)]
fn matrix<const N: usize>(rows: &[[f64; N]]) -> Matrix<Real> {
    Matrix::from_rows(rows.iter().map(|row| reals(row)).collect()).unwrap()
}

#[allow(dead_code)]
fn cells(matrix: &Matrix<Real>) -> Vec<Vec<f64>> {
    matrix.all().iter().map(|row| row.iter().map(|x| x.0).collect()).collect()
}

#[test]
fn new_vector_holds_zeros() {
    let v = Vector::<Real>::new(3);
    assert_eq!(v.size(), 3);
    assert_eq!(values(&v), vec![0., 0., 0.]);
    assert_eq!(Vector::<Real>::new(0).size(), 0);
}

#[test]
fn vector_from_keeps_its_values() {
    let v = vector(&[1.5, -2., 0.]);
    assert_eq!(v.size(), 3);
    assert_eq!(values(&v), vec![1.5, -2., 0.]);
}

#[test]
fn vector_shape_is_one_row() {
    assert_eq!(vector(&[1., 2., 3.]).shape(), [1, 3]);
    assert_eq!(vector(&[]).shape(), [0, 0]);
}

#[test]
fn vector_reshape_is_a_copy_of_one_row() {
    let v = vector(&[1., 2., 3.]);
    let mut m = v.reshape();
    assert_eq!(m.shape(), [1, 3]);
    assert_eq!(cells(&m), vec![vec![1., 2., 3.]]);
    m.set(0, 1, Real(9.));
    assert_eq!(values(&v), vec![1., 2., 3.]);
    assert_eq!(vector(&[]).reshape().shape(), [1, 0]);
}

#[test]
fn vector_fill_overwrites_every_element() {
    let mut v = vector(&[1., 2., 3.]);
    v.fill(Real(7.));
    assert_eq!(values(&v), vec![7., 7., 7.]);
    assert_eq!(v.size(), 3);
}

#[test]
fn vector_get_and_set() {
    let mut v = vector(&[1., 2., 3.]);
    assert_eq!(v.get(2).0, 3.);
    v.set(0, Real(-4.));
    assert_eq!(values(&v), vec![-4., 2., 3.]);
    assert_eq!(v[0].0, -4.);
    assert_eq!(v[1].0, 2.);
}

#[test]
fn vector_iterators_walk_from_first_to_last() {
    let v = vector(&[1., 2., 3.]);
    let by_rows: Vec<f64> = v.iter_rows().map(|x| x.0).collect();
    let by_cols: Vec<f64> = v.iter_cols().map(|x| x.0).collect();
    assert_eq!(by_rows, vec![1., 2., 3.]);
    assert_eq!(by_cols, vec![1., 2., 3.]);
}

#[test]
fn vector_map_sees_index_and_value() {
    let v = vector(&[10., 20., 30.]);
    let mapped = v.map(|index, value| Real(value.0 + index as f64)).unwrap();
    assert_eq!(values(&mapped), vec![10., 21., 32.]);
    assert_eq!(values(&v), vec![10., 20., 30.]);
}

#[test]
fn vector_map_tuple_pairs_the_elements() {
    let a = vector(&[1., 2., 3.]);
    let b = vector(&[10., 20., 30.]);
    let mapped = Vector::map_tuple(&a, &b, |index, x, y| Real(x.0 * y.0 + index as f64)).unwrap();
    assert_eq!(values(&mapped), vec![10., 41., 92.]);
}

#[test]
fn vector_map_tuple_wants_one_size() {
    let a = vector(&[1., 2., 3.]);
    let b = vector(&[10., 20.]);
    let mapped = Vector::map_tuple(&a, &b, |_, x, _| x);
    assert_eq!(
        mapped.err(),
        Some(Error::ShapeMismatch {
            expected: Shape { rows: 1, cols: 3 },
            actual: Shape { rows: 1, cols: 2 },
        })
    );
}

#[test]
fn vector_clone_and_default() {
    let v = vector(&[1., 2.]);
    let mut copy = v.clone();
    copy.set(0, Real(5.));
    assert_eq!(values(&v), vec![1., 2.]);
    assert_eq!(values(&copy), vec![5., 2.]);
    assert_eq!(Vector::<Real>::default().size(), 0);
}

#[test]
fn vector_operators_make_new_vectors() {
    assert_eq!(values(&(vector(&[1., 2.]) + vector(&[10., 20.]))), vec![11., 22.]);
    assert_eq!(values(&(vector(&[1., 2.]) - vector(&[10., 20.]))), vec![-9., -18.]);
    assert_eq!(values(&(vector(&[1., 2.]) * vector(&[10., 20.]))), vec![10., 40.]);
    assert_eq!(values(&(vector(&[1., 2.]) * Real(3.))), vec![3., 6.]);
    assert_eq!((vector(&[1., 2.]) + vector(&[1.])).size(), 0);
    assert_eq!((vector(&[1., 2.]) - vector(&[1.])).size(), 0);
    assert_eq!((vector(&[1., 2.]) * vector(&[1.])).size(), 0);
}

#[test]
fn new_matrix_holds_zeros() {
    let m = Matrix::<Real>::new([2, 3]);
    assert_eq!(m.shape(), [2, 3]);
    assert_eq!(cells(&m), vec![vec![0., 0., 0.], vec![0., 0., 0.]]);
    assert_eq!(Matrix::<Real>::new([0, 0]).shape(), [0, 0]);
    // Without rows there is no first row to count columns in.
    assert_eq!(Matrix::<Real>::new([0, 5]).shape(), [0, 0]);
    assert_eq!(Matrix::<Real>::new([2, 0]).shape(), [2, 0]);
}

#[test]
fn matrix_from_rows_checks_the_lengths() {
    let m = Matrix::from_rows(vec![reals(&[1., 2.]), reals(&[3., 4.])]).unwrap();
    assert_eq!(cells(&m), vec![vec![1., 2.], vec![3., 4.]]);
    assert_eq!(Matrix::<Real>::from_rows(vec![]).unwrap().shape(), [0, 0]);

    let ragged = Matrix::from_rows(vec![reals(&[1., 2.]), reals(&[3., 4.]), reals(&[5.]), reals(&[])]);
    assert_eq!(
        ragged.err(),
        Some(Error::ShapeMismatch {
            expected: Shape { rows: 4, cols: 2 },
            actual: Shape { rows: 4, cols: 1 },
        })
    );
}

#[test]
fn matrix_from_row_has_one_row() {
    let m = Matrix::from_row(reals(&[1., 2., 3.]));
    assert_eq!(m.shape(), [1, 3]);
    assert_eq!(cells(&m), vec![vec![1., 2., 3.]]);
}

#[test]
fn identity_has_the_value_on_the_diagonal() {
    let m = Matrix::identity(3, Real(2.5));
    assert_eq!(
        cells(&m),
        vec![vec![2.5, 0., 0.], vec![0., 2.5, 0.], vec![0., 0., 2.5]]
    );
    assert_eq!(Matrix::identity(0, Real(1.)).shape(), [0, 0]);
    assert_eq!(cells(&Matrix::identity(1, Real(1.))), vec![vec![1.]]);
}

#[test]
fn matrix_fill_overwrites_every_element() {
    let mut m = matrix(&[[1., 2.], [3., 4.], [5., 6.]]);
    m.fill(Real(-1.));
    assert_eq!(cells(&m), vec![vec![-1., -1.], vec![-1., -1.], vec![-1., -1.]]);
}

#[test]
fn matrix_get_and_set() {
    let mut m = matrix(&[[1., 2.], [3., 4.]]);
    assert_eq!(m.get(1, 0).0, 3.);
    m.set(1, 0, Real(7.));
    assert_eq!(cells(&m), vec![vec![1., 2.], vec![7., 4.]]);
    assert_eq!(m[1][0].0, 7.);
    assert_eq!(m[0].len(), 2);
}

#[test]
fn matrix_clone_and_default() {
    let m = matrix(&[[1., 2.], [3., 4.]]);
    let mut copy = m.clone();
    copy.set(0, 0, Real(9.));
    assert_eq!(cells(&m), vec![vec![1., 2.], vec![3., 4.]]);
    assert_eq!(cells(&copy), vec![vec![9., 2.], vec![3., 4.]]);
    assert_eq!(Matrix::<Real>::default().shape(), [0, 0]);
}

#[test]
fn matrix_rows_are_walked_in_order() {
    let m = matrix(&[[1., 2.], [3., 4.]]);
    let rows: Vec<Vec<f64>> = m.iter_rows().map(|row| row.iter().map(|x| x.0).collect()).collect();
    assert_eq!(rows, vec![vec![1., 2.], vec![3., 4.]]);
}

#[test]
fn matrix_columns_are_walked_from_the_top() {
    let m = matrix(&[[1., 2., 3.], [4., 5., 6.]]);
    let mut walk = m.iter_cols();
    let mut seen = vec![];
    while let Some(x) = walk.next() {
        seen.push(x.0);
    }
    assert_eq!(seen, vec![1., 4., 2., 5., 3., 6.]);
    assert!(walk.next().is_none());
}

#[test]
fn column_walk_of_matrices_without_cells() {
    let (none, bare) = (Matrix::<Real>::new([0, 0]), Matrix::<Real>::new([3, 0]));
    assert!(none.iter_cols().next().is_none());
    assert!(bare.iter_cols().next().is_none());
}

#[test]
fn matrix_pairs_are_walked_row_by_row() {
    let a = matrix(&[[1., 2.], [3., 4.], [5., 6.]]);
    let b = matrix(&[[10., 20.], [30., 40.], [50., 60.]]);
    let mut walk = Matrix::iter_tuple(&a, &b).unwrap();
    let mut seen = vec![];
    while let Some(pair) = walk.next() {
        seen.push([pair[0].0, pair[1].0]);
    }
    assert_eq!(
        seen,
        vec![[1., 10.], [2., 20.], [3., 30.], [4., 40.], [5., 50.], [6., 60.]]
    );
    assert!(walk.next().is_none());

    let (wide_a, wide_b) = (a.transpose(), b.transpose());
    let mut wide = wide_a.iter_with(&wide_b).unwrap();
    let mut count = 0;
    while let Some(_) = wide.next() {
        count += 1;
    }
    assert_eq!(count, 6);
}

#[test]
fn matrix_pairs_want_one_shape() {
    let a = matrix(&[[1., 2.], [3., 4.]]);
    let b = matrix(&[[1., 2., 3.]]);
    assert_eq!(
        Matrix::iter_tuple(&a, &b).err(),
        Some(Error::ShapeMismatch {
            expected: Shape { rows: 2, cols: 2 },
            actual: Shape { rows: 1, cols: 3 },
        })
    );
    assert!(a.iter_with(&b).is_err());
    let (bare_a, bare_b) = (Matrix::<Real>::new([2, 0]), Matrix::<Real>::new([2, 0]));
    let mut empty = Matrix::iter_tuple(&bare_a, &bare_b).unwrap();
    assert!(empty.next().is_none());
}

#[test]
fn matrix_map_combines_cell_by_cell() {
    let a = matrix(&[[1., 2.], [3., 4.]]);
    let b = matrix(&[[10., 20.], [30., 40.]]);
    let mapped = Matrix::map(&a, &b, |x, y| Real(y.0 - x.0)).unwrap();
    assert_eq!(cells(&mapped), vec![vec![9., 18.], vec![27., 36.]]);
}

#[test]
fn matrix_map_wants_one_shape() {
    let a = matrix(&[[1., 2.], [3., 4.]]);
    let b = matrix(&[[10., 20.]]);
    assert_eq!(
        Matrix::map(&a, &b, |x, _| x).err(),
        Some(Error::ShapeMismatch {
            expected: Shape { rows: 2, cols: 2 },
            actual: Shape { rows: 1, cols: 2 },
        })
    );
}

#[test]
fn matrix_operators_make_new_matrices() {
    let sum = matrix(&[[1., 2.], [3., 4.]]) + matrix(&[[10., 20.], [30., 40.]]);
    assert_eq!(cells(&sum), vec![vec![11., 22.], vec![33., 44.]]);
    let difference = matrix(&[[1., 2.], [3., 4.]]) - matrix(&[[10., 20.], [30., 40.]]);
    assert_eq!(cells(&difference), vec![vec![-9., -18.], vec![-27., -36.]]);
    let scaled = matrix(&[[1., 2.], [3., 4.]]) * Real(0.5);
    assert_eq!(cells(&scaled), vec![vec![0.5, 1.], vec![1.5, 2.]]);
    assert_eq!((matrix(&[[1., 2.]]) + matrix(&[[1.], [2.]])).shape(), [0, 0]);
    assert_eq!((matrix(&[[1., 2.]]) - matrix(&[[1.], [2.]])).shape(), [0, 0]);
}
