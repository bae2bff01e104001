use matrix::error::{Error, Shape};
use matrix::matrix::Matrix;
use matrix::norm::Norm;
use matrix::scalar::Scalar;
use matrix::vector::Vector;

/// Double-precision numbers as the scalar of the tests. The functions whose
/// names end in `_spec` name results in the library's contracts; nothing
/// ever runs them.
#[derive(Clone, Copy, Debug, PartialEq)]
struct Real(f64);

impl Norm for Real {
    fn abs_spec(self) -> Self {
        unreachable!()
    }

    fn pow_spec(self, _: Self) -> Self {
        unreachable!()
    }

    fn abs(self) -> Self {
        Real(self.0.abs())
    }

    fn pow(self, exponent: Self) -> Self {
        Real(self.0.powf(exponent.0))
    }
}

impl Scalar for Real {
    fn zero_spec() -> Self {
        unreachable!()
    }

    fn one_spec() -> Self {
        unreachable!()
    }

    fn from_int_spec(_: i32) -> Self {
        unreachable!()
    }

    fn pi_spec() -> Self {
        unreachable!()
    }

    fn add_spec(self, _: Self) -> Self {
        unreachable!()
    }

    fn sub_spec(self, _: Self) -> Self {
        unreachable!()
    }

    fn mul_spec(self, _: Self) -> Self {
        unreachable!()
    }

    fn div_spec(self, _: Self) -> Self {
        unreachable!()
    }

    fn neg_spec(self) -> Self {
        unreachable!()
    }

    fn tan_spec(self) -> Self {
        unreachable!()
    }

    fn equals_spec(self, _: Self) -> bool {
        unreachable!()
    }

    fn less_than_spec(self, _: Self) -> bool {
        unreachable!()
    }

    fn zero() -> Self {
        Real(0.)
    }

    fn one() -> Self {
        Real(1.)
    }

    fn from_int(n: i32) -> Self {
        Real(f64::from(n))
    }

    fn pi() -> Self {
        Real(std::f64::consts::PI)
    }

    fn add(self, rhs: Self) -> Self {
        Real(self.0 + rhs.0)
    }

    fn sub(self, rhs: Self) -> Self {
        Real(self.0 - rhs.0)
    }

    fn mul(self, rhs: Self) -> Self {
        Real(self.0 * rhs.0)
    }

    fn div(self, rhs: Self) -> Self {
        Real(self.0 / rhs.0)
    }

    fn neg(self) -> Self {
        Real(-self.0)
    }

    fn tan(self) -> Self {
        Real(self.0.tan())
    }

    fn equals(self, rhs: Self) -> bool {
        self.0 == rhs.0
    }

    fn less_than(self, rhs: Self) -> bool {
        self.0 < rhs.0
    }
}

#[allow(dead_code)]
fn reals(values: &[f64]) -> Vec<Real> {
    values.iter().map(|x| Real(*x)).collect()
}

#[allow(dead_code)]
fn vector(values: &[f64]) -> Vector<Real> {
    Vector::from(reals(values))
}

#[allow(dead_code)]
fn values(vector: &Vector<Real>) -> Vec<f64> {
    vector.all().iter().map(|x| x.0).collect()
}

#[allow(dead_code)]
fn matrix<const N: usize>(rows: &[[f64; N]]) -> Matrix<Real> {
    Matrix::from_rows(rows.iter().map(|row| reals(row)).collect()).unwrap()
}

#[allow(dead_code)]
fn cells(matrix: &Matrix<Real>) -> Vec<Vec<f64>> {
    matrix.all().iter().map(|row| row.iter().map(|x| x.0).collect()).collect()
}

#[test]
fn add_vectors() {
    let mut vector_a = vector(&[1., 2., 3.]);
    let vector_b = vector(&[1., 2., 3.]);

    assert_eq!(vector_a.add(&vector_b), Ok(()));

    let expected = vec![2., 4., 6.];
    assert_eq!(values(&vector_a), expected);
}

#[test]
fn add_invalid_vectors() {
    let mut vector_a = vector(&[1., 2., 3.]);
    let vector_b = vector(&[1.]);

    assert_eq!(
        vector_a.add(&vector_b),
        Err(Error::ShapeMismatch {
            expected: Shape { rows: 1, cols: 3 },
            actual: Shape { rows: 1, cols: 1 },
        })
    );

    let expected = vec![1., 2., 3.];
    assert_eq!(values(&vector_a), expected);
}

#[test]
fn add_matrices() {
    let mut matrix_a = matrix(&[[1., 2., 3.], [4., 5., 6.]]);
    let matrix_b = matrix(&[[1., 2., 3.], [4., 5., 6.]]);

    assert_eq!(matrix_a.add(&matrix_b), Ok(()));

    let expected = vec![vec![2., 4., 6.], vec![8., 10., 12.]];
    assert_eq!(cells(&matrix_a), expected);
}

#[test]
fn add_invalid_matrices() {
    let mut matrix_a = matrix(&[[1., 2., 3.], [4., 5., 6.]]);
    let matrix_b = matrix(&[[1.]]);

    assert_eq!(
        matrix_a.add(&matrix_b),
        Err(Error::ShapeMismatch {
            expected: Shape { rows: 2, cols: 3 },
            actual: Shape { rows: 1, cols: 1 },
        })
    );

    let expected = vec![vec![1., 2., 3.], vec![4., 5., 6.]];
    assert_eq!(cells(&matrix_a), expected);
}

#[test]
fn sub_vectors() {
    let mut vector_a = vector(&[1., 2., 3.]);
    let vector_b = vector(&[1., 2., 3.]);

    assert_eq!(vector_a.sub(&vector_b), Ok(()));

    let expected = vec![0., 0., 0.];
    assert_eq!(values(&vector_a), expected);
}

#[test]
fn sub_invalid_vectors() {
    let mut vector_a = vector(&[1., 2., 3.]);
    let vector_b = vector(&[1.]);

    assert_eq!(
        vector_a.sub(&vector_b),
        Err(Error::ShapeMismatch {
            expected: Shape { rows: 1, cols: 3 },
            actual: Shape { rows: 1, cols: 1 },
        })
    );

    let expected = vec![1., 2., 3.];
    assert_eq!(values(&vector_a), expected);
}

#[test]
fn sub_matrices() {
    let mut matrix_a = matrix(&[[1., 2., 3.], [4., 5., 6.]]);
    let matrix_b = matrix(&[[1., 2., 3.], [4., 5., 6.]]);

    assert_eq!(matrix_a.sub(&matrix_b), Ok(()));

    let expected = vec![vec![0., 0., 0.], vec![0., 0., 0.]];
    assert_eq!(cells(&matrix_a), expected);
}

#[test]
fn sub_invalid_matrices() {
    let mut matrix_a = matrix(&[[1., 2., 3.], [4., 5., 6.]]);
    let matrix_b = matrix(&[[1.]]);

    assert_eq!(
        matrix_a.sub(&matrix_b),
        Err(Error::ShapeMismatch {
            expected: Shape { rows: 2, cols: 3 },
            actual: Shape { rows: 1, cols: 1 },
        })
    );

    let expected = vec![vec![1., 2., 3.], vec![4., 5., 6.]];
    assert_eq!(cells(&matrix_a), expected);
}

#[test]
fn sub_is_not_add() {
    let mut vector_a = vector(&[5., 7.]);
    assert_eq!(vector_a.sub(&vector(&[1., 10.])), Ok(()));
    assert_eq!(values(&vector_a), vec![4., -3.]);

    let mut matrix_a = matrix(&[[5., 7.]]);
    assert_eq!(matrix_a.sub(&matrix(&[[1., 10.]])), Ok(()));
    assert_eq!(cells(&matrix_a), vec![vec![4., -3.]]);
}

#[test]
fn add_empty_vectors() {
    let mut vector_a = vector(&[]);
    assert_eq!(vector_a.add(&vector(&[])), Ok(()));
    assert_eq!(vector_a.size(), 0);
    assert_eq!(
        vector_a.add(&vector(&[1., 2.])),
        Err(Error::ShapeMismatch {
            expected: Shape { rows: 0, cols: 0 },
            actual: Shape { rows: 1, cols: 2 },
        })
    );
}

#[test]
fn add_matrices_of_transposed_shapes() {
    let mut matrix_a = matrix(&[[1., 2., 3.], [4., 5., 6.]]);
    let matrix_b = matrix(&[[1., 2.], [3., 4.], [5., 6.]]);
    assert_eq!(
        matrix_a.add(&matrix_b),
        Err(Error::ShapeMismatch {
            expected: Shape { rows: 2, cols: 3 },
            actual: Shape { rows: 3, cols: 2 },
        })
    );
    assert_eq!(cells(&matrix_a), vec![vec![1., 2., 3.], vec![4., 5., 6.]]);
}

#[test]
fn scl_vector() {
    let mut vector = vector(&[1., 2., 3.]);
    vector.scl(Real(2.));
    let expected = vec![2., 4., 6.];
    assert_eq!(values(&vector), expected);
}

#[test]
fn scl_matrix() {
    let mut matrix = matrix(&[[1., 2., 3.], [4., 5., 6.]]);
    matrix.scl(Real(2.));
    let expected = vec![vec![2., 4., 6.], vec![8., 10., 12.]];
    assert_eq!(cells(&matrix), expected);
}

#[test]
fn scl_by_a_fraction() {
    let mut vector = vector(&[1., -2., 3.]);
    vector.scl(Real(-0.5));
    assert_eq!(values(&vector), vec![-0.5, 1., -1.5]);
}

#[test]
fn dot_product_example_1() {
    let e1 = vector(&[0., 0.]);
    let e2 = vector(&[1., 1.]);

    assert_eq!(e1.dot(&e2).0, 0.);
}

#[test]
fn dot_product_example_2() {
    let e1 = vector(&[1., 1.]);
    let e2 = vector(&[1., 1.]);

    assert_eq!(e1.dot(&e2).0, 2.);
}

#[test]
fn dot_product_example_3() {
    let e1 = vector(&[-1., 6.]);
    let e2 = vector(&[3., 2.]);

    assert_eq!(e1.dot(&e2).0, 9.);
}

#[test]
fn dot_product_invalid_example() {
    let e1 = vector(&[0., 0., 3.]);
    let e2 = vector(&[1., 1.]);

    assert_eq!(e1.dot(&e2).0, f64::default());
}

#[test]
fn dot_product_of_empty_vectors() {
    assert_eq!(vector(&[]).dot(&vector(&[])).0, 0.);
}

#[test]
fn dot_product_adds_from_the_left() {
    // With rounding the order of the additions shows: the small term is
    // lost against the large one before the large ones cancel.
    let e1 = vector(&[1e16, 1., -1e16]);
    let e2 = vector(&[1., 1., 1.]);
    assert_eq!(e1.dot(&e2).0, 0.);
    let e3 = vector(&[1e16, -1e16, 1.]);
    assert_eq!(e3.dot(&e2).0, 1.);
}

#[test]
fn norm_1() {
    assert_eq!(vector(&[0., 0., 0.]).norm_1().0, 0.);
    assert_eq!(vector(&[1., 2., 3.]).norm_1().0, 6.);
    assert_eq!(vector(&[-1., -2.]).norm_1().0, 3.);
}

#[test]
fn euclidean_norm() {
    assert_eq!(vector(&[0., 0., 0.]).norm().0, 0.);
    assert_eq!(vector(&[1., 2., 3.]).norm().0, 3.7416573867739413);
    assert_eq!(vector(&[-1., -2.]).norm().0, 2.23606797749979);
}

#[test]
fn supremum_norm() {
    assert_eq!(vector(&[0., 0., 0.]).norm_inf().0, 0.);
    assert_eq!(vector(&[1., 2., 3.]).norm_inf().0, 3.);
    assert_eq!(vector(&[-1., -2.]).norm_inf().0, 2.);
}

#[test]
fn norms_of_the_empty_vector() {
    assert_eq!(vector(&[]).norm_1().0, 0.);
    assert_eq!(vector(&[]).norm().0, 0.);
    assert_eq!(vector(&[]).norm_inf().0, 0.);
}

#[test]
fn supremum_norm_finds_the_largest_anywhere() {
    assert_eq!(vector(&[-7., 2., 3.]).norm_inf().0, 7.);
    assert_eq!(vector(&[1., -9., 3.]).norm_inf().0, 9.);
    assert_eq!(vector(&[4.]).norm_inf().0, 4.);
}

#[test]
fn euclidean_norm_of_a_right_triangle() {
    assert_eq!(vector(&[3., 4.]).norm().0, 5.);
}

#[test]
fn trace_example_1() {
    let e1 = matrix(&[[1., 0.], [0., 1.]]);
    assert_eq!(e1.trace().0, 2.);
}

#[test]
fn trace_example_2() {
    let e1 = matrix(&[[2., -5., 0.], [4., 3., 7.], [-2., 3., 4.]]);
    assert_eq!(e1.trace().0, 9.);
}

#[test]
fn trace_example_3() {
    let e1 = matrix(&[[-2., -8., 4.], [1., -23., 4.], [0., 6., 4.]]);
    assert_eq!(e1.trace().0, -21.);
}

#[test]
fn trace_of_other_shapes() {
    assert_eq!(matrix(&[[1., 2., 3.], [4., 5., 6.]]).trace().0, 0.);
    assert_eq!(Matrix::<Real>::new([0, 0]).trace().0, 0.);
    assert_eq!(matrix(&[[7.]]).trace().0, 7.);
}

#[test]
fn matrix_tranpose_example_1() {
    let matrix = matrix(&[[1., 2.], [3., 1.]]);
    let expected = vec![vec![1., 3.], vec![2., 1.]];
    assert_eq!(cells(&matrix.transpose()), expected);
}

#[test]
fn matrix_tranpose_example_2() {
    let matrix = matrix(&[[1., 2., 3.], [4., 5., 6.]]);
    let expected = vec![vec![1.0, 4.0], vec![2.0, 5.0], vec![3.0, 6.0]];
    assert_eq!(cells(&matrix.transpose()), expected);
}

#[test]
fn matrix_tranpose_example_3() {
    let matrix = matrix(&[[1., 2., 3.], [4., 5., 6.], [7., 8., 9.]]);
    let expected = vec![
        vec![1.0, 4.0, 7.0],
        vec![2.0, 5.0, 8.0],
        vec![3.0, 6.0, 9.0],
    ];
    assert_eq!(cells(&matrix.transpose()), expected);
}

#[test]
fn transpose_of_matrices_without_cells() {
    assert_eq!(Matrix::<Real>::new([0, 0]).transpose().shape(), [0, 0]);
    // Three rows without columns have no column to turn into a row.
    assert_eq!(Matrix::<Real>::new([3, 0]).transpose().shape(), [0, 0]);
}

#[test]
fn matrix_vector_multiplication_example_1() {
    let matrix = matrix(&[[1., 0.], [0., 1.]]);
    let vector = vector(&[4., 2.]);

    let expected = vec![4., 2.];
    assert_eq!(values(&matrix.mul_vec(&vector)), expected);
}

#[test]
fn matrix_vector_multiplication_example_2() {
    let matrix = matrix(&[[2., 0.], [0., 2.]]);
    let vector = vector(&[4., 2.]);

    let expected = vec![8., 4.];
    assert_eq!(values(&matrix.mul_vec(&vector)), expected);
}

#[test]
fn matrix_vector_multiplication_example_3() {
    let matrix = matrix(&[[2., -2.], [-2., 2.]]);
    let vector = vector(&[4., 2.]);

    let expected = vec![4., -4.];
    assert_eq!(values(&matrix.mul_vec(&vector)), expected);
}

#[test]
fn matrix_vector_multiplication_invalid() {
    let matrix = matrix(&[[2., -2.], [-2., 2.]]);
    let vector = vector(&[4., 2., 3.]);

    let expected: Vec<f64> = vec![];
    assert_eq!(values(&matrix.mul_vec(&vector)), expected);
}

#[test]
fn matrix_vector_multiplication_of_a_wide_matrix() {
    let matrix = matrix(&[[1., 2., 3.], [4., 5., 6.]]);
    let vector = vector(&[1., 0., -1.]);
    assert_eq!(values(&matrix.mul_vec(&vector)), vec![-2., -2.]);
}

#[test]
fn matrix_matrix_multiplication_example_1() {
    let matrix_a = matrix(&[[1., 0.], [0., 1.]]);
    let other_matrix = matrix(&[[1., 0.], [0., 1.]]);

    let expected = vec![vec![1., 0.], vec![0., 1.]];
    assert_eq!(cells(&matrix_a.mul_mat(&other_matrix)), expected);
}

#[test]
fn matrix_matrix_multiplication_example_2() {
    let matrix_a = matrix(&[[1., 0.], [0., 1.]]);
    let other_matrix = matrix(&[[2., 1.], [4., 2.]]);

    let expected = vec![vec![2., 1.], vec![4., 2.]];
    assert_eq!(cells(&matrix_a.mul_mat(&other_matrix)), expected);
}

#[test]
fn matrix_matrix_multiplication_example_3() {
    let matrix_a = matrix(&[[3., -5.], [6., 8.]]);
    let other_matrix = matrix(&[[2., 1.], [4., 2.]]);

    let expected = vec![vec![-14., -7.], vec![44., 22.]];
    assert_eq!(cells(&matrix_a.mul_mat(&other_matrix)), expected);
}

#[test]
fn matrix_matrix_multiplication_invalid() {
    // Only the inner dimensions have to agree: two columns meet two rows
    // here, so the product exists and has two rows of three.
    let matrix_a = matrix(&[[3., -5.], [6., 8.]]);
    let other_matrix = matrix(&[[2., 1., 2.], [4., 2., 2.]]);

    let expected = vec![vec![-14., -7., -4.], vec![44., 22., 28.]];
    assert_eq!(cells(&matrix_a.mul_mat(&other_matrix)), expected);
}

#[test]
fn matrix_matrix_multiplication_shape_mismatch() {
    let matrix_a = matrix(&[[3., -5.], [6., 8.]]);
    let other_matrix = matrix(&[[2., 1.], [4., 2.], [1., 1.]]);

    let expected: Vec<Vec<f64>> = vec![];
    assert_eq!(cells(&matrix_a.mul_mat(&other_matrix)), expected);
    assert_eq!(matrix_a.mul_mat(&other_matrix).shape(), [0, 0]);
}

#[test]
fn matrix_matrix_multiplication_is_not_commutative() {
    let matrix_a = matrix(&[[1., 2.], [3., 4.]]);
    let matrix_b = matrix(&[[0., 1.], [1., 0.]]);
    assert_eq!(cells(&matrix_a.mul_mat(&matrix_b)), vec![vec![2., 1.], vec![4., 3.]]);
    assert_eq!(cells(&matrix_b.mul_mat(&matrix_a)), vec![vec![3., 4.], vec![1., 2.]]);
}
