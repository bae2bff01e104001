use matrix::linear_interpolation::lerp;
use matrix::matrix::Matrix;
use matrix::norm::Norm;
use matrix::scalar::Scalar;
use matrix::vector::Vector;

/// Double-precision numbers as the scalar of the tests. The functions whose
/// names end in `_spec` name results in the library's contracts; nothing
/// ever runs them.
#[derive(Clone, Copy, Debug, PartialEq)]
struct Real(f64);

impl Norm for Real {
    fn abs_spec(self) -> Self {
        unreachable!()
    }

    fn pow_spec(self, _: Self) -> Self {
        unreachable!()
    }

    fn abs(self) -> Self {
        Real(self.0.abs())
    }

    fn pow(self, exponent: Self) -> Self {
        Real(self.0.powf(exponent.0))
    }
}

impl Scalar for Real {
    fn zero_spec() -> Self {
        unreachable!()
    }

    fn one_spec() -> Self {
        unreachable!()
    }

    fn from_int_spec(_: i32) -> Self {
        unreachable!()
    }

    fn pi_spec() -> Self {
        unreachable!()
    }

    fn add_spec(self, _: Self) -> Self {
        unreachable!()
    }

    fn sub_spec(self, _: Self) -> Self {
        unreachable!()
    }

    fn mul_spec(self, _: Self) -> Self {
        unreachable!()
    }

    fn div_spec(self, _: Self) -> Self {
        unreachable!()
    }

    fn neg_spec(self) -> Self {
        unreachable!()
    }

    fn tan_spec(self) -> Self {
        unreachable!()
    }

    fn equals_spec(self, _: Self) -> bool {
        unreachable!()
    }

    fn less_than_spec(self, _: Self) -> bool {
        unreachable!()
    }

    fn zero() -> Self {
        Real(0.)
    }

    fn one() -> Self {
        Real(1.)
    }

    fn from_int(n: i32) -> Self {
        Real(f64::from(n))
    }

    fn pi() -> Self {
        Real(std::f64::consts::PI)
    }

    fn add(self, rhs: Self) -> Self {
        Real(self.0 + rhs.0)
    }

    fn sub(self, rhs: Self) -> Self {
        Real(self.0 - rhs.0)
    }

    fn mul(self, rhs: Self) -> Self {
        Real(self.0 * rhs.0)
    }

    fn div(self, rhs: Self) -> Self {
        Real(self.0 / rhs.0)
    }

    fn neg(self) -> Self {
        Real(-self.0)
    }

    fn tan(self) -> Self {
        Real(self.0.tan())
    }

    fn equals(self, rhs: Self) -> bool {
        self.0 == rhs.0
    }

    fn less_than(self, rhs: Self) -> bool {
        self.0 < rhs.0
    }
}

#[allow(dead_code)]
fn reals(values: &[f64]) -> Vec<Real> {
    values.iter().map(|x| Real(*x)).collect()
}

#[allow(dead_code)]
fn vector(values: &[f64]) -> Vector<Real> {
    Vector::from(reals(values))
}

#[allow(dead_code)]
fn values(vector: &Vector<Real>) -> Vec<f64> {
    vector.all().iter().map(|x| x.0).collect()
}

#[allow(dead_code)]
fn matrix<const N: usize>(rows: &[[f64; N]]) -> Matrix<Real> {
    Matrix::from_rows(rows.iter().map(|row| reals(row)).collect()).unwrap()
}

#[allow(dead_code)]
fn cells(matrix: &Matrix<Real>) -> Vec<Vec<f64>> {
    matrix.all().iter().map(|row| row.iter().map(|x| x.0).collect()).collect()
}

fn sample_vectors() -> Vec<Vec<f64>> {
    vec![
        vec![],
        vec![0.],
        vec![3., -4.],
        vec![1., 2., 3.],
        vec![-1.5, 0.25, 8., -0.125],
        vec![0., 0., 0.],
    ]
}

fn sample_matrices() -> Vec<Matrix<Real>> {
    vec![
        Matrix::new([0, 0]),
        matrix(&[[2.]]),
        matrix(&[[1., 2.], [3., 4.]]),
        matrix(&[[1., 2., 3.], [4., 5., 6.]]),
        matrix(&[[1., 2.], [3., 4.], [5., 6.]]),
        matrix(&[[8., 5., -2.], [4., 7., 20.], [7., 6., 1.]]),
    ]
}

#[test]
fn dot_product_does_not_depend_on_the_order() {
    for u in sample_vectors() {
        for v in sample_vectors() {
            let (a, b) = (vector(&u), vector(&v));
            assert_eq!(a.dot(&b).0, b.dot(&a).0);
        }
    }
}

#[test]
fn norms_are_in_order() {
    for u in sample_vectors() {
        let v = vector(&u);
        assert!(v.norm_inf().0 <= v.norm().0 + 1e-12);
        assert!(v.norm().0 <= v.norm_1().0 + 1e-12);
    }
}

#[test]
fn euclidean_norm_is_zero_for_zeros_only() {
    for u in sample_vectors() {
        let v = vector(&u);
        let all_zero = u.iter().all(|x| *x == 0.);
        assert_eq!(v.norm().0 == 0., all_zero);
    }
}

#[test]
fn transposing_twice_gives_the_matrix_back() {
    for m in sample_matrices() {
        assert_eq!(cells(&m.transpose().transpose()), cells(&m));
    }
}

#[test]
fn multiplying_by_the_identity_changes_nothing() {
    for m in sample_matrices() {
        let shape = m.shape();
        let left = Matrix::identity(shape[0], Real(1.));
        let right = Matrix::identity(shape[1], Real(1.));
        assert_eq!(cells(&left.mul_mat(&m)), cells(&m));
        assert_eq!(cells(&m.mul_mat(&right)), cells(&m));
    }
}

#[test]
fn lerp_ends_at_its_arguments() {
    for u in sample_vectors() {
        let a = vector(&u);
        let b = vector(&u.iter().map(|x| x + 1.).collect::<Vec<f64>>());
        assert_eq!(values(&lerp(&a, &b, Real(0.))), values(&a));
        assert_eq!(values(&lerp(&a, &b, Real(1.))), values(&b));
    }
}

#[test]
fn row_echelon_of_a_reduced_matrix_is_itself() {
    for m in sample_matrices() {
        let once = m.row_echelon();
        assert_eq!(once.shape(), m.shape());
        let twice = once.row_echelon();
        for (a, b) in cells(&once).iter().zip(cells(&twice).iter()) {
            for (x, y) in a.iter().zip(b.iter()) {
                assert!((x - y).abs() < 1e-9);
            }
        }
    }
}

#[test]
fn rank_is_at_most_either_dimension() {
    for m in sample_matrices() {
        let shape = m.shape();
        assert!(m.rank() <= shape[0]);
        assert!(m.rank() <= shape[1]);
    }
}

#[test]
fn row_echelon_is_reduced() {
    let zero = |x: f64| x.abs() < 1e-9;
    for m in sample_matrices() {
        let reduced = cells(&m.row_echelon());
        let mut previous: Option<usize> = None;
        let mut seen_zero_row = false;
        for (i, row) in reduced.iter().enumerate() {
            match row.iter().position(|x| !zero(*x)) {
                None => seen_zero_row = true,
                Some(lead) => {
                    assert!(!seen_zero_row);
                    assert!((row[lead] - 1.).abs() < 1e-9);
                    assert!(previous.map_or(true, |before| before < lead));
                    for (k, other) in reduced.iter().enumerate() {
                        assert!(k == i || zero(other[lead]));
                    }
                    previous = Some(lead);
                }
            }
        }
    }
}

#[test]
fn inverse_times_the_matrix_is_the_identity() {
    let regular = [
        matrix(&[[1., 2.], [3., 4.]]),
        matrix(&[[0., 2.], [4., 0.]]),
        matrix(&[[2., 0., 0.], [0., 4., 0.], [0., 0., 8.]]),
    ];
    for m in regular.iter() {
        let inverse = m.inverse().unwrap();
        let n = m.shape()[0];
        assert_eq!(cells(&inverse.mul_mat(m)), cells(&Matrix::identity(n, Real(1.))));
    }
    let rounded = matrix(&[[8., 5., -2.], [4., 7., 20.], [7., 6., 1.]]);
    let product = cells(&rounded.inverse().unwrap().mul_mat(&rounded));
    for (i, row) in product.iter().enumerate() {
        for (j, x) in row.iter().enumerate() {
            let expected = if i == j { 1. } else { 0. };
            assert!((x - expected).abs() < 1e-9);
        }
    }
}

#[test]
fn determinant_by_elimination_agrees_with_the_expansion() {
    // Five rows go by elimination. The matrix holds a block of four rows,
    // whose determinant goes by expansion, beside a single two.
    let block = matrix(&[
        [8., 5., -2., 4.],
        [4., 2.5, 20., 4.],
        [8., 5., 1., 4.],
        [28., -4., 17., 1.],
    ]);
    let whole = matrix(&[
        [8., 5., -2., 4., 0.],
        [4., 2.5, 20., 4., 0.],
        [8., 5., 1., 4., 0.],
        [28., -4., 17., 1., 0.],
        [0., 0., 0., 0., 2.],
    ]);
    assert_eq!(whole.determinant().0, 2. * block.determinant().0);
}
