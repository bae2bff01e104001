use matrix::cosine::angle_cos;
use matrix::cross_product::cross_product;
use matrix::error::{Error, Shape};
use matrix::linear_combination::linear_combination;
use matrix::linear_interpolation::lerp;
use matrix::matrix::Matrix;
use matrix::norm::Norm;
use matrix::scalar::Scalar;
use matrix::vector::Vector;

/// Double-precision numbers as the scalar of the tests. The functions whose
/// names end in `_spec` name results in the library's contracts; nothing
/// ever runs them.
#[derive(Clone, Copy, Debug, PartialEq)]
struct Real(f64);

impl Norm for Real {
    fn abs_spec(self) -> Self {
        unreachable!()
    }

    fn pow_spec(self, _: Self) -> Self {
        unreachable!()
    }

    fn abs(self) -> Self {
        Real(self.0.abs())
    }

    fn pow(self, exponent: Self) -> Self {
        Real(self.0.powf(exponent.0))
    }
}

impl Scalar for Real {
    fn zero_spec() -> Self {
        unreachable!()
    }

    fn one_spec() -> Self {
        unreachable!()
    }

    fn from_int_spec(_: i32) -> Self {
        unreachable!()
    }

    fn pi_spec() -> Self {
        unreachable!()
    }

    fn add_spec(self, _: Self) -> Self {
        unreachable!()
    }

    fn sub_spec(self, _: Self) -> Self {
        unreachable!()
    }

    fn mul_spec(self, _: Self) -> Self {
        unreachable!()
    }

    fn div_spec(self, _: Self) -> Self {
        unreachable!()
    }

    fn neg_spec(self) -> Self {
        unreachable!()
    }

    fn tan_spec(self) -> Self {
        unreachable!()
    }

    fn equals_spec(self, _: Self) -> bool {
        unreachable!()
    }

    fn less_than_spec(self, _: Self) -> bool {
        unreachable!()
    }

    fn zero() -> Self {
        Real(0.)
    }

    fn one() -> Self {
        Real(1.)
    }

    fn from_int(n: i32) -> Self {
        Real(f64::from(n))
    }

    fn pi() -> Self {
        Real(std::f64::consts::PI)
    }

    fn add(self, rhs: Self) -> Self {
        Real(self.0 + rhs.0)
    }

    fn sub(self, rhs: Self) -> Self {
        Real(self.0 - rhs.0)
    }

    fn mul(self, rhs: Self) -> Self {
        Real(self.0 * rhs.0)
    }

    fn div(self, rhs: Self) -> Self {
        Real(self.0 / rhs.0)
    }

    fn neg(self) -> Self {
        Real(-self.0)
    }

    fn tan(self) -> Self {
        Real(self.0.tan())
    }

    fn equals(self, rhs: Self) -> bool {
        self.0 == rhs.0
    }

    fn less_than(self, rhs: Self) -> bool {
        self.0 < rhs.0
    }
}

#[allow(dead_code)]
fn reals(values: &[f64]) -> Vec<Real> {
    values.iter().map(|x| Real(*x)).collect()
}

#[allow(dead_code)]
fn vector(values: &[f64]) -> Vector<Real> {
    Vector::from(reals(values))
}

#[allow(dead_code)]
fn values(vector: &Vector<Real>) -> Vec<f64> {
    vector.all().iter().map(|x| x.0).collect()
}

#[allow(dead_code)]
fn matrix<const N: usize>(rows: &[[f64; N]]) -> Matrix<Real> {
    Matrix::from_rows(rows.iter().map(|row| reals(row)).collect()).unwrap()
}

#[allow(dead_code)]
fn cells(matrix: &Matrix<Real>) -> Vec<Vec<f64>> {
    matrix.all().iter().map(|row| row.iter().map(|x| x.0).collect()).collect()
}

#[test]
fn cosine_example_1() {
    let e1 = vector(&[1., 0.]);
    let e2 = vector(&[1., 0.]);

    assert_eq!(angle_cos(&e1, &e2).0, 1.);
}

#[test]
fn cosine_example_2() {
    let e1 = vector(&[1., 0.]);
    let e2 = vector(&[0., 1.]);

    assert_eq!(angle_cos(&e1, &e2).0, 0.);
}

#[test]
fn cosine_example_3() {
    let e1 = vector(&[-1., 1.]);
    let e2 = vector(&[1., -1.]);

    let cos = angle_cos(&e1, &e2).0;
    let expected = -1.;
    assert_eq!(cos as f32, expected);
}

#[test]
fn cosine_example_4() {
    let e1 = vector(&[2., 1.]);
    let e2 = vector(&[4., 2.]);

    let cos = angle_cos(&e1, &e2).0;
    let expected = 1.;
    assert_eq!(cos as f32, expected);
}

#[test]
fn cosine_example_5() {
    let e1 = vector(&[1., 2., 3.]);
    let e2 = vector(&[4., 5., 6.]);

    let cos = angle_cos(&e1, &e2).0;
    let expected = 0.974631846;
    assert_eq!(cos as f32, expected);
}

#[test]
fn cosine_invalid_empty() {
    let e1 = vector(&[]);
    let e2 = vector(&[]);

    assert_eq!(angle_cos(&e1, &e2).0, f64::default());
}

#[test]
fn cosine_invalid_example() {
    let e1 = vector(&[0., 0., 3.]);
    let e2 = vector(&[1., 1.]);

    assert_eq!(angle_cos(&e1, &e2).0, f64::default());
}

#[test]
fn cosine_of_a_vector_with_itself() {
    for u in [vector(&[3., 4.]), vector(&[1., 2., 3.]), vector(&[-2.5])] {
        assert!((angle_cos(&u, &u).0 - 1.).abs() < 1e-9);
    }
}

#[test]
fn cosine_with_a_vector_of_zeros() {
    let zeros = vector(&[0., 0.]);
    let e1 = vector(&[1., 0.]);
    assert_eq!(angle_cos(&zeros, &e1).0, 0.);
    assert_eq!(angle_cos(&e1, &zeros).0, 0.);
    assert_eq!(angle_cos(&zeros, &zeros).0, 0.);
}

#[test]
fn cosine_close_to_the_literal() {
    let cos = angle_cos(&vector(&[1., 2., 3.]), &vector(&[4., 5., 6.])).0;
    assert!((cos - 0.97463185).abs() < 1e-8);
}

#[test]
fn cross_product_example_1() {
    let e1 = vector(&[0., 0., 1.]);
    let e2 = vector(&[1., 0., 0.]);

    let result = cross_product(&e1, &e2);
    let expected = vec![0., 1., 0.];
    assert_eq!(values(&result), expected);
}

#[test]
fn cross_product_example_2() {
    let e1 = vector(&[1., 2., 3.]);
    let e2 = vector(&[4., 5., 6.]);

    let result = cross_product(&e1, &e2);
    let expected = vec![-3., 6., -3.];
    assert_eq!(values(&result), expected);
}

#[test]
fn cross_product_example_3() {
    let e1 = vector(&[4., 2., -3.]);
    let e2 = vector(&[-2., -5., 16.]);

    let result = cross_product(&e1, &e2);
    let expected = vec![17., -58., -16.];
    assert_eq!(values(&result), expected);
}

#[test]
fn cross_product_invalid_empty() {
    let e1 = vector(&[]);
    let e2 = vector(&[]);

    let result = cross_product(&e1, &e2);
    assert_eq!(result.size(), 0);
}

#[test]
fn cross_product_invalid_example() {
    let e1 = vector(&[0., 0., 3.]);
    let e2 = vector(&[1., 1.]);

    let result = cross_product(&e1, &e2);
    assert_eq!(result.size(), 0);
}

#[test]
fn cross_product_needs_three_elements_on_both_sides() {
    let three = vector(&[1., 2., 3.]);
    let four = vector(&[1., 2., 3., 4.]);
    assert_eq!(cross_product(&three, &four).size(), 0);
    assert_eq!(cross_product(&four, &three).size(), 0);
    assert_eq!(cross_product(&four, &four).size(), 0);
}

#[test]
fn linear_combination_example_1() {
    let e1 = vector(&[1., 0., 0.]);
    let e2 = vector(&[0., 1., 0.]);
    let e3 = vector(&[0., 0., 1.]);

    let result = linear_combination(&[e1, e2, e3], &reals(&[10., -2., 0.5]));
    match result {
        Ok(_) => assert!(true),
        Err(_) => assert!(false, "Failed to calculate linear combination"),
    }

    let expected = vec![10., -2., 0.5];
    assert_eq!(values(&result.unwrap()), expected);
}

#[test]
fn linear_combination_example_2() {
    let v1 = vector(&[1., 2., 3.]);
    let v2 = vector(&[0., 10., -100.]);

    let result = linear_combination(&[v1, v2], &reals(&[10., -2.]));
    match result {
        Ok(_) => assert!(true),
        Err(ref err) => assert!(false, "Failed to calculate linear combination: {:#?}", err),
    }

    let expected = vec![10., 0., 230.];
    assert_eq!(values(&result.unwrap()), expected);
}

#[test]
fn invalid_linear_combination_vectors() {
    let v1 = vector(&[1., 2., 3., 4.]);
    let v2 = vector(&[0., 10., -100.]);

    let result = linear_combination(&[v1, v2], &reals(&[42., 0.]));
    match result {
        Ok(_) => assert!(false, "Failed to fail to calculate linear combination"),
        Err(_) => assert!(true),
    }
}

#[test]
fn invalid_linear_combination_coeffs() {
    let v1 = vector(&[1., 2., 3.]);
    let v2 = vector(&[0., 10., -100.]);

    let result = linear_combination(&[v1, v2], &reals(&[42., 0., 42.]));
    match result {
        Ok(_) => assert!(false, "Failed to fail to calculate linear combination"),
        Err(_) => assert!(true),
    }
}

#[test]
fn linear_combination_names_its_errors() {
    let none: [Vector<Real>; 0] = [];
    assert_eq!(
        linear_combination(&none, &reals(&[1.])).err(),
        Some(Error::EmptyInput)
    );
    assert_eq!(
        linear_combination(&[vector(&[1., 2.])], &reals(&[])).err(),
        Some(Error::EmptyInput)
    );
    assert_eq!(
        linear_combination(
            &[vector(&[1., 2.]), vector(&[1., 2.]), vector(&[1., 2., 3.])],
            &reals(&[1., 1.])
        )
        .err(),
        Some(Error::ShapeMismatch {
            expected: Shape { rows: 1, cols: 2 },
            actual: Shape { rows: 1, cols: 3 },
        })
    );
    assert_eq!(
        linear_combination(&[vector(&[1., 2.]), vector(&[3., 4.])], &reals(&[1.])).err(),
        Some(Error::ShapeMismatch {
            expected: Shape { rows: 1, cols: 2 },
            actual: Shape { rows: 1, cols: 1 },
        })
    );
}

#[test]
fn linear_combination_of_one_vector() {
    let result = linear_combination(&[vector(&[1., -2.])], &reals(&[3.]));
    assert_eq!(values(&result.unwrap()), vec![3., -6.]);
}

#[test]
fn linear_interpolation_numbers() {
    assert_eq!(lerp(&Real(0.), &Real(1.), Real(0.)).0, 0.0);
    assert_eq!(lerp(&Real(0.), &Real(1.), Real(1.)).0, 1.0);
    assert_eq!(lerp(&Real(0.), &Real(1.), Real(0.5)).0, 0.5);
    assert_eq!(lerp(&Real(21.), &Real(42.), Real(0.3)).0, 27.299999999999997);
}

#[test]
fn linear_interpolation_vectors() {
    let e1 = vector(&[1., 0., 0.]);
    let e2 = vector(&[0., 1., 0.]);

    let result = lerp(&e1, &e2, Real(0.));
    assert_eq!(values(&result), values(&e1));
    let result = lerp(&e1, &e2, Real(1.));
    assert_eq!(values(&result), values(&e2));
    let result = lerp(&e1, &e2, Real(0.5));
    assert_eq!(values(&result), &[0.5, 0.5, 0.]);
}

#[test]
fn linear_interpolation_matrices() {
    let e1 = matrix(&[[1., 0., 0.], [0., 0., 0.]]);
    let e2 = matrix(&[[0., 1., 0.], [1., 0., 1.]]);

    let result = lerp(&e1, &e2, Real(0.));
    assert_eq!(cells(&result), cells(&e1));
    let result = lerp(&e1, &e2, Real(1.));
    assert_eq!(cells(&result), cells(&e2));
    let result = lerp(&e1, &e2, Real(0.5));
    assert_eq!(cells(&result), &[[0.5, 0.5, 0.], [0.5, 0., 0.5]]);
}

#[test]
fn linear_interpolation_vector_example_1() {
    let e1 = vector(&[2., 1.]);
    let e2 = vector(&[4., 2.]);

    let result = lerp(&e1, &e2, Real(0.3));
    assert_eq!(values(&result), &[2.5999999999999996, 1.2999999999999998]);
}

#[test]
fn linear_interpolation_matrix_example_1() {
    let e1 = matrix(&[[2., 1.], [3., 4.]]);
    let e2 = matrix(&[[20., 10.], [30., 40.]]);

    let result = lerp(&e1, &e2, Real(0.5));
    assert_eq!(cells(&result), &[[11.0, 5.5], [16.5, 22.0]]);
}

#[test]
fn linear_interpolation_vector_invalid_example() {
    let e1 = vector(&[2., 1., 3.]);
    let e2 = vector(&[4., 2.]);

    let result = lerp(&e1, &e2, Real(0.0));
    assert_eq!(result.size(), 0);
    let result = lerp(&e1, &e2, Real(1.0));
    assert_eq!(result.size(), 0);
    let result = lerp(&e1, &e2, Real(0.3));
    assert_eq!(result.size(), 0);
}

#[test]
fn linear_interpolation_matrix_invalid_example() {
    let e1 = matrix(&[[2., 1., 0.], [3., 4., 0.]]);
    let e2 = matrix(&[[20., 10.], [30., 40.]]);

    let result = lerp(&e1, &e2, Real(0.0));
    assert_eq!(result.shape()[0], 0);
    assert_eq!(result.shape()[1], 0);
    let result = lerp(&e1, &e2, Real(1.0));
    assert_eq!(result.shape()[0], 0);
    assert_eq!(result.shape()[1], 0);
    let result = lerp(&e1, &e2, Real(0.3));
    assert_eq!(result.shape()[0], 0);
    assert_eq!(result.shape()[1], 0);
}

#[test]
fn linear_interpolation_outside_the_interval() {
    assert_eq!(lerp(&Real(1.), &Real(3.), Real(2.)).0, 5.);
    assert_eq!(lerp(&Real(1.), &Real(3.), Real(-1.)).0, -1.);
}

#[test]
fn projection_of_a_right_angle() {
    let projection = Matrix::projection(Real(90.), Real(1.), Real(1.), Real(50.));
    let cells = cells(&projection);
    let s = 1. / (45.0f64 * (std::f64::consts::PI / 180.)).tan();
    assert_eq!(
        cells,
        vec![
            vec![s, 0., 0., 0.],
            vec![0., s, 0., 0.],
            vec![0., 0., -50. / 49., -1.],
            vec![0., 0., -(50. / 49.), 0.],
        ]
    );
    assert!((s - 1.).abs() < 1e-15);
}

#[test]
fn projection_scales_by_the_aspect_ratio() {
    let narrow = cells(&Matrix::projection(Real(60.), Real(0.5), Real(2.), Real(10.)));
    let s = 1. / (30.0f64 * (std::f64::consts::PI / 180.)).tan();
    assert_eq!(narrow[0], vec![s * 0.5, 0., 0., 0.]);
    assert_eq!(narrow[1], vec![0., s, 0., 0.]);
    assert_eq!(narrow[2], vec![0., 0., -10. / 8., -1.]);
    assert_eq!(narrow[3], vec![0., 0., -(20. / 8.), 0.]);

    let wide = cells(&Matrix::projection(Real(60.), Real(2.), Real(2.), Real(10.)));
    assert_eq!(wide[0], vec![s, 0., 0., 0.]);
    assert_eq!(wide[1], vec![0., s * 0.5, 0., 0.]);
}
