//! A small dense linear-algebra kernel: vectors and matrices over any scalar
//! type that offers the arithmetic of [`scalar::Scalar`].
//!
//! Every operation has a contract over sequences of scalars and is proved to
//! keep it. The contracts hold for rounding arithmetic as for exact
//! arithmetic: they name results by the scalar's own operations and assume
//! no laws of them. What holds of exact arithmetic only is stated apart, as
//! theorems that ask for exactness ([`exact`]): the order of the norms
//! ([`norm_laws`]), that an inverse exists where the determinant is not zero
//! and inverts the matrix ([`invertibility`]), and that elimination ends in
//! reduced row-echelon form ([`echelon_laws`]). These rest on the theory of
//! determinants and of elimination over the real numbers in [`real_det`] and
//! [`real_gauss`].

pub mod cosine;
pub mod cross_product;
pub mod determinant;
pub mod echelon_laws;
pub mod elimination;
pub mod error;
pub mod exact;
pub mod invertibility;
pub mod iteration;
pub mod linear_combination;
pub mod linear_interpolation;
pub mod matrix;
pub mod norm;
pub mod norm_laws;
pub mod product_laws;
pub mod rank;
pub mod real_arith;
pub mod real_det;
pub mod real_gauss;
pub mod scalar;
pub mod vector;
