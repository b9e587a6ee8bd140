//! Polynomial series in orthogonal bases, with verified contracts.
//!
//! The crate provides evaluation, differentiation, integration,
//! interpolation, least-squares fitting, root finding, coefficient
//! manipulation, domain scaling and truncation.  The operations are
//! expressed as traits so that bases can share an interface.  The Chebyshev
//! basis implements `PolynomialSeries`, `PolynomialIntegrals`,
//! `PolynomialApproximation` and `PolynomialEvaluateMany`; the operations of
//! `PolynomialCoefficients`, `PolynomialDomain`, `PolynomialRoots`,
//! `FitPolynomialSeries` and `InterpolatePolynomialSeries` need
//! `num_traits::Float` or `ndarray_linalg::Lapack` on the coefficient type,
//! a bound that a verified trait impl cannot carry, so `ChebyshevSeries`
//! offers them as methods of its own with the same names.  Dense linear
//! algebra (fitting, interpolation and the eigenvalues of root finding) is
//! delegated to `ndarray-linalg`.
pub mod scalar;
pub mod scaling;
pub mod c_series;
pub mod z_series;
pub mod error;
pub mod traits;
pub mod chebyshev;
pub mod linalg;
pub mod laws;

pub use chebyshev::ChebyshevSeries;
pub use error::ChebyshevError;
pub use traits::{
    ConvertPolynomialBasis, FitPolynomialSeries, FitReport, InterpolatePolynomialSeries, PolynomialApproximation,
    PolynomialCoefficients, PolynomialDomain, PolynomialEvaluateMany, PolynomialIntegrals, PolynomialRoots,
    PolynomialSeries,
};
