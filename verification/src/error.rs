//! Errors of Chebyshev series construction, fitting, interpolation and root
//! finding.
use vstd::prelude::*;
use ndarray::ShapeError;
use ndarray_linalg::error::LinalgError;

verus! {

#[verifier::external_type_specification]
#[verifier::external_body]
pub struct ExLinalgError(ndarray_linalg::error::LinalgError);

#[verifier::external_type_specification]
#[verifier::external_body]
pub struct ExShapeError(ndarray::ShapeError);

#[derive(Debug)]
pub enum ChebyshevError {
    InvalidDomain,
    InvalidCoefficients,
    EmptyInput,
    LengthMismatch,
    WeightLengthMismatch,
    InvalidData,
    DuplicateAbscissa,
    DegeneratePolynomial,
    Linalg(LinalgError),
    Shape(ShapeError),
    InvalidWeights,
    UnderdeterminedFit,
}

impl From<LinalgError> for ChebyshevError {
    /// A failed linear-algebra routine.
    fn from(error: LinalgError) -> (r: Self)
        ensures
            r == ChebyshevError::Linalg(error),
    {
        ChebyshevError::Linalg(error)
    }
}

impl vstd::std_specs::convert::FromSpecImpl<LinalgError> for ChebyshevError {
    open spec fn obeys_from_spec() -> bool {
        true
    }

    open spec fn from_spec(v: LinalgError) -> Self {
        ChebyshevError::Linalg(v)
    }
}

impl From<ShapeError> for ChebyshevError {
    /// An array of the wrong shape.
    fn from(error: ShapeError) -> (r: Self)
        ensures
            r == ChebyshevError::Shape(error),
    {
        ChebyshevError::Shape(error)
    }
}

impl vstd::std_specs::convert::FromSpecImpl<ShapeError> for ChebyshevError {
    open spec fn obeys_from_spec() -> bool {
        true
    }

    open spec fn from_spec(v: ShapeError) -> Self {
        ChebyshevError::Shape(v)
    }
}

/// The message that describes each error.
pub open spec fn error_message(e: ChebyshevError) -> Seq<char> {
    match e {
        ChebyshevError::InvalidDomain => "domain must be finite and have positive width"@,
        ChebyshevError::InvalidCoefficients => "coefficients must be finite"@,
        ChebyshevError::EmptyInput => "interpolation requires at least one point"@,
        ChebyshevError::LengthMismatch => "x and y data must have equal length"@,
        ChebyshevError::WeightLengthMismatch => "weights must have the same length as x and y data"@,
        ChebyshevError::InvalidData => "interpolation points must be finite"@,
        ChebyshevError::DuplicateAbscissa => "interpolation points must have distinct x values"@,
        ChebyshevError::DegeneratePolynomial => "root finding requires a non-zero leading coefficient"@,
        ChebyshevError::Linalg(_) => "failure in linear algebra operation"@,
        ChebyshevError::Shape(_) => "shape error"@,
        ChebyshevError::InvalidWeights => "weights must be finite and non-negative"@,
        ChebyshevError::UnderdeterminedFit => "polynomial degree is too high for the number of observations"@,
    }
}

impl ChebyshevError {
    /// The message that describes the error.
    pub fn message(&self) -> (r: &'static str)
        ensures
            r@ == error_message(*self),
    {
        match self {
            ChebyshevError::InvalidDomain => "domain must be finite and have positive width",
            ChebyshevError::InvalidCoefficients => "coefficients must be finite",
            ChebyshevError::EmptyInput => "interpolation requires at least one point",
            ChebyshevError::LengthMismatch => "x and y data must have equal length",
            ChebyshevError::WeightLengthMismatch => "weights must have the same length as x and y data",
            ChebyshevError::InvalidData => "interpolation points must be finite",
            ChebyshevError::DuplicateAbscissa => "interpolation points must have distinct x values",
            ChebyshevError::DegeneratePolynomial => "root finding requires a non-zero leading coefficient",
            ChebyshevError::Linalg(_) => "failure in linear algebra operation",
            ChebyshevError::Shape(_) => "shape error",
            ChebyshevError::InvalidWeights => "weights must be finite and non-negative",
            ChebyshevError::UnderdeterminedFit => "polynomial degree is too high for the number of observations",
        }
    }
}

} // verus!
