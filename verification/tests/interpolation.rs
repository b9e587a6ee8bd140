use polynomial_series::chebyshev::interpolate::{interpolation_domain, validate_interpolation_data};
use polynomial_series::ChebyshevError;

#[test]
fn interpolation_data_must_be_present() {
    assert!(matches!(validate_interpolation_data::<f64>(&[], &[]), Err(ChebyshevError::EmptyInput)));
}

#[test]
fn interpolation_data_lengths_must_agree() {
    assert!(matches!(validate_interpolation_data(&[0.0, 1.0], &[1.0]), Err(ChebyshevError::LengthMismatch)));
}

#[test]
fn interpolation_data_must_be_finite() {
    assert!(matches!(validate_interpolation_data(&[0.0, f64::NAN], &[1.0, 2.0]), Err(ChebyshevError::InvalidData)));
    assert!(matches!(validate_interpolation_data(&[0.0, 1.0], &[1.0, f64::NAN]), Err(ChebyshevError::InvalidData)));
    assert!(matches!(validate_interpolation_data(&[0.0, f64::INFINITY], &[1.0, 2.0]), Err(ChebyshevError::InvalidData)));
}

#[test]
fn interpolation_abscissae_must_be_distinct() {
    assert!(matches!(validate_interpolation_data(&[0.0, 2.0, 0.0], &[1.0, 2.0, 3.0]), Err(ChebyshevError::DuplicateAbscissa)));
    assert!(validate_interpolation_data(&[0.0, 2.0, 1.0], &[1.0, 2.0, 3.0]).is_ok());
}

#[test]
fn interpolation_domain_spans_the_abscissae() {
    let domain = interpolation_domain(&[2.0, -1.0, 5.0, 0.0]).unwrap();

    assert_eq!(domain, -1.0..5.0);
}

#[test]
fn interpolation_domain_of_single_point_is_invalid() {
    assert!(matches!(interpolation_domain(&[2.0]), Err(ChebyshevError::InvalidDomain)));
}
