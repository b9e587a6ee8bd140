use polynomial_series::chebyshev::fitting::{
    assemble_fit_report,
    chebyshev_basis_values, design_matrix, fitting_domain, residual_sum_of_squares, residual_variance, residuals,
    scale_matrix, validate_domain, validate_fit_data, validate_weights, weight_rows,
};
use polynomial_series::{ChebyshevError, ChebyshevSeries};

#[test]
fn fit_data_checks_in_order() {
    assert!(matches!(validate_fit_data::<f64>(&[], &[], 0), Err(ChebyshevError::EmptyInput)));
    assert!(matches!(validate_fit_data(&[0.0, 1.0], &[1.0], 0), Err(ChebyshevError::LengthMismatch)));
    assert!(matches!(validate_fit_data(&[0.0, 1.0], &[1.0, 2.0], 2), Err(ChebyshevError::UnderdeterminedFit)));
    assert!(matches!(validate_fit_data(&[0.0, f64::NAN], &[1.0, 2.0], 1), Err(ChebyshevError::InvalidData)));
    assert!(matches!(validate_fit_data(&[0.0, 1.0], &[f64::INFINITY, 2.0], 1), Err(ChebyshevError::InvalidData)));
    assert!(validate_fit_data(&[0.0, 1.0], &[1.0, 2.0], 1).is_ok());
}

#[test]
fn weights_must_match_and_be_non_negative() {
    assert!(matches!(validate_weights(&[0.0, 1.0], &[1.0]), Err(ChebyshevError::LengthMismatch)));
    assert!(matches!(validate_weights(&[0.0, 1.0], &[1.0, -1.0]), Err(ChebyshevError::InvalidWeights)));
    assert!(matches!(validate_weights(&[0.0, 1.0], &[f64::NAN, 1.0]), Err(ChebyshevError::InvalidWeights)));
    assert!(validate_weights(&[0.0, 1.0], &[0.0, 2.0]).is_ok());
}

#[test]
fn fit_domain_must_be_valid() {
    assert!(matches!(validate_domain(&(1.0..1.0)), Err(ChebyshevError::InvalidDomain)));
    assert!(validate_domain(&(0.0..1.0)).is_ok());
}

#[test]
fn fitting_domain_spans_the_data() {
    assert_eq!(fitting_domain(&[3.0, 1.0, 2.0]).unwrap(), 1.0..3.0);
    assert!(matches!(fitting_domain::<f64>(&[]), Err(ChebyshevError::EmptyInput)));
    assert!(matches!(fitting_domain(&[1.0, f64::NAN]), Err(ChebyshevError::InvalidData)));
    assert!(matches!(fitting_domain(&[1.0, 1.0]), Err(ChebyshevError::InvalidDomain)));
}

#[test]
fn basis_values_follow_the_recurrence() {
    assert_eq!(chebyshev_basis_values(0.5, 0), vec![1.0]);
    assert_eq!(chebyshev_basis_values(0.5, 3), vec![1.0, 0.5, -0.5, -1.0]);
}

#[test]
fn design_matrix_rows_hold_basis_values_at_scaled_points() {
    let matrix = design_matrix(&[10.0, 15.0, 20.0], 2, &(10.0..20.0));

    assert_eq!(matrix, vec![vec![1.0, -1.0, 1.0], vec![1.0, 0.0, -1.0], vec![1.0, 1.0, 1.0]]);
}

#[test]
fn residual_statistics() {
    let r = residuals(&[1.0, 2.0, 4.0], &vec![1.5, 2.0, 3.0]);

    assert_eq!(r, vec![-0.5, 0.0, 1.0]);
    assert_eq!(residual_sum_of_squares(&r), 1.25);
    assert_eq!(residual_variance(1.25, 0), None);
    assert_eq!(residual_variance(1.25, 5), Some(0.25));
}

#[test]
fn matrices_scale_and_weight_by_rows() {
    let scaled = scale_matrix(vec![vec![1.0, 2.0], vec![3.0, 4.0]], 0.5);
    assert_eq!(scaled, vec![vec![0.5, 1.0], vec![1.5, 2.0]]);

    let (rows, rhs) = weight_rows(&vec![vec![1.0, 2.0], vec![3.0, 4.0]], &[5.0, 6.0], &vec![2.0, 3.0]);
    assert_eq!(rows, vec![vec![2.0, 4.0], vec![9.0, 12.0]]);
    assert_eq!(rhs, vec![10.0, 18.0]);
}

#[test]
fn fit_report_assembles_statistics_from_the_solution() {
    let series = ChebyshevSeries::new(vec![1.0, 2.0], -1.0..1.0).unwrap();
    let report = assemble_fit_report(
        &[1.0, 2.0, 4.0],
        1,
        series,
        vec![1.0, 2.0],
        vec![1.5, 2.0, 3.0],
        Some(vec![vec![1.0, 0.0], vec![0.0, 2.0]]),
    );

    assert_eq!(report.series.coefficients(), &[1.0, 2.0]);
    assert_eq!(report.coefficients, vec![1.0, 2.0]);
    assert_eq!(report.residuals, vec![-0.5, 0.0, 1.0]);
    assert_eq!(report.residual_sum_of_squares, 1.25);
    assert_eq!(report.degrees_of_freedom, 1);
    assert_eq!(report.residual_variance, Some(1.25));
    assert_eq!(report.covariance, Some(vec![vec![1.25, 0.0], vec![0.0, 2.5]]));
}

#[test]
fn exactly_determined_report_has_no_variance() {
    let series = ChebyshevSeries::new(vec![1.0, 2.0], -1.0..1.0).unwrap();
    let report = assemble_fit_report(&[1.0, 2.0], 1, series, vec![1.0, 2.0], vec![1.0, 2.0], None);

    assert_eq!(report.degrees_of_freedom, 0);
    assert_eq!(report.residual_variance, None);
    assert_eq!(report.covariance, None);
    assert_eq!(report.residual_sum_of_squares, 0.0);
}
