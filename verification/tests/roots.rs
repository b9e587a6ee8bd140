use polynomial_series::chebyshev::roots::{colleague_matrix, select_real_roots, sort_ascending, tolerance};
use polynomial_series::{ChebyshevSeries, PolynomialSeries};
use std::ops::Range;

const EPS: f64 = 1.0e-10;

fn series(coefficients: Vec<f64>, domain: Range<f64>) -> ChebyshevSeries<f64> {
    ChebyshevSeries::new(coefficients, domain).unwrap()
}

fn assert_close(lhs: f64, rhs: f64) {
    assert!(
        (lhs - rhs).abs() <= EPS,
        "expected {lhs} ≈ {rhs}, difference = {}",
        (lhs - rhs).abs()
    );
}

#[test]
fn companion_matrix_for_t2_has_expected_shape() {
    let p = series(vec![0.0, 0.0, 1.0], -1.0..1.0);

    let matrix = p.companion_matrix().unwrap();

    assert_eq!(matrix.len(), 2);
    assert!(matrix.iter().all(|row| row.len() == 2));
}

#[test]
fn companion_matrix_of_t2_is_the_colleague_matrix() {
    let p = series(vec![0.0, 0.0, 1.0], -1.0..1.0);

    let matrix = p.companion_matrix().unwrap();
    let s = 0.5_f64.sqrt();

    assert_eq!(matrix, vec![vec![0.0, s], vec![s, 0.0]]);
}

#[test]
fn colleague_matrix_corrects_last_column() {
    let s = 0.5_f64.sqrt();
    let matrix = colleague_matrix(&[1.0, 0.0, 0.0, 2.0], s);

    assert_eq!(matrix.len(), 3);
    assert_eq!(matrix[0][1], s);
    assert_eq!(matrix[1][2], 0.5);
    assert_eq!(matrix[2][1], 0.5);
    assert_close(matrix[0][2], 0.0 - 1.0 / 2.0 / 2.0 * 1.0 / s);
    assert_eq!(matrix[1][1], 0.0);
}

#[test]
fn linear_root_of_t1_shifted() {
    let p = series(vec![-0.25, 1.0], -1.0..1.0);

    assert_eq!(p.linear_root().unwrap(), vec![0.25]);
}

#[test]
fn linear_root_maps_to_physical_domain() {
    let p = series(vec![0.0, 1.0], 10.0..20.0);

    assert_eq!(p.linear_root().unwrap(), vec![15.0]);
}

#[test]
fn linear_root_of_vanishing_t1_term_is_empty() {
    let p = series(vec![3.0, 0.0, 1.0], -1.0..1.0);

    assert!(p.linear_root().unwrap().is_empty());
}

#[test]
fn select_real_roots_filters_and_sorts() {
    let eigenvalues = vec![(0.5, 0.0), (-0.5, 1.0e-13), (0.0, 0.5), (f64::NAN, 0.0), (-1.0, -1.0e-14)];

    let roots = select_real_roots(&eigenvalues, tolerance(), &(10.0..20.0));

    assert_eq!(roots, vec![10.0, 12.5, 17.5]);
}

#[test]
fn imaginary_tolerance_is_ten_to_minus_twelve() {
    assert_eq!(tolerance::<f64>(), 1.0e-12);
}

#[test]
fn sort_ascending_orders_values() {
    assert_eq!(sort_ascending(vec![3.0, -1.0, 2.0, -1.0, 0.5]), vec![-1.0, -1.0, 0.5, 2.0, 3.0]);
    assert!(sort_ascending(Vec::<f64>::new()).is_empty());
}

#[test]
fn companion_matrix_rejects_vanishing_leading_coefficient() {
    let p = series(vec![0.0, 0.0, 0.0, 1.0], -1.0e308..1.0e308).first_derivative();

    assert_eq!(p.coefficients(), &[0.0, 0.0, 0.0]);
    assert!(matches!(p.companion_matrix(), Err(polynomial_series::ChebyshevError::DegeneratePolynomial)));
}

#[test]
fn colleague_matrix_of_shifted_t2_has_the_roots_of_the_series() {
    // 0.5 + T2(t) = 2t^2 - 0.5, roots at t = -0.5 and 0.5: the matrix has
    // trace 0 and determinant -0.25.
    let s = 0.5_f64.sqrt();
    let matrix = colleague_matrix(&[0.5, 0.0, 1.0], s);

    assert_close(matrix[0][0] + matrix[1][1], 0.0);
    assert_close(matrix[0][0] * matrix[1][1] - matrix[0][1] * matrix[1][0], -0.25);
}
