use polynomial_series::{ChebyshevSeries, PolynomialEvaluateMany, PolynomialSeries};
use std::ops::Range;

const EPS: f64 = 1.0e-12;

fn assert_close(lhs: f64, rhs: f64) {
    assert!(
        (lhs - rhs).abs() <= EPS,
        "expected {lhs} ≈ {rhs}, difference = {}",
        (lhs - rhs).abs()
    );
}

fn series(coefficients: Vec<f64>, domain: Range<f64>) -> ChebyshevSeries<f64> {
    ChebyshevSeries::new(coefficients, domain).unwrap()
}

#[test]
fn zero_series_has_degree_zero_and_evaluates_to_zero() {
    let p = ChebyshevSeries::<f64>::zero(-1.0..1.0);

    assert_eq!(p.degree(), 0);
    assert!(p.is_zero());
    assert_close(p.evaluate_scaled(-1.0), 0.0);
    assert_close(p.evaluate_scaled(0.0), 0.0);
    assert_close(p.evaluate_scaled(1.0), 0.0);
}

#[test]
fn constant_series_evaluates_to_constant() {
    let p = series(vec![3.5], -1.0..1.0);

    assert_eq!(p.degree(), 0);
    assert_close(p.evaluate_scaled(-1.0), 3.5);
    assert_close(p.evaluate_scaled(0.0), 3.5);
    assert_close(p.evaluate_scaled(1.0), 3.5);
}

#[test]
fn t1_series_evaluates_to_t() {
    let p = series(vec![0.0, 1.0], -1.0..1.0);

    assert_close(p.evaluate_scaled(-1.0), -1.0);
    assert_close(p.evaluate_scaled(-0.25), -0.25);
    assert_close(p.evaluate_scaled(0.0), 0.0);
    assert_close(p.evaluate_scaled(0.75), 0.75);
    assert_close(p.evaluate_scaled(1.0), 1.0);
}

#[test]
fn t2_series_evaluates_to_two_t_squared_minus_one() {
    let p = series(vec![0.0, 0.0, 1.0], -1.0..1.0);

    for t in [-1.0, -0.5, 0.0, 0.5, 1.0] {
        assert_close(p.evaluate_scaled(t), 2.0 * t * t - 1.0);
    }
}

#[test]
fn general_series_evaluates_known_chebyshev_expansion() {
    let p = series(vec![1.0, 2.0, 3.0], -1.0..1.0);

    for t in [-1.0, -0.5, 0.0, 0.5, 1.0] {
        let expected = 6.0 * t * t + 2.0 * t - 2.0;
        assert_close(p.evaluate_scaled(t), expected);
    }
}

#[test]
fn evaluate_maps_physical_domain_to_scaled_domain() {
    let p = series(vec![0.0, 1.0], 10.0..20.0);

    assert_close(p.evaluate(10.0), -1.0);
    assert_close(p.evaluate(15.0), 0.0);
    assert_close(p.evaluate(20.0), 1.0);
}

#[test]
fn derivative_of_constant_is_zero() {
    let p = series(vec![3.0], -1.0..1.0);
    let dp = p.first_derivative();

    assert_eq!(dp.degree(), 0);
    assert!(dp.is_zero());
    assert_close(dp.evaluate(0.0), 0.0);
}

#[test]
fn derivative_of_t1_on_canonical_domain_is_one() {
    let p = series(vec![0.0, 1.0], -1.0..1.0);
    let dp = p.first_derivative();

    assert_eq!(dp.degree(), 0);
    assert_close(dp.evaluate(-1.0), 1.0);
    assert_close(dp.evaluate(0.0), 1.0);
    assert_close(dp.evaluate(1.0), 1.0);
}

#[test]
fn derivative_of_t2_on_canonical_domain_is_four_t() {
    let p = series(vec![0.0, 0.0, 1.0], -1.0..1.0);
    let dp = p.first_derivative();

    assert_eq!(dp.degree(), 1);

    for x in [-1.0, -0.5, 0.0, 0.5, 1.0] {
        assert_close(dp.evaluate(x), 4.0 * x);
    }
}

#[test]
fn derivative_is_with_respect_to_physical_coordinate() {
    let p = series(vec![0.0, 1.0], 10.0..20.0);
    let dp = p.first_derivative();

    assert_eq!(dp.degree(), 0);
    assert_close(dp.evaluate(10.0), 0.2);
    assert_close(dp.evaluate(15.0), 0.2);
    assert_close(dp.evaluate(20.0), 0.2);
}

#[test]
fn derivative_of_t2_respects_physical_domain_scaling() {
    let p = series(vec![0.0, 0.0, 1.0], 10.0..20.0);
    let dp = p.first_derivative();

    assert_eq!(dp.degree(), 1);

    for x in [10.0, 12.5, 15.0, 17.5, 20.0] {
        let t = (x / 5.0) - 3.0;
        assert_close(dp.evaluate(x), 0.8 * t);
    }
}

#[test]
fn second_derivative_uses_repeated_physical_derivatives() {
    let p = series(vec![0.0, 0.0, 1.0], 10.0..20.0);
    let d2p = p.derivative(2);

    assert_eq!(d2p.degree(), 0);

    for x in [10.0, 12.5, 15.0, 17.5, 20.0] {
        assert_close(d2p.evaluate(x), 0.16);
    }
}

#[test]
fn derivative_order_zero_returns_same_series() {
    let p = series(vec![1.0, 2.0, 3.0], -1.0..1.0);
    let dp = p.derivative(0);

    assert_eq!(dp.coefficients(), p.coefficients());
    assert_eq!(dp.domain(), p.domain());
}

#[test]
fn derivative_order_greater_than_degree_returns_zero() {
    let p = series(vec![1.0, 2.0], -1.0..1.0);
    let dp = p.derivative(2);

    assert!(dp.is_zero());
    assert_eq!(dp.degree(), 0);
}

#[test]
fn domain_is_preserved_by_derivative() {
    let p = series(vec![1.0, 2.0, 3.0], 10.0..20.0);
    let dp = p.first_derivative();

    assert_eq!(dp.domain(), 10.0..20.0);
}

#[test]
fn derivative_coefficients_follow_the_recurrence() {
    let p = series(vec![1.0, 2.0, 3.0, 4.0], -1.0..1.0);
    let dp = p.first_derivative();

    assert_eq!(dp.coefficients(), &[14.0, 12.0, 24.0]);
}

#[test]
fn derivatives_compose() {
    let p = series(vec![1.0, 2.0, 3.0, 4.0, 5.0], 0.0..4.0);
    let twice = p.first_derivative().first_derivative();
    let direct = p.derivative(2);

    assert_eq!(twice.coefficients(), direct.coefficients());
}

#[test]
fn evaluate_many_evaluates_each_point() {
    let p = series(vec![0.0, 1.0], 10.0..20.0);
    let values = p.evaluate_many(&[10.0, 15.0, 20.0]);

    assert_eq!(values.len(), 3);
    assert_close(values[0], -1.0);
    assert_close(values[1], 0.0);
    assert_close(values[2], 1.0);

    let scaled = p.evaluate_scaled_many(&[-0.5, 0.5]);
    assert_close(scaled[0], -0.5);
    assert_close(scaled[1], 0.5);
}

#[test]
fn evaluate_equals_evaluate_scaled_at_scaled_image() {
    let p = series(vec![1.0, -2.0, 0.5], 2.0..6.0);

    for x in [2.0, 3.0, 4.5, 6.0] {
        assert_eq!(p.evaluate(x), p.evaluate_scaled(p.to_scaled(x)));
    }
}

#[test]
fn series_operators_combine_on_shared_domain() {
    let p = series(vec![1.0, 2.0], -1.0..1.0);
    let q = series(vec![0.0, 1.0], -1.0..1.0);

    assert_eq!((p.clone() + q.clone()).coefficients(), &[1.0, 3.0]);
    assert_eq!((p.clone() - q.clone()).coefficients(), &[1.0, 1.0]);
    assert_eq!((p.clone() * q.clone()).coefficients(), &[1.0, 1.0, 1.0]);
    assert_eq!((-p.clone()).coefficients(), &[-1.0, -2.0]);
    assert_eq!((p.clone() * 2.0).coefficients(), &[2.0, 4.0]);
    assert_eq!((p / 2.0).coefficients(), &[0.5, 1.0]);
}

#[test]
fn scaling_by_zero_gives_the_zero_series() {
    let q = series(vec![1.0, 2.0, 3.0], -1.0..1.0) * 0.0;

    assert!(q.is_zero());
    assert_eq!(q.coefficients(), &[0.0]);
    assert_eq!(q.degree(), 0);
}
