use polynomial_series::chebyshev::integrate::integrate_chebyshev_coefficients;
use polynomial_series::{ChebyshevSeries, PolynomialIntegrals, PolynomialSeries};
use std::ops::Range;

const EPS: f64 = 1.0e-12;

fn assert_close(lhs: f64, rhs: f64) {
    assert!(
        (lhs - rhs).abs() <= EPS,
        "expected {lhs} ≈ {rhs}, difference = {}",
        (lhs - rhs).abs()
    );
}

fn series(coefficients: Vec<f64>, domain: Range<f64>) -> ChebyshevSeries<f64> {
    ChebyshevSeries::new(coefficients, domain).unwrap()
}

#[test]
fn antiderivative_of_zero_is_zero() {
    let p = ChebyshevSeries::<f64>::zero(-1.0..1.0);
    let integral = p.antiderivative();

    assert!(integral.is_zero());
    assert_eq!(integral.degree(), 0);
}

#[test]
fn antiderivative_of_constant_on_canonical_domain_is_linear() {
    let p = series(vec![2.0], -1.0..1.0);
    let integral = p.antiderivative();

    assert_eq!(integral.degree(), 1);

    for x in [-1.0, -0.5, 0.0, 0.5, 1.0] {
        assert_close(integral.evaluate(x), 2.0 * x);
    }
}

#[test]
fn antiderivative_with_constant_adds_constant_term() {
    let p = series(vec![2.0], -1.0..1.0);
    let integral = p.antiderivative_with_constant(5.0);

    for x in [-1.0, 0.0, 1.0] {
        assert_close(integral.evaluate(x), 2.0 * x + 5.0);
    }
}

#[test]
fn antiderivative_of_t1_round_trips_through_derivative() {
    let p = series(vec![0.0, 1.0], -1.0..1.0);

    let recovered = p.antiderivative().first_derivative();

    for x in [-1.0, -0.75, -0.25, 0.0, 0.25, 0.75, 1.0] {
        assert_close(recovered.evaluate(x), p.evaluate(x));
    }
}

#[test]
fn antiderivative_of_t2_round_trips_through_derivative() {
    let p = series(vec![0.0, 0.0, 1.0], -1.0..1.0);

    let recovered = p.antiderivative().first_derivative();

    for x in [-1.0, -0.75, -0.25, 0.0, 0.25, 0.75, 1.0] {
        assert_close(recovered.evaluate(x), p.evaluate(x));
    }
}

#[test]
fn antiderivative_of_general_series_round_trips_on_canonical_domain() {
    let p = series(vec![1.0, 2.0, 3.0, 4.0], -1.0..1.0);

    let recovered = p.antiderivative().first_derivative();

    for x in [-1.0, -0.75, -0.25, 0.0, 0.25, 0.75, 1.0] {
        assert_close(recovered.evaluate(x), p.evaluate(x));
    }
}

#[test]
fn antiderivative_of_general_series_round_trips_on_physical_domain() {
    let p = series(vec![1.0, 2.0, 3.0, 4.0], 10.0..20.0);

    let recovered = p.antiderivative().first_derivative();

    for x in [10.0, 11.25, 13.75, 15.0, 17.5, 20.0] {
        assert_close(recovered.evaluate(x), p.evaluate(x));
    }
}

#[test]
fn antiderivative_derivative_round_trip_on_canonical_domain() {
    let p = series(vec![1.0, 2.0, 3.0, 4.0], -1.0..1.0);
    let integral = p.antiderivative();
    let recovered = integral.first_derivative();

    for x in [-1.0, -0.75, -0.25, 0.0, 0.5, 1.0] {
        assert_close(recovered.evaluate(x), p.evaluate(x));
    }
}

#[test]
fn antiderivative_derivative_round_trip_on_physical_domain() {
    let p = series(vec![1.0, 2.0, 3.0, 4.0], 10.0..20.0);
    let integral = p.antiderivative();
    let recovered = integral.first_derivative();

    for x in [10.0, 12.5, 15.0, 17.5, 20.0] {
        assert_close(recovered.evaluate(x), p.evaluate(x));
    }
}

#[test]
fn antiderivative_respects_physical_domain_scaling_for_constant() {
    let p = series(vec![2.0], 10.0..20.0);
    let integral = p.antiderivative();

    assert_close(integral.evaluate(10.0), -10.0);
    assert_close(integral.evaluate(15.0), 0.0);
    assert_close(integral.evaluate(20.0), 10.0);

    let derivative = integral.first_derivative();

    for x in [10.0, 15.0, 20.0] {
        assert_close(derivative.evaluate(x), 2.0);
    }
}

#[test]
fn definite_integral_of_constant_over_canonical_domain() {
    let p = series(vec![2.0], -1.0..1.0);

    assert_close(p.definite_integral(-1.0..1.0), 4.0);
}

#[test]
fn definite_integral_of_constant_over_physical_domain() {
    let p = series(vec![2.0], 10.0..20.0);

    assert_close(p.definite_integral(10.0..20.0), 20.0);
}

#[test]
fn definite_integral_of_t1_over_symmetric_domain_is_zero() {
    let p = series(vec![0.0, 1.0], -1.0..1.0);

    assert_close(p.definite_integral(-1.0..1.0), 0.0);
}

#[test]
fn definite_integral_of_t2_over_canonical_domain() {
    let p = series(vec![0.0, 0.0, 1.0], -1.0..1.0);

    assert_close(p.definite_integral(-1.0..1.0), -2.0 / 3.0);
}

#[test]
fn definite_integral_over_subinterval() {
    let p = series(vec![2.0], 10.0..20.0);

    assert_close(p.definite_integral(12.0..18.0), 12.0);
}

#[test]
fn integral_over_domain_uses_full_domain() {
    let p = series(vec![2.0], 10.0..20.0);

    assert_close(p.integral_over_domain(), 20.0);
}

#[test]
fn definite_integral_is_independent_of_antiderivative_constant() {
    let p = series(vec![1.0, 2.0, 3.0], -1.0..1.0);

    let f0 = p.antiderivative();
    let f1 = p.antiderivative_with_constant(100.0);

    let direct = p.definite_integral(-0.5..0.75);
    let via_f0 = f0.evaluate(0.75) - f0.evaluate(-0.5);
    let via_f1 = f1.evaluate(0.75) - f1.evaluate(-0.5);

    assert_close(direct, via_f0);
    assert_close(direct, via_f1);
}

#[test]
fn antiderivative_preserves_domain() {
    let p = series(vec![1.0, 2.0, 3.0], 10.0..20.0);
    let integral = p.antiderivative();

    assert_eq!(integral.domain(), 10.0..20.0);
}

#[test]
fn integration_recurrence_on_scaled_coefficients() {
    let integrated = integrate_chebyshev_coefficients(&[1.0, 2.0, 3.0]);

    assert_eq!(integrated, vec![0.0, -0.5, 0.5, 0.5]);
}
