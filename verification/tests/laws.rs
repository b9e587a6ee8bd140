use polynomial_series::c_series::CSeries;
use polynomial_series::{ChebyshevSeries, PolynomialApproximation, PolynomialSeries};

#[test]
fn trimming_twice_changes_nothing() {
    let once = CSeries::from(vec![1.0, 0.0, 2.0, 0.0, 0.0]).trimmed();
    let twice = once.clone().trimmed();

    assert_eq!(once, twice);
    assert_eq!(once.as_slice(), &[1.0, 0.0, 2.0]);
}

#[test]
fn constructed_series_ends_in_a_non_zero_coefficient() {
    let p = ChebyshevSeries::new(vec![0.0, 3.0, 0.0, 0.0], -1.0..1.0).unwrap();

    assert_ne!(*p.leading_coefficient().unwrap(), 0.0);
    assert_eq!(p.degree(), 1);
}

#[test]
fn truncating_at_the_degree_keeps_the_series() {
    let p = ChebyshevSeries::new(vec![1.0, -2.0, 0.5], 0.0..3.0).unwrap();

    assert_eq!(p.truncate(2).coefficients(), p.coefficients());
}

#[test]
fn differentiating_past_the_degree_leaves_a_constant() {
    let p = ChebyshevSeries::new(vec![1.0, -2.0, 0.5, 4.0], 0.0..3.0).unwrap();

    assert_eq!(p.derivative(3).degree(), 0);
    assert_eq!(p.derivative(7).len(), 1);
}

#[test]
fn product_has_the_sum_of_the_degrees() {
    let product = CSeries::from(vec![1.0, 2.0]) * CSeries::from(vec![0.0, 1.0, 3.0]);

    assert_eq!(product.len(), 4);
}

#[test]
fn a_clone_trims_to_the_same_series() {
    let series = CSeries::from(vec![1.0, 2.0, 0.0]).trimmed();

    assert_eq!(series.clone().trimmed(), series);
}
