use polynomial_series::c_series::CSeries;
use polynomial_series::z_series::{convolve, ZSeries};

fn c(values: &[f64]) -> CSeries<f64> {
    CSeries::from(values.to_vec())
}

fn assert_coefficients_eq(series: &CSeries<f64>, expected: &[f64]) {
    assert_eq!(series.as_slice(), expected);
}

#[test]
fn zero_is_represented_by_single_zero_coefficient() {
    let series = CSeries::<f64>::zero();

    assert_coefficients_eq(&series, &[0.0]);
    assert_eq!(series.len(), 1);
    assert_eq!(series.degree(), 0);
    assert!(series.is_zero());
}

#[test]
fn degree_is_len_minus_one_for_non_empty_series() {
    assert_eq!(c(&[1.0]).degree(), 0);
    assert_eq!(c(&[1.0, 2.0]).degree(), 1);
    assert_eq!(c(&[1.0, 2.0, 3.0]).degree(), 2);
}

#[test]
fn empty_series_has_degree_zero_by_convention() {
    let series = CSeries::<f64>::from(vec![]);

    assert_eq!(series.degree(), 0);
}

#[test]
fn trimmed_removes_trailing_zeroes() {
    let series = c(&[1.0, 2.0, 0.0, 0.0]).trimmed();

    assert_coefficients_eq(&series, &[1.0, 2.0]);
}

#[test]
fn trimmed_keeps_non_trailing_zeroes() {
    let series = c(&[1.0, 0.0, 3.0, 0.0]).trimmed();

    assert_coefficients_eq(&series, &[1.0, 0.0, 3.0]);
}

#[test]
fn trimmed_all_zero_series_returns_canonical_zero() {
    let series = c(&[0.0, 0.0, 0.0]).trimmed();

    assert_coefficients_eq(&series, &[0.0]);
    assert!(series.is_zero());
}

#[test]
fn trimmed_empty_series_returns_canonical_zero() {
    let series = CSeries::<f64>::from(vec![]).trimmed();

    assert_coefficients_eq(&series, &[0.0]);
}

#[test]
fn scale_mut_scales_all_coefficients() {
    let mut series = c(&[1.0, -2.0, 3.0]);

    series.scale_mut(2.0);

    assert_coefficients_eq(&series, &[2.0, -4.0, 6.0]);
}

#[test]
fn addition_with_equal_lengths_adds_coefficients() {
    let result = c(&[1.0, 2.0, 3.0]) + c(&[4.0, 5.0, 6.0]);

    assert_coefficients_eq(&result, &[5.0, 7.0, 9.0]);
}

#[test]
fn addition_pads_shorter_rhs() {
    let result = c(&[1.0, 2.0, 3.0]) + c(&[4.0]);

    assert_coefficients_eq(&result, &[5.0, 2.0, 3.0]);
}

#[test]
fn addition_pads_shorter_lhs() {
    let result = c(&[4.0]) + c(&[1.0, 2.0, 3.0]);

    assert_coefficients_eq(&result, &[5.0, 2.0, 3.0]);
}

#[test]
fn addition_trims_trailing_zeroes() {
    let result = c(&[1.0, 2.0, 3.0]) + c(&[0.0, 0.0, -3.0]);

    assert_coefficients_eq(&result, &[1.0, 2.0]);
}

#[test]
fn addition_of_opposites_returns_canonical_zero() {
    let result = c(&[1.0, 2.0, 3.0]) + c(&[-1.0, -2.0, -3.0]);

    assert_coefficients_eq(&result, &[0.0]);
    assert!(result.is_zero());
}

#[test]
fn subtraction_with_equal_lengths_subtracts_coefficients() {
    let result = c(&[5.0, 7.0, 9.0]) - c(&[1.0, 2.0, 3.0]);

    assert_coefficients_eq(&result, &[4.0, 5.0, 6.0]);
}

#[test]
fn subtraction_pads_shorter_rhs() {
    let result = c(&[1.0, 2.0, 3.0]) - c(&[4.0]);

    assert_coefficients_eq(&result, &[-3.0, 2.0, 3.0]);
}

#[test]
fn subtraction_pads_shorter_lhs() {
    let result = c(&[4.0]) - c(&[1.0, 2.0, 3.0]);

    assert_coefficients_eq(&result, &[3.0, -2.0, -3.0]);
}

#[test]
fn subtraction_trims_trailing_zeroes() {
    let result = c(&[1.0, 2.0, 3.0]) - c(&[0.0, 0.0, 3.0]);

    assert_coefficients_eq(&result, &[1.0, 2.0]);
}

#[test]
fn subtraction_from_self_returns_canonical_zero() {
    let result = c(&[1.0, 2.0, 3.0]) - c(&[1.0, 2.0, 3.0]);

    assert_coefficients_eq(&result, &[0.0]);
    assert!(result.is_zero());
}

#[test]
fn cseries_to_zseries_constant() {
    let z = ZSeries::from(c(&[4.0]));

    assert_eq!(z.into_vec(), vec![4.0]);
}

#[test]
fn cseries_to_zseries_linear() {
    let z = ZSeries::from(c(&[2.0, 4.0]));

    assert_eq!(z.into_vec(), vec![2.0, 2.0, 2.0]);
}

#[test]
fn zseries_round_trip_constant() {
    let input = c(&[3.0]);
    let round_trip = CSeries::from(ZSeries::from(input.clone()));

    assert_eq!(round_trip, input);
}

#[test]
fn zseries_round_trip_general_series() {
    let input = c(&[1.0, -2.0, 3.5, 0.25]);
    let round_trip = CSeries::from(ZSeries::from(input.clone()));

    assert_eq!(round_trip, input);
}

#[test]
fn multiplication_by_zero_returns_zero() {
    let result = c(&[1.0, 2.0, 3.0]) * CSeries::zero();

    assert_coefficients_eq(&result, &[0.0]);
}

#[test]
fn multiplication_by_one_returns_original() {
    let result = c(&[1.0, -2.0, 3.0]) * c(&[1.0]);

    assert_coefficients_eq(&result, &[1.0, -2.0, 3.0]);
}

#[test]
fn multiplication_of_constants_multiplies_constants() {
    let result = c(&[2.0]) * c(&[3.0]);

    assert_coefficients_eq(&result, &[6.0]);
}

#[test]
fn multiplication_t1_by_t1_uses_chebyshev_identity() {
    let result = c(&[0.0, 1.0]) * c(&[0.0, 1.0]);

    assert_coefficients_eq(&result, &[0.5, 0.0, 0.5]);
}

#[test]
fn multiplication_t1_by_t2_uses_chebyshev_product_identity() {
    let result = c(&[0.0, 1.0]) * c(&[0.0, 0.0, 1.0]);

    assert_coefficients_eq(&result, &[0.0, 0.5, 0.0, 0.5]);
}

#[test]
fn multiplication_t2_by_t2_uses_chebyshev_product_identity() {
    let result = c(&[0.0, 0.0, 1.0]) * c(&[0.0, 0.0, 1.0]);

    assert_coefficients_eq(&result, &[0.5, 0.0, 0.0, 0.0, 0.5]);
}

#[test]
fn multiplication_general_case_matches_known_expansion() {
    let result = c(&[1.0, 2.0, 3.0]) * c(&[4.0, 5.0]);

    assert_coefficients_eq(&result, &[9.0, 20.5, 17.0, 7.5]);
}

#[test]
fn multiplication_trims_trailing_zeroes() {
    let result = c(&[0.0, 1.0]) * c(&[0.0]);

    assert_coefficients_eq(&result, &[0.0]);
}

#[test]
fn multiplication_is_commutative_for_test_case() {
    let lhs = c(&[1.0, 2.0, 3.0]);
    let rhs = c(&[4.0, 5.0]);

    assert_eq!(lhs.clone() * rhs.clone(), rhs * lhs);
}

#[test]
fn multiplication_degree_is_sum_of_degrees_when_leading_terms_do_not_cancel() {
    let lhs = c(&[1.0, 2.0, 3.0]);
    let rhs = c(&[4.0, 5.0]);

    let result = lhs * rhs;

    assert_eq!(result.degree(), 3);
}

#[test]
fn convolve_empty_input_returns_empty_output() {
    let output = convolve::<f64>(&[], &[1.0, 2.0]);

    assert!(output.is_empty());
}

#[test]
fn convolve_singletons_multiplies_values() {
    let output = convolve(&[2.0], &[3.0]);

    assert_eq!(output, vec![6.0]);
}

#[test]
fn convolve_general_vectors() {
    let output = convolve(&[1.0, 2.0, 3.0], &[4.0, 5.0]);

    assert_eq!(output, vec![4.0, 13.0, 22.0, 15.0]);
}

#[test]
fn truncate_keeps_prefix_and_trims() {
    let series = c(&[1.0, 2.0, 0.0, 4.0]).truncate(2);

    assert_coefficients_eq(&series, &[1.0, 2.0]);
}

#[test]
fn trim_by_absolute_tolerance_drops_small_tail() {
    let series = c(&[1.0, 2.0, 1.0e-14, -1.0e-13]).trim_by_absolute_tolerance(-1.0e-12);

    assert_coefficients_eq(&series, &[1.0, 2.0]);
}

#[test]
fn assignment_operators_update_in_place() {
    let mut series = c(&[1.0, 2.0]);
    series += c(&[1.0, -2.0]);
    assert_coefficients_eq(&series, &[2.0]);
    series -= c(&[1.0, 3.0]);
    assert_coefficients_eq(&series, &[1.0, -3.0]);
    series *= c(&[2.0]);
    assert_coefficients_eq(&series, &[2.0, -6.0]);
}

#[test]
fn zseries_accessors_report_contents() {
    let z = ZSeries::from(c(&[2.0, 4.0]));

    assert_eq!(z.len(), 3);
    assert!(!z.is_empty());
    assert_eq!(z.coefficient(1), Some(&2.0));
    assert_eq!(z.coefficient(3), None);
    assert_eq!(z.as_slice(), &[2.0, 2.0, 2.0]);
}

#[test]
fn zseries_product_convolves() {
    let product = ZSeries::new(vec![1.0, 2.0]) * ZSeries::new(vec![3.0, 4.0]);

    assert_eq!(product.into_vec(), vec![3.0, 10.0, 8.0]);
}

#[test]
fn iterators_yield_coefficients_in_order() {
    let series = c(&[1.0, 2.0, 3.0]);

    assert_eq!(series.iter().copied().collect::<Vec<_>>(), vec![1.0, 2.0, 3.0]);
    assert_eq!(series.into_iter().collect::<Vec<_>>(), vec![1.0, 2.0, 3.0]);

    let z = ZSeries::new(vec![4.0, 5.0]);
    assert_eq!(z.iter().copied().collect::<Vec<_>>(), vec![4.0, 5.0]);
    assert_eq!(z.into_iter().collect::<Vec<_>>(), vec![4.0, 5.0]);
}

#[test]
fn mutable_slices_write_through() {
    let mut series = c(&[1.0, 2.0]);
    series.as_mut_slice()[1] = 7.0;
    assert_coefficients_eq(&series, &[1.0, 7.0]);

    let mut z = ZSeries::new(vec![4.0, 5.0]);
    z.as_mut_slice()[0] = -1.0;
    assert_eq!(z.as_slice(), &[-1.0, 5.0]);
}
