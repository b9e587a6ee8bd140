//! Least-squares fitting of Chebyshev series to data, with diagnostics.
//!
//! The data are checked, the design matrix of Chebyshev basis values is
//! built, the least-squares problem is solved by `ndarray-linalg`, and the
//! report is assembled from the solution.
use core::ops::Range;
use vstd::prelude::*;
use vstd::std_specs::ops::{AddSpec, SubSpec, MulSpec, DivSpec};
use vstd::std_specs::cmp::{PartialEqSpec, PartialOrdSpec, PartialEqIs, PartialOrdIs};
use num_traits::{Float, FromPrimitive};
use ndarray_linalg::{Lapack, Scalar};
use crate::scalar::{Coefficient, lawful, exact_count, from_count, total_on_finite, lemma_total_order, lemma_min_bound, lemma_max_bound, lemma_squeezed, lemma_ordered_ends, zero, one, nat_value, finite, zero_value, one_value, e_add, e_sub, e_mul, e_div, e_min, e_max, is_finite};
use crate::scaling::{scaled_coordinate, valid_domain, is_valid_domain, to_scaled};
use crate::c_series::{trim_zeros, scaled};
use crate::error::ChebyshevError;
use crate::linalg::{Rows, is_matrix, unrolled_dot, least_squares, matrix_vector, normal_matrix, inverse, scalar_sqrt};
use crate::traits::FitReport;
use super::{ChebyshevSeries, all_finite, builds};

verus! {

/// The Chebyshev polynomial `T_k(t)` by its three-term recurrence
/// `T_k = (1 + 1) t T_{k-1} - T_{k-2}`.
pub open spec fn basis_value<E: Coefficient>(t: E, k: nat) -> E
    decreases k,
{
    if k == 0 {
        one::<E>()
    } else if k == 1 {
        t
    } else {
        one::<E>().add_spec(one::<E>()).mul_spec(t).mul_spec(basis_value(t, (k - 1) as nat)).sub_spec(
            basis_value(t, (k - 2) as nat),
        )
    }
}

/// `T_0(t), ..., T_degree(t)`.
pub open spec fn basis_values<E: Coefficient>(t: E, degree: nat) -> Seq<E> {
    Seq::new(degree + 1, |k: int| basis_value(t, k as nat))
}

/// The rows of the least-squares system of a fit: row `i` holds the basis
/// values at the scaled image of `xs[i]`, multiplied by the observation's
/// scale (the square root of its weight) when there are scales.
pub open spec fn fit_system_rows<E: Coefficient>(xs: Seq<E>, scales: Option<Seq<E>>, degree: nat, domain: Range<E>) -> Seq<Seq<E>> {
    Seq::new(
        xs.len(),
        |i: int|
            match scales {
                None => basis_values(scaled_coordinate(xs[i], domain), degree),
                Some(s) => scaled(basis_values(scaled_coordinate(xs[i], domain), degree), s[i]),
            },
    )
}

/// The right-hand side of the least-squares system of a fit: the ordinates
/// `ys`, each multiplied by its observation's scale when there are scales.
pub open spec fn fit_system_rhs<E: Coefficient>(ys: Seq<E>, scales: Option<Seq<E>>) -> Seq<E> {
    match scales {
        None => ys,
        Some(s) => Seq::new(ys.len(), |i: int| ys[i].mul_spec(s[i])),
    }
}

/// What checking fit data finds, in the order it is checked.
pub open spec fn fit_data_error<E: Coefficient>(xs: Seq<E>, ys: Seq<E>, degree: nat) -> Option<ChebyshevError> {
    if xs.len() == 0 {
        Some(ChebyshevError::EmptyInput)
    } else if xs.len() != ys.len() {
        Some(ChebyshevError::LengthMismatch)
    } else if xs.len() < degree + 1 {
        Some(ChebyshevError::UnderdeterminedFit)
    } else if !all_finite(xs) || !all_finite(ys) {
        Some(ChebyshevError::InvalidData)
    } else {
        None
    }
}

/// A weight is acceptable: finite and not below zero.
pub open spec fn acceptable_weight<E: Coefficient>(w: E) -> bool {
    finite(w) && !w.is_lt(&zero::<E>())
}

/// The residuals `y_i - fitted_i`.
pub open spec fn residuals_of<E: Coefficient>(ys: Seq<E>, fitted: Seq<E>) -> Seq<E> {
    Seq::new(ys.len(), |i: int| ys[i].sub_spec(fitted[i]))
}

/// The sum of squares, added from the first element to the last.
pub open spec fn sum_of_squares<E: Coefficient>(s: Seq<E>) -> E
    decreases s.len(),
{
    if s.len() == 0 {
        zero::<E>()
    } else {
        sum_of_squares(s.drop_last()).add_spec(s.last().mul_spec(s.last()))
    }
}

/// The residual variance: the sum of squares over the degrees of freedom,
/// when there are any.
pub open spec fn variance_of<E: Coefficient>(rss: E, dof: nat) -> Option<E> {
    if dof > 0 {
        Some(rss.div_spec(nat_value::<E>(dof)))
    } else {
        None
    }
}

/// The number of observations less the number of coefficients, or zero.
pub open spec fn dof_of(observations: nat, degree: nat) -> nat {
    if observations > degree + 1 {
        (observations - (degree + 1)) as nat
    } else {
        0
    }
}

/// What holds of every fit report that fitting `ys` at `xs` with `degree`
/// on `domain` returns, whatever the least-squares solution is: the series
/// holds the fitted coefficients, the residuals and their sum of squares
/// follow from the fitted values, and the variance and covariance are there
/// exactly when degrees of freedom remain.
pub open spec fn consistent_report<E: Coefficient>(report: FitReport<E, ChebyshevSeries<E>>, xs: Seq<E>, ys: Seq<E>, degree: nat, domain: Range<E>) -> bool {
    &&& report.series.dom() == domain
    &&& report.coefficients@.len() == degree + 1
    &&& all_finite(report.series.coeffs())
    &&& lawful::<E>() ==> report.series.coeffs() == trim_zeros(report.coefficients@)
    &&& lawful::<E>() ==> all_finite(report.coefficients@)
    &&& report.fitted_values@.len() == xs.len()
    &&& lawful::<E>() ==> forall|i: int| 0 <= i < xs.len() ==> #[trigger] report.fitted_values@[i]
        == unrolled_dot(basis_values(scaled_coordinate(xs[i], domain), degree), report.coefficients@).mul_spec(one::<E>())
    &&& report.residuals@.len() == xs.len()
    &&& lawful::<E>() ==> report.residuals@ == residuals_of(ys, report.fitted_values@)
    &&& lawful::<E>() ==> report.residual_sum_of_squares == sum_of_squares(report.residuals@)
    &&& report.degrees_of_freedom == dof_of(xs.len(), degree)
    &&& report.residual_variance is Some <==> report.degrees_of_freedom > 0
    &&& lawful::<E>() && exact_count(report.degrees_of_freedom as nat) ==> report.residual_variance
        == variance_of(report.residual_sum_of_squares, report.degrees_of_freedom as nat)
    &&& report.covariance is Some <==> report.degrees_of_freedom > 0
    &&& (report.covariance matches Some(c) ==> c@.len() == degree + 1 && is_matrix(c@, degree + 1))
}

/// The errors that can follow the checks: a failed linear-algebra
/// routine, or a fitted coefficient that is not finite.
pub open spec fn numerical_failure(e: ChebyshevError) -> bool {
    e is Linalg || e is InvalidCoefficients
}

/// The basis values `T_0(t), ..., T_degree(t)`.
pub fn chebyshev_basis_values<E: Coefficient>(t: E, degree: usize) -> (r: Vec<E>)
    requires
        degree < usize::MAX,
    ensures
        r@.len() == degree + 1,
        lawful::<E>() ==> r@ == basis_values(t, degree as nat),
{
    let one_e = one_value::<E>();
    let mut values: Vec<E> = Vec::new();
    values.push(one_e);
    if degree == 0 {
        proof {
            if lawful::<E>() {
                assert(values@ =~= basis_values(t, 0));
            }
        }
        return values;
    }
    values.push(t);
    let two_e = e_add(one_e, one_e);
    let mut n: usize = 2;
    while n <= degree
        invariant
            degree < usize::MAX,
            2 <= n <= degree + 1,
            values@.len() == n,
            lawful::<E>() ==> one_e == one::<E>(),
            lawful::<E>() ==> two_e == one::<E>().add_spec(one::<E>()),
            lawful::<E>() ==> forall|k: int| 0 <= k < n ==> #[trigger] values@[k] == basis_value(t, k as nat),
        decreases degree + 1 - n,
    {
        let next = e_sub(e_mul(e_mul(two_e, t), values[n - 1]), values[n - 2]);
        values.push(next);
        n = n + 1;
    }
    proof {
        if lawful::<E>() {
            assert(values@ =~= basis_values(t, degree as nat));
        }
    }
    values
}

/// The design matrix: row `i` holds the basis values at the scaled image
/// of `xs[i]`.
pub fn design_matrix<E: Coefficient>(xs: &[E], degree: usize, domain: &Range<E>) -> (r: Rows<E>)
    requires
        degree < usize::MAX,
    ensures
        r@.len() == xs@.len(),
        is_matrix(r@, (degree + 1) as nat),
        lawful::<E>() ==> forall|i: int| 0 <= i < xs@.len() ==> (#[trigger] r@[i])@ == basis_values(scaled_coordinate(xs@[i], *domain), degree as nat),
{
    let mut matrix: Rows<E> = Vec::new();
    let mut row: usize = 0;
    while row < xs.len()
        invariant
            degree < usize::MAX,
            row <= xs@.len(),
            matrix@.len() == row,
            is_matrix(matrix@, (degree + 1) as nat),
            lawful::<E>() ==> forall|i: int| 0 <= i < row ==> (#[trigger] matrix@[i])@ == basis_values(scaled_coordinate(xs@[i], *domain), degree as nat),
        decreases xs@.len() - row,
    {
        let t = to_scaled(xs[row], domain);
        matrix.push(chebyshev_basis_values(t, degree));
        row = row + 1;
    }
    matrix
}

/// Check fit data: non-empty, of equal lengths, with at least as many
/// points as coefficients, and finite.
pub fn validate_fit_data<E: Coefficient + Float>(xs: &[E], ys: &[E], degree: usize) -> (r: Result<(), ChebyshevError>)
    ensures
        r is Ok ==> degree < usize::MAX,
        r == (match fit_data_error(xs@, ys@, degree as nat) {
            Some(e) => Err(e),
            None => Ok(()),
        }),
{
    if xs.len() == 0 {
        return Err(ChebyshevError::EmptyInput);
    }
    if xs.len() != ys.len() {
        return Err(ChebyshevError::LengthMismatch);
    }
    if xs.len() <= degree {
        return Err(ChebyshevError::UnderdeterminedFit);
    }
    let mut i: usize = 0;
    while i < xs.len()
        invariant
            i <= xs@.len(),
            xs@.len() == ys@.len(),
            xs@.len() > degree,
            forall|j: int| 0 <= j < i ==> finite(#[trigger] xs@[j]),
            forall|j: int| 0 <= j < i ==> finite(#[trigger] ys@[j]),
        decreases xs@.len() - i,
    {
        if !is_finite(xs[i]) || !is_finite(ys[i]) {
            proof {
                assert(!finite(xs@[i as int]) || !finite(ys@[i as int]));
                assert(!all_finite(xs@) || !all_finite(ys@));
            }
            return Err(ChebyshevError::InvalidData);
        }
        i = i + 1;
    }
    Ok(())
}

/// Check weights: one per point, each finite and not below zero.
pub fn validate_weights<E: Coefficient + Float>(xs: &[E], weights: &[E]) -> (r: Result<(), ChebyshevError>)
    ensures
        xs@.len() != weights@.len() ==> r == Err::<(), ChebyshevError>(ChebyshevError::LengthMismatch),
        xs@.len() == weights@.len() ==> (r is Ok || r == Err::<(), ChebyshevError>(ChebyshevError::InvalidWeights)),
        xs@.len() == weights@.len() && !all_finite(weights@) ==> r == Err::<(), ChebyshevError>(ChebyshevError::InvalidWeights),
        lawful::<E>() && xs@.len() == weights@.len() ==> (r is Ok <==> forall|i: int| 0 <= i < weights@.len() ==> acceptable_weight(#[trigger] weights@[i])),
{
    if xs.len() != weights.len() {
        return Err(ChebyshevError::LengthMismatch);
    }
    let z = zero_value::<E>();
    let mut i: usize = 0;
    while i < weights.len()
        invariant
            i <= weights@.len(),
            xs@.len() == weights@.len(),
            lawful::<E>() ==> z == zero::<E>(),
            forall|j: int| 0 <= j < i ==> finite(#[trigger] weights@[j]),
            lawful::<E>() ==> forall|j: int| 0 <= j < i ==> acceptable_weight(#[trigger] weights@[j]),
        decreases weights@.len() - i,
    {
        if !is_finite(weights[i]) || weights[i] < z {
            proof {
                if lawful::<E>() {
                    assert(!acceptable_weight(weights@[i as int]));
                }
            }
            return Err(ChebyshevError::InvalidWeights);
        }
        i = i + 1;
    }
    Ok(())
}

/// Check a fitting domain as `new` checks one.
pub fn validate_domain<E: Coefficient + Float>(domain: &Range<E>) -> (r: Result<(), ChebyshevError>)
    ensures
        r is Ok || r == Err::<(), ChebyshevError>(ChebyshevError::InvalidDomain),
        !finite(domain.start) || !finite(domain.end) ==> r is Err,
        lawful::<E>() ==> (r is Ok <==> valid_domain(*domain)),
{
    if is_valid_domain(domain) {
        Ok(())
    } else {
        Err(ChebyshevError::InvalidDomain)
    }
}

/// Every value compares equal to the first.
pub open spec fn all_equal<E: Coefficient>(xs: Seq<E>) -> bool {
    forall|i: int| 0 <= i < xs.len() ==> (#[trigger] xs[i]).is_eq(&xs[0])
}

/// `domain` runs from a smallest to a largest value of `xs`: no value lies
/// below its start or above its end.
pub open spec fn spans<E: Coefficient>(xs: Seq<E>, domain: Range<E>) -> bool {
    forall|i: int| 0 <= i < xs.len() ==> !(#[trigger] xs[i]).is_lt(&domain.start) && !domain.end.is_lt(&xs[i])
}

/// Of the smallest and largest of finite values: they compare equal
/// exactly when all values do, and otherwise the smallest lies below the
/// largest.
pub proof fn lemma_extremes<E: Coefficient>(xs: Seq<E>, d: Range<E>)
    requires
        total_on_finite::<E>(),
        xs.len() > 0,
        all_finite(xs),
        xs.contains(d.start),
        xs.contains(d.end),
        spans(xs, d),
    ensures
        d.start.is_eq(&d.end) <==> all_equal(xs),
        !d.start.is_eq(&d.end) ==> d.start.is_lt(&d.end),
{
    let lower = d.start;
    let upper = d.end;
    let p = choose|p: int| 0 <= p < xs.len() && xs[p] == lower;
    let q = choose|q: int| 0 <= q < xs.len() && xs[q] == upper;
    assert(finite(xs[p]) && finite(xs[q]) && finite(xs[0]));
    assert(!xs[0].is_lt(&lower) && !upper.is_lt(&xs[0]));
    if lower.is_eq(&upper) {
        assert forall|i: int| 0 <= i < xs.len() implies (#[trigger] xs[i]).is_eq(&xs[0]) by {
            assert(finite(xs[i]));
            assert(!xs[i].is_lt(&lower) && !upper.is_lt(&xs[i]));
            lemma_squeezed(xs[i], lower, upper);
            lemma_squeezed(xs[0], lower, upper);
            lemma_total_order(xs[i], lower, xs[0]);
        }
    } else {
        lemma_ordered_ends(lower, xs[0], upper);
        if all_equal(xs) {
            assert(xs[p].is_eq(&xs[0]) && xs[q].is_eq(&xs[0]));
            lemma_total_order(upper, xs[0], lower);
            lemma_total_order(lower, xs[0], upper);
        }
    }
}

/// The domain spanned by the data: from the smallest to the largest `x`.
pub fn fitting_domain<E: Coefficient + Float>(xs: &[E]) -> (r: Result<Range<E>, ChebyshevError>)
    ensures
        xs@.len() == 0 ==> r == Err::<Range<E>, ChebyshevError>(ChebyshevError::EmptyInput),
        xs@.len() > 0 && !all_finite(xs@) ==> r == Err::<Range<E>, ChebyshevError>(ChebyshevError::InvalidData),
        xs@.len() > 0 && all_finite(xs@) ==> (r is Ok || r == Err::<Range<E>, ChebyshevError>(ChebyshevError::InvalidDomain)),
        lawful::<E>() && total_on_finite::<E>() && xs@.len() > 0 && all_finite(xs@) ==> (r
            == Err::<Range<E>, ChebyshevError>(ChebyshevError::InvalidDomain) <==> all_equal(xs@)),
        r matches Ok(d) ==> xs@.contains(d.start) && xs@.contains(d.end) && all_finite(xs@),
        r matches Ok(d) ==> lawful::<E>() ==> !d.start.is_eq(&d.end),
        r matches Ok(d) ==> lawful::<E>() && total_on_finite::<E>() ==> spans(xs@, d) && d.start.is_lt(&d.end),
{
    if xs.len() == 0 {
        return Err(ChebyshevError::EmptyInput);
    }
    let mut i: usize = 0;
    while i < xs.len()
        invariant
            i <= xs@.len(),
            forall|j: int| 0 <= j < i ==> finite(#[trigger] xs@[j]),
        decreases xs@.len() - i,
    {
        if !is_finite(xs[i]) {
            return Err(ChebyshevError::InvalidData);
        }
        i = i + 1;
    }
    let mut lower = xs[0];
    let mut upper = xs[0];
    proof {
        if lawful::<E>() && total_on_finite::<E>() {
            lemma_total_order(xs@[0], xs@[0], xs@[0]);
        }
    }
    let mut i: usize = 1;
    while i < xs.len()
        invariant
            1 <= i <= xs@.len(),
            all_finite(xs@),
            xs@.contains(lower),
            xs@.contains(upper),
            finite(lower),
            finite(upper),
            lawful::<E>() && total_on_finite::<E>() ==> forall|j: int| 0 <= j < i ==> !(#[trigger] xs@[j]).is_lt(&lower) && !upper.is_lt(&xs@[j]),
        decreases xs@.len() - i,
    {
        let x = xs[i];
        let next_lower = e_min(lower, x);
        let next_upper = e_max(upper, x);
        proof {
            assert(finite(x));
            if lawful::<E>() && total_on_finite::<E>() {
                assert forall|j: int| 0 <= j < i + 1 implies !(#[trigger] xs@[j]).is_lt(&next_lower) && !next_upper.is_lt(&xs@[j]) by {
                    assert(finite(xs@[j]));
                    if j < i {
                        lemma_min_bound(xs@[j], lower, x, next_lower);
                        lemma_max_bound(xs@[j], upper, x, next_upper);
                    } else {
                        assert(finite(xs@[0]));
                        lemma_min_bound(xs@[0], lower, x, next_lower);
                        lemma_max_bound(xs@[0], upper, x, next_upper);
                    }
                }
            }
        }
        lower = next_lower;
        upper = next_upper;
        i = i + 1;
    }
    let domain = Range { start: lower, end: upper };
    proof {
        if lawful::<E>() && total_on_finite::<E>() {
            lemma_extremes(xs@, domain);
        }
    }
    if lower == upper {
        return Err(ChebyshevError::InvalidDomain);
    }
    Ok(domain)
}

/// The residuals `y_i - fitted_i`.
pub fn residuals<E: Coefficient>(ys: &[E], fitted: &Vec<E>) -> (r: Vec<E>)
    requires
        fitted@.len() == ys@.len(),
    ensures
        r@.len() == ys@.len(),
        lawful::<E>() ==> r@ == residuals_of(ys@, fitted@),
{
    let mut result: Vec<E> = Vec::new();
    let mut i: usize = 0;
    while i < ys.len()
        invariant
            i <= ys@.len(),
            fitted@.len() == ys@.len(),
            result@.len() == i,
            lawful::<E>() ==> forall|j: int| 0 <= j < i ==> #[trigger] result@[j] == residuals_of(ys@, fitted@)[j],
        decreases ys@.len() - i,
    {
        result.push(e_sub(ys[i], fitted[i]));
        i = i + 1;
    }
    proof {
        if lawful::<E>() {
            assert(result@ =~= residuals_of(ys@, fitted@));
        }
    }
    result
}

/// The sum of the squared values, added in order.
pub fn residual_sum_of_squares<E: Coefficient>(values: &Vec<E>) -> (r: E)
    ensures
        lawful::<E>() ==> r == sum_of_squares(values@),
{
    let mut sum = zero_value::<E>();
    let mut i: usize = 0;
    while i < values.len()
        invariant
            i <= values@.len(),
            lawful::<E>() ==> sum == sum_of_squares(values@.take(i as int)),
        decreases values@.len() - i,
    {
        proof {
            assert(values@.take(i + 1).drop_last() =~= values@.take(i as int));
        }
        sum = e_add(sum, e_mul(values[i], values[i]));
        i = i + 1;
    }
    proof {
        assert(values@.take(values@.len() as int) =~= values@);
    }
    sum
}

/// The residual variance for `dof` degrees of freedom, none for zero.
pub fn residual_variance<E: Coefficient + FromPrimitive>(rss: E, dof: usize) -> (r: Option<E>)
    ensures
        r is Some <==> dof > 0,
        lawful::<E>() && exact_count(dof as nat) ==> r == variance_of(rss, dof as nat),
{
    if dof == 0 {
        return None;
    }
    match from_count::<E>(dof) {
        Some(count) => Some(e_div(rss, count)),
        None => None,
    }
}

/// Every entry of a matrix multiplied by `factor`.
pub fn scale_matrix<E: Coefficient>(matrix: Rows<E>, factor: E) -> (r: Rows<E>)
    ensures
        r@.len() == matrix@.len(),
        forall|i: int| 0 <= i < r@.len() ==> (#[trigger] r@[i])@.len() == matrix@[i]@.len(),
        lawful::<E>() ==> forall|i: int| 0 <= i < r@.len() ==> (#[trigger] r@[i])@ == scaled(matrix@[i]@, factor),
{
    let mut result: Rows<E> = Vec::new();
    let mut i: usize = 0;
    while i < matrix.len()
        invariant
            i <= matrix@.len(),
            result@.len() == i,
            forall|j: int| 0 <= j < i ==> (#[trigger] result@[j])@.len() == matrix@[j]@.len(),
            lawful::<E>() ==> forall|j: int| 0 <= j < i ==> (#[trigger] result@[j])@ == scaled(matrix@[j]@, factor),
        decreases matrix@.len() - i,
    {
        let source = &matrix[i];
        let mut row: Vec<E> = Vec::new();
        let mut j: usize = 0;
        while j < source.len()
            invariant
                j <= source@.len(),
                row@.len() == j,
                lawful::<E>() ==> forall|k: int| 0 <= k < j ==> #[trigger] row@[k] == source@[k].mul_spec(factor),
            decreases source@.len() - j,
        {
            row.push(e_mul(source[j], factor));
            j = j + 1;
        }
        proof {
            if lawful::<E>() {
                assert(row@ =~= scaled(source@, factor));
            }
        }
        result.push(row);
        i = i + 1;
    }
    result
}

/// Each row of the design and each right-hand side entry multiplied by
/// the scale of its observation.
pub fn weight_rows<E: Coefficient>(design: &Rows<E>, rhs: &[E], scales: &Vec<E>) -> (r: (Rows<E>, Vec<E>))
    requires
        rhs@.len() == design@.len(),
        scales@.len() == design@.len(),
    ensures
        r.0@.len() == design@.len(),
        forall|i: int| 0 <= i < design@.len() ==> (#[trigger] r.0@[i])@.len() == design@[i]@.len(),
        r.1@.len() == rhs@.len(),
        lawful::<E>() ==> forall|i: int| 0 <= i < design@.len() ==> (#[trigger] r.0@[i])@ == scaled(design@[i]@, scales@[i]),
        lawful::<E>() ==> r.1@ == Seq::new(rhs@.len(), |i: int| rhs@[i].mul_spec(scales@[i])),
{
    let mut rows: Rows<E> = Vec::new();
    let mut values: Vec<E> = Vec::new();
    let mut i: usize = 0;
    while i < design.len()
        invariant
            i <= design@.len(),
            rhs@.len() == design@.len(),
            scales@.len() == design@.len(),
            rows@.len() == i,
            values@.len() == i,
            forall|j: int| 0 <= j < i ==> (#[trigger] rows@[j])@.len() == design@[j]@.len(),
            lawful::<E>() ==> forall|j: int| 0 <= j < i ==> (#[trigger] rows@[j])@ == scaled(design@[j]@, scales@[j]),
            lawful::<E>() ==> forall|j: int| 0 <= j < i ==> #[trigger] values@[j] == rhs@[j].mul_spec(scales@[j]),
        decreases design@.len() - i,
    {
        let source = &design[i];
        let scale = scales[i];
        let mut row: Vec<E> = Vec::new();
        let mut j: usize = 0;
        while j < source.len()
            invariant
                j <= source@.len(),
                row@.len() == j,
                lawful::<E>() ==> forall|k: int| 0 <= k < j ==> #[trigger] row@[k] == source@[k].mul_spec(scale),
            decreases source@.len() - j,
        {
            row.push(e_mul(source[j], scale));
            j = j + 1;
        }
        proof {
            if lawful::<E>() {
                assert(row@ =~= scaled(source@, scale));
            }
        }
        rows.push(row);
        values.push(e_mul(rhs[i], scale));
        i = i + 1;
    }
    proof {
        if lawful::<E>() {
            assert(values@ =~= Seq::new(rhs@.len(), |i: int| rhs@[i].mul_spec(scales@[i])));
        }
    }
    (rows, values)
}

/// A copy of a matrix, row by row.
pub fn copy_rows<E: Copy>(matrix: &Rows<E>) -> (r: Rows<E>)
    ensures
        r@.len() == matrix@.len(),
        forall|i: int| 0 <= i < r@.len() ==> (#[trigger] r@[i])@ == matrix@[i]@,
{
    let mut result: Rows<E> = Vec::new();
    let mut i: usize = 0;
    while i < matrix.len()
        invariant
            i <= matrix@.len(),
            result@.len() == i,
            forall|j: int| 0 <= j < i ==> (#[trigger] result@[j])@ == matrix@[j]@,
        decreases matrix@.len() - i,
    {
        let source = &matrix[i];
        let mut row: Vec<E> = Vec::new();
        let mut j: usize = 0;
        while j < source.len()
            invariant
                j <= source@.len(),
                row@ =~= source@.take(j as int),
            decreases source@.len() - j,
        {
            row.push(source[j]);
            j = j + 1;
        }
        proof {
            assert(source@.take(source@.len() as int) =~= source@);
        }
        result.push(row);
        i = i + 1;
    }
    result
}

/// A copy of a slice.
pub fn copy_values<E: Copy>(values: &[E]) -> (r: Vec<E>)
    ensures
        r@ == values@,
{
    let mut result: Vec<E> = Vec::new();
    let mut i: usize = 0;
    while i < values.len()
        invariant
            i <= values@.len(),
            result@ =~= values@.take(i as int),
        decreases values@.len() - i,
    {
        result.push(values[i]);
        i = i + 1;
    }
    proof {
        assert(values@.take(values@.len() as int) =~= values@);
    }
    result
}

/// What fitting on a given domain returns: the first failed check of the
/// data, then of the domain; past them, a report consistent with the data,
/// or a numerical failure.
pub open spec fn fit_outcome<E: Coefficient>(r: Result<FitReport<E, ChebyshevSeries<E>>, ChebyshevError>, xs: Seq<E>, ys: Seq<E>, degree: nat, domain: Range<E>) -> bool {
    &&& (fit_data_error(xs, ys, degree) matches Some(e) ==> r == Err::<FitReport<E, ChebyshevSeries<E>>, ChebyshevError>(e))
    &&& (fit_data_error(xs, ys, degree) is None && (!finite(domain.start) || !finite(domain.end)) ==> r == Err::<FitReport<E, ChebyshevSeries<E>>, ChebyshevError>(ChebyshevError::InvalidDomain))
    &&& (lawful::<E>() && fit_data_error(xs, ys, degree) is None ==> (r == Err::<FitReport<E, ChebyshevSeries<E>>, ChebyshevError>(ChebyshevError::InvalidDomain) <==> !valid_domain(domain)))
    &&& (r matches Ok(report) ==> consistent_report(report, xs, ys, degree, domain))
    &&& (r matches Err(e) ==> fit_data_error(xs, ys, degree) is None && valid_domain(domain) ==> numerical_failure(e) || !lawful::<E>())
}

/// The weights' checks pass: one per point, each finite and (for a lawful
/// type) not below zero.
pub open spec fn weights_accepted<E: Coefficient>(xs: Seq<E>, weights: Seq<E>) -> bool {
    &&& xs.len() == weights.len()
    &&& all_finite(weights)
    &&& lawful::<E>() ==> forall|i: int| 0 <= i < weights.len() ==> acceptable_weight(#[trigger] weights[i])
}

/// Assemble the report of a least-squares fit from what the linear algebra
/// gave: the series built from the solution, the solution itself, the
/// fitted values, and the inverse of the normal matrix when degrees of
/// freedom remain.  Residuals, their sum of squares, the degrees of freedom,
/// the residual variance and the covariance (the inverse scaled by the
/// variance) follow from these.
pub fn assemble_fit_report<E: Coefficient + FromPrimitive>(
    ys: &[E],
    degree: usize,
    series: ChebyshevSeries<E>,
    coefficients: Vec<E>,
    fitted_values: Vec<E>,
    inverse_normal: Option<Rows<E>>,
) -> (r: FitReport<E, ChebyshevSeries<E>>)
    requires
        fitted_values@.len() == ys@.len(),
        inverse_normal is Some <==> dof_of(ys@.len(), degree as nat) > 0,
    ensures
        r.series == series,
        r.coefficients == coefficients,
        r.fitted_values == fitted_values,
        r.residuals@.len() == ys@.len(),
        lawful::<E>() ==> r.residuals@ == residuals_of(ys@, fitted_values@),
        lawful::<E>() ==> r.residual_sum_of_squares == sum_of_squares(r.residuals@),
        r.degrees_of_freedom == dof_of(ys@.len(), degree as nat),
        r.residual_variance is Some <==> r.degrees_of_freedom > 0,
        lawful::<E>() && exact_count(r.degrees_of_freedom as nat) ==> r.residual_variance
            == variance_of(r.residual_sum_of_squares, r.degrees_of_freedom as nat),
        r.covariance is Some <==> inverse_normal is Some,
        r.covariance matches Some(c) ==> inverse_normal matches Some(m) && c@.len() == m@.len()
            && (forall|i: int| 0 <= i < c@.len() ==> (#[trigger] c@[i])@.len() == m@[i]@.len())
            && (lawful::<E>() ==> forall|i: int| 0 <= i < c@.len() ==> (#[trigger] c@[i])@ == scaled(m@[i]@, r.residual_variance->0)),
{
    let residuals = residuals(ys, &fitted_values);
    let rss = residual_sum_of_squares(&residuals);
    let degrees_of_freedom = ys.len().saturating_sub(degree.saturating_add(1));
    let variance = residual_variance(rss, degrees_of_freedom);
    let covariance = match (variance, inverse_normal) {
        (Some(v), Some(inverse)) => Some(scale_matrix(inverse, v)),
        _ => None,
    };
    FitReport {
        series,
        coefficients,
        covariance,
        fitted_values,
        residuals,
        degrees_of_freedom,
        residual_sum_of_squares: rss,
        residual_variance: variance,
    }
}

impl<E> ChebyshevSeries<E> where E: Coefficient + Float + FromPrimitive + Scalar + Lapack {
    /// The report for a least-squares solution `coefficients`: the series
    /// built from them on `domain` (the coefficient error exactly when one is
    /// not finite), the fitted values from the unweighted design, and the
    /// covariance from the fitted design when degrees of freedom remain.
    pub fn report_from_solution(
        xs: &[E],
        ys: &[E],
        degree: usize,
        domain: Range<E>,
        unweighted_design: &Rows<E>,
        fitted_design: &Rows<E>,
        coefficients: Vec<E>,
    ) -> (r: Result<FitReport<E, Self>, ChebyshevError>)
        requires
            xs@.len() == ys@.len(),
            xs@.len() > degree,
            coefficients@.len() == degree + 1,
            unweighted_design@.len() == xs@.len(),
            fitted_design@.len() == xs@.len(),
            lawful::<E>() ==> forall|i: int| 0 <= i < xs@.len() ==> (#[trigger] unweighted_design@[i])@
                == basis_values(scaled_coordinate(xs@[i], domain), degree as nat),
            is_matrix(unweighted_design@, (degree + 1) as nat),
            is_matrix(fitted_design@, (degree + 1) as nat),
        ensures
            r matches Err(e) ==> e is InvalidCoefficients || e is Linalg || e is InvalidDomain,
            !finite(domain.start) || !finite(domain.end) ==> r matches Err(ChebyshevError::InvalidDomain),
            lawful::<E>() ==> (r matches Err(ChebyshevError::InvalidDomain) <==> !valid_domain(domain)),
            lawful::<E>() ==> (r matches Err(ChebyshevError::InvalidCoefficients) <==> valid_domain(domain)
                && !all_finite(coefficients@)),
            r matches Ok(report) ==> report.coefficients@ == coefficients@ && consistent_report(report, xs@, ys@, degree as nat, domain),
    {
        let n = xs.len();
        let cols = degree + 1;
        let series = match Self::from_vec(copy_values(coefficients.as_slice()), domain) {
            Ok(s) => s,
            Err(e) => return Err(e),
        };
        let fitted_values = match matrix_vector(unweighted_design, cols, &coefficients) {
            Ok(v) => v,
            Err(e) => return Err(ChebyshevError::Linalg(e)),
        };
        let inverse_normal = if n > cols {
            let normal = match normal_matrix(fitted_design, cols) {
                Ok(m) => m,
                Err(e) => return Err(ChebyshevError::Linalg(e)),
            };
            match inverse(&normal) {
                Ok(m) => Some(m),
                Err(e) => return Err(ChebyshevError::Linalg(e)),
            }
        } else {
            None
        };
        Ok(assemble_fit_report(ys, degree, series, coefficients, fitted_values, inverse_normal))
    }

    /// Solve the (possibly weighted) least-squares problem and assemble the
    /// report from its solution: the system handed to the solver is the
    /// fit's own, its rows the (scaled) basis values at the abscissae and
    /// its right-hand side the (scaled) ordinates.
    fn fit_report_from_design(
        xs: &[E],
        ys: &[E],
        degree: usize,
        domain: Range<E>,
        unweighted_design: Rows<E>,
        fitted_design: Rows<E>,
        fitted_rhs: Vec<E>,
        Ghost(scales): Ghost<Option<Seq<E>>>,
    ) -> (r: Result<FitReport<E, Self>, ChebyshevError>)
        requires
            scales matches Some(s) ==> s.len() == xs@.len(),
            lawful::<E>() ==> forall|i: int| 0 <= i < xs@.len() ==> (#[trigger] fitted_design@[i])@
                == fit_system_rows(xs@, scales, degree as nat, domain)[i],
            lawful::<E>() ==> fitted_rhs@ == fit_system_rhs(ys@, scales),
            degree < usize::MAX,
            xs@.len() == ys@.len(),
            xs@.len() > degree,
            unweighted_design@.len() == xs@.len(),
            fitted_design@.len() == xs@.len(),
            lawful::<E>() ==> forall|i: int| 0 <= i < xs@.len() ==> (#[trigger] unweighted_design@[i])@
                == basis_values(scaled_coordinate(xs@[i], domain), degree as nat),
            is_matrix(unweighted_design@, (degree + 1) as nat),
            is_matrix(fitted_design@, (degree + 1) as nat),
        ensures
            r matches Ok(report) ==> consistent_report(report, xs@, ys@, degree as nat, domain),
            r matches Err(e) ==> valid_domain(domain) ==> numerical_failure(e) || !lawful::<E>(),
    {
        let cols = degree + 1;
        let coefficients = match least_squares(&fitted_design, cols, &fitted_rhs) {
            Ok(c) => c,
            Err(e) => return Err(ChebyshevError::Linalg(e)),
        };
        Self::report_from_solution(xs, ys, degree, domain, &unweighted_design, &fitted_design, coefficients)
    }

    /// Fit on a given domain and return diagnostics.
    pub fn fit_report_on_domain(xs: &[E], ys: &[E], degree: usize, domain: Range<E>) -> (r: Result<FitReport<E, Self>, ChebyshevError>)
        ensures
            fit_outcome(r, xs@, ys@, degree as nat, domain),
    {
        validate_fit_data(xs, ys, degree)?;
        validate_domain(&domain)?;
        let design = design_matrix(xs, degree, &domain);
        let rhs = copy_values(ys);
        Self::fit_report_from_design(xs, ys, degree, domain, copy_rows(&design), design, rhs, Ghost(None))
    }

    /// Fit with weights on a given domain and return diagnostics: each
    /// observation's row and value are multiplied by the square root of its
    /// weight.
    pub fn fit_weighted_report_on_domain(xs: &[E], ys: &[E], weights: &[E], degree: usize, domain: Range<E>) -> (r: Result<FitReport<E, Self>, ChebyshevError>)
        ensures
            fit_data_error(xs@, ys@, degree as nat) matches Some(e) ==> r == Err::<FitReport<E, Self>, ChebyshevError>(e),
            fit_data_error(xs@, ys@, degree as nat) is None && xs@.len() != weights@.len() ==> r == Err::<FitReport<E, Self>, ChebyshevError>(ChebyshevError::LengthMismatch),
            fit_data_error(xs@, ys@, degree as nat) is None && xs@.len() == weights@.len() && !all_finite(weights@) ==> r == Err::<FitReport<E, Self>, ChebyshevError>(ChebyshevError::InvalidWeights),
            lawful::<E>() && fit_data_error(xs@, ys@, degree as nat) is None && xs@.len() == weights@.len() ==> (r == Err::<FitReport<E, Self>, ChebyshevError>(ChebyshevError::InvalidWeights) <==> !weights_accepted(xs@, weights@)),
            lawful::<E>() && fit_data_error(xs@, ys@, degree as nat) is None && weights_accepted(xs@, weights@) && (!finite(domain.start) || !finite(domain.end)) ==> r == Err::<FitReport<E, Self>, ChebyshevError>(ChebyshevError::InvalidDomain),
            lawful::<E>() && fit_data_error(xs@, ys@, degree as nat) is None && weights_accepted(xs@, weights@) ==> (r == Err::<FitReport<E, Self>, ChebyshevError>(ChebyshevError::InvalidDomain) <==> !valid_domain(domain)),
            r matches Ok(report) ==> consistent_report(report, xs@, ys@, degree as nat, domain),
            r matches Err(e) ==> fit_data_error(xs@, ys@, degree as nat) is None && weights_accepted(xs@, weights@) && valid_domain(domain) ==> numerical_failure(e) || !lawful::<E>(),
    {
        validate_fit_data(xs, ys, degree)?;
        validate_weights(xs, weights)?;
        validate_domain(&domain)?;
        let unweighted_design = design_matrix(xs, degree, &domain);
        let mut scales: Vec<E> = Vec::new();
        let mut i: usize = 0;
        while i < weights.len()
            invariant
                i <= weights@.len(),
                scales@.len() == i,
            decreases weights@.len() - i,
        {
            scales.push(scalar_sqrt(weights[i]));
            i = i + 1;
        }
        let (weighted_design, weighted_rhs) = weight_rows(&unweighted_design, ys, &scales);
        Self::fit_report_from_design(xs, ys, degree, domain, unweighted_design, weighted_design, weighted_rhs, Ghost(Some(scales@)))
    }

    /// Fit on the domain spanned by the data and return diagnostics.
    pub fn fit_report(xs: &[E], ys: &[E], degree: usize) -> (r: Result<FitReport<E, Self>, ChebyshevError>)
        ensures
            xs@.len() == 0 ==> r == Err::<FitReport<E, Self>, ChebyshevError>(ChebyshevError::EmptyInput),
            xs@.len() > 0 && !all_finite(xs@) ==> r == Err::<FitReport<E, Self>, ChebyshevError>(ChebyshevError::InvalidData),
            xs@.len() > 0 && all_finite(xs@) && !(r == Err::<FitReport<E, Self>, ChebyshevError>(ChebyshevError::InvalidDomain)) ==> (
                fit_data_error(xs@, ys@, degree as nat) matches Some(e) ==> r == Err::<FitReport<E, Self>, ChebyshevError>(e)),
            lawful::<E>() && total_on_finite::<E>() && xs@.len() > 0 && all_finite(xs@) ==> (r
                == Err::<FitReport<E, Self>, ChebyshevError>(ChebyshevError::InvalidDomain) <==> all_equal(xs@)),
            r matches Ok(report) ==> consistent_report(report, xs@, ys@, degree as nat, report.series.dom())
                && xs@.contains(report.series.dom().start) && xs@.contains(report.series.dom().end),
            r matches Ok(report) ==> lawful::<E>() && total_on_finite::<E>() ==> spans(xs@, report.series.dom())
                && report.series.dom().start.is_lt(&report.series.dom().end),
    {
        let domain = fitting_domain(xs)?;
        Self::fit_report_on_domain(xs, ys, degree, domain)
    }

    /// Fit with weights on the domain spanned by the data and return
    /// diagnostics.
    pub fn fit_weighted_report(xs: &[E], ys: &[E], weights: &[E], degree: usize) -> (r: Result<FitReport<E, Self>, ChebyshevError>)
        ensures
            xs@.len() == 0 ==> r == Err::<FitReport<E, Self>, ChebyshevError>(ChebyshevError::EmptyInput),
            xs@.len() > 0 && !all_finite(xs@) ==> r == Err::<FitReport<E, Self>, ChebyshevError>(ChebyshevError::InvalidData),
            xs@.len() > 0 && all_finite(xs@) && !(r == Err::<FitReport<E, Self>, ChebyshevError>(ChebyshevError::InvalidDomain)) ==> (
                fit_data_error(xs@, ys@, degree as nat) matches Some(e) ==> r == Err::<FitReport<E, Self>, ChebyshevError>(e)),
            lawful::<E>() && total_on_finite::<E>() && xs@.len() > 0 && all_finite(xs@) ==> (r
                == Err::<FitReport<E, Self>, ChebyshevError>(ChebyshevError::InvalidDomain) <==> all_equal(xs@)),
            r matches Ok(report) ==> consistent_report(report, xs@, ys@, degree as nat, report.series.dom())
                && xs@.contains(report.series.dom().start) && xs@.contains(report.series.dom().end),
            r matches Ok(report) ==> lawful::<E>() && total_on_finite::<E>() ==> spans(xs@, report.series.dom())
                && report.series.dom().start.is_lt(&report.series.dom().end),
    {
        let domain = fitting_domain(xs)?;
        Self::fit_weighted_report_on_domain(xs, ys, weights, degree, domain)
    }

    /// Fit on the domain spanned by the data and return the series.
    pub fn fit(xs: &[E], ys: &[E], degree: usize) -> (r: Result<Self, ChebyshevError>)
        ensures
            xs@.len() == 0 ==> r == Err::<Self, ChebyshevError>(ChebyshevError::EmptyInput),
            xs@.len() > 0 && !all_finite(xs@) ==> r == Err::<Self, ChebyshevError>(ChebyshevError::InvalidData),
            xs@.len() > 0 && all_finite(xs@) && !(r == Err::<Self, ChebyshevError>(ChebyshevError::InvalidDomain)) ==> (
                fit_data_error(xs@, ys@, degree as nat) matches Some(e) ==> r == Err::<Self, ChebyshevError>(e)),
            lawful::<E>() && total_on_finite::<E>() && xs@.len() > 0 && all_finite(xs@) ==> (r
                == Err::<Self, ChebyshevError>(ChebyshevError::InvalidDomain) <==> all_equal(xs@)),
            r matches Ok(s) ==> all_finite(s.coeffs()) && xs@.contains(s.dom().start) && xs@.contains(s.dom().end),
            r matches Ok(s) ==> lawful::<E>() && total_on_finite::<E>() ==> spans(xs@, s.dom()) && s.dom().start.is_lt(&s.dom().end),
    {
        let report = Self::fit_report(xs, ys, degree)?;
        Ok(report.series)
    }

    /// Fit with weights on the domain spanned by the data and return the
    /// series.
    pub fn fit_weighted(xs: &[E], ys: &[E], weights: &[E], degree: usize) -> (r: Result<Self, ChebyshevError>)
        ensures
            xs@.len() == 0 ==> r == Err::<Self, ChebyshevError>(ChebyshevError::EmptyInput),
            xs@.len() > 0 && !all_finite(xs@) ==> r == Err::<Self, ChebyshevError>(ChebyshevError::InvalidData),
            xs@.len() > 0 && all_finite(xs@) && !(r == Err::<Self, ChebyshevError>(ChebyshevError::InvalidDomain)) ==> (
                fit_data_error(xs@, ys@, degree as nat) matches Some(e) ==> r == Err::<Self, ChebyshevError>(e)),
            lawful::<E>() && total_on_finite::<E>() && xs@.len() > 0 && all_finite(xs@) ==> (r
                == Err::<Self, ChebyshevError>(ChebyshevError::InvalidDomain) <==> all_equal(xs@)),
            r matches Ok(s) ==> all_finite(s.coeffs()) && xs@.contains(s.dom().start) && xs@.contains(s.dom().end),
            r matches Ok(s) ==> lawful::<E>() && total_on_finite::<E>() ==> spans(xs@, s.dom()) && s.dom().start.is_lt(&s.dom().end),
    {
        let report = Self::fit_weighted_report(xs, ys, weights, degree)?;
        Ok(report.series)
    }

    /// Fit on a given domain and return the series.
    pub fn fit_on_domain(xs: &[E], ys: &[E], degree: usize, domain: Range<E>) -> (r: Result<Self, ChebyshevError>)
        ensures
            fit_data_error(xs@, ys@, degree as nat) matches Some(e) ==> r == Err::<Self, ChebyshevError>(e),
            fit_data_error(xs@, ys@, degree as nat) is None && (!finite(domain.start) || !finite(domain.end)) ==> r == Err::<Self, ChebyshevError>(ChebyshevError::InvalidDomain),
            lawful::<E>() && fit_data_error(xs@, ys@, degree as nat) is None ==> (r == Err::<Self, ChebyshevError>(ChebyshevError::InvalidDomain) <==> !valid_domain(domain)),
            r matches Ok(s) ==> s.dom() == domain && all_finite(s.coeffs()),
    {
        let report = Self::fit_report_on_domain(xs, ys, degree, domain)?;
        Ok(report.series)
    }

    /// Fit with weights on a given domain and return the series.
    pub fn fit_weighted_on_domain(xs: &[E], ys: &[E], weights: &[E], degree: usize, domain: Range<E>) -> (r: Result<Self, ChebyshevError>)
        ensures
            fit_data_error(xs@, ys@, degree as nat) matches Some(e) ==> r == Err::<Self, ChebyshevError>(e),
            fit_data_error(xs@, ys@, degree as nat) is None && xs@.len() != weights@.len() ==> r == Err::<Self, ChebyshevError>(ChebyshevError::LengthMismatch),
            fit_data_error(xs@, ys@, degree as nat) is None && xs@.len() == weights@.len() && !all_finite(weights@) ==> r == Err::<Self, ChebyshevError>(ChebyshevError::InvalidWeights),
            r matches Ok(s) ==> s.dom() == domain && all_finite(s.coeffs()),
    {
        let report = Self::fit_weighted_report_on_domain(xs, ys, weights, degree, domain)?;
        Ok(report.series)
    }
}

} // verus!
