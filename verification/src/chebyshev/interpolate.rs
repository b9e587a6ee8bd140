//! Interpolation: the series of degree `n - 1` through `n` points, from the
//! square system of Chebyshev basis values at the scaled abscissae, solved
//! by `ndarray-linalg`.
use core::ops::Range;
use vstd::prelude::*;
use vstd::std_specs::cmp::{PartialEqSpec, PartialEqIs, PartialOrdSpec, PartialOrdIs};
use num_traits::Float;
use ndarray_linalg::{Lapack, Scalar};
use crate::scalar::{Coefficient, lawful, finite, e_min, e_max, is_finite, total_on_finite, lemma_total_order, lemma_min_bound, lemma_max_bound};
use crate::error::ChebyshevError;
use crate::linalg::{Rows, is_matrix, solve};
use ndarray_linalg::error::LinalgError;
use super::{ChebyshevSeries, all_finite, builds};
use super::fitting::{design_matrix, copy_values, all_equal, spans, lemma_extremes, basis_values};
use crate::scaling::scaled_coordinate;

verus! {

/// Two of the abscissae compare equal.
pub open spec fn has_duplicate<E: Coefficient>(xs: Seq<E>) -> bool {
    exists|i: int, j: int| #![trigger xs[i], xs[j]] 0 <= i < j < xs.len() && xs[i].is_eq(&xs[j])
}

/// What checking interpolation data finds, in the order it is checked:
/// no points, lengths that differ, a value that is not finite, a repeated
/// abscissa.
pub open spec fn interpolation_data_error<E: Coefficient>(xs: Seq<E>, ys: Seq<E>) -> Option<ChebyshevError> {
    if xs.len() == 0 {
        Some(ChebyshevError::EmptyInput)
    } else if xs.len() != ys.len() {
        Some(ChebyshevError::LengthMismatch)
    } else if !all_finite(xs) || !all_finite(ys) {
        Some(ChebyshevError::InvalidData)
    } else if has_duplicate(xs) {
        Some(ChebyshevError::DuplicateAbscissa)
    } else {
        None
    }
}

/// The checks before the duplicate test pass: points are there, of equal
/// lengths, all finite.
pub open spec fn well_shaped<E: Coefficient>(xs: Seq<E>, ys: Seq<E>) -> bool {
    xs.len() > 0 && xs.len() == ys.len() && all_finite(xs) && all_finite(ys)
}

/// Check interpolation data.
pub fn validate_interpolation_data<E: Coefficient + Float>(xs: &[E], ys: &[E]) -> (r: Result<(), ChebyshevError>)
    ensures
        xs@.len() == 0 ==> r == Err::<(), ChebyshevError>(ChebyshevError::EmptyInput),
        xs@.len() > 0 && xs@.len() != ys@.len() ==> r == Err::<(), ChebyshevError>(ChebyshevError::LengthMismatch),
        xs@.len() > 0 && xs@.len() == ys@.len() && (!all_finite(xs@) || !all_finite(ys@)) ==> r
            == Err::<(), ChebyshevError>(ChebyshevError::InvalidData),
        well_shaped(xs@, ys@) ==> (r is Ok || r == Err::<(), ChebyshevError>(ChebyshevError::DuplicateAbscissa)),
        lawful::<E>() ==> r == (match interpolation_data_error(xs@, ys@) {
            Some(e) => Err(e),
            None => Ok(()),
        }),
{
    if xs.len() == 0 {
        return Err(ChebyshevError::EmptyInput);
    }
    if xs.len() != ys.len() {
        return Err(ChebyshevError::LengthMismatch);
    }
    let mut i: usize = 0;
    while i < xs.len()
        invariant
            i <= xs@.len(),
            xs@.len() == ys@.len(),
            xs@.len() > 0,
            forall|j: int| 0 <= j < i ==> finite(#[trigger] xs@[j]),
        decreases xs@.len() - i,
    {
        if !is_finite(xs[i]) {
            return Err(ChebyshevError::InvalidData);
        }
        i = i + 1;
    }
    let mut i: usize = 0;
    while i < ys.len()
        invariant
            i <= ys@.len(),
            xs@.len() == ys@.len(),
            xs@.len() > 0,
            all_finite(xs@),
            forall|j: int| 0 <= j < i ==> finite(#[trigger] ys@[j]),
        decreases ys@.len() - i,
    {
        if !is_finite(ys[i]) {
            return Err(ChebyshevError::InvalidData);
        }
        i = i + 1;
    }
    let n = xs.len();
    let mut i: usize = 0;
    while i < n
        invariant
            n == xs@.len(),
            i <= n,
            well_shaped(xs@, ys@),
            lawful::<E>() ==> forall|a: int, b: int| #![trigger xs@[a], xs@[b]] 0 <= a < i && a < b < n ==> !xs@[a].is_eq(&xs@[b]),
        decreases n - i,
    {
        let mut j: usize = i + 1;
        while j < n
            invariant
                n == xs@.len(),
                i < n,
                well_shaped(xs@, ys@),
                i + 1 <= j <= n,
                lawful::<E>() ==> forall|a: int, b: int| #![trigger xs@[a], xs@[b]] 0 <= a < i && a < b < n ==> !xs@[a].is_eq(&xs@[b]),
                lawful::<E>() ==> forall|b: int| #![trigger xs@[b]] i < b < j ==> !xs@[i as int].is_eq(&xs@[b]),
            decreases n - j,
        {
            if xs[i] == xs[j] {
                proof {
                    if lawful::<E>() {
                        assert(xs@[i as int].is_eq(&xs@[j as int]));
                        assert(has_duplicate(xs@));
                    }
                }
                return Err(ChebyshevError::DuplicateAbscissa);
            }
            j = j + 1;
        }
        i = i + 1;
    }
    proof {
        if lawful::<E>() {
            assert(!has_duplicate(xs@));
        }
    }
    Ok(())
}

/// The domain spanned by the abscissae, from the smallest to the largest;
/// invalid when they coincide.
pub fn interpolation_domain<E: Coefficient + Float>(xs: &[E]) -> (r: Result<Range<E>, ChebyshevError>)
    requires
        xs@.len() >= 1,
    ensures
        r is Ok || r == Err::<Range<E>, ChebyshevError>(ChebyshevError::InvalidDomain),
        all_finite(xs@) ==> (r matches Ok(d) ==> xs@.contains(d.start) && xs@.contains(d.end)),
        r matches Ok(d) ==> lawful::<E>() ==> !d.start.is_eq(&d.end),
        xs@.len() == 1 && lawful::<E>() && xs@[0].is_eq(&xs@[0]) ==> r == Err::<Range<E>, ChebyshevError>(ChebyshevError::InvalidDomain),
        lawful::<E>() && total_on_finite::<E>() && all_finite(xs@) ==> (r
            == Err::<Range<E>, ChebyshevError>(ChebyshevError::InvalidDomain) <==> all_equal(xs@)),
        all_finite(xs@) ==> (r matches Ok(d) ==> lawful::<E>() && total_on_finite::<E>() ==> spans(xs@, d) && d.start.is_lt(&d.end)),
{
    let mut lower = xs[0];
    let mut upper = xs[0];
    proof {
        if lawful::<E>() && total_on_finite::<E>() && all_finite(xs@) {
            assert(finite(xs@[0]));
            lemma_total_order(xs@[0], xs@[0], xs@[0]);
        }
    }
    let mut i: usize = 1;
    while i < xs.len()
        invariant
            1 <= i <= xs@.len(),
            all_finite(xs@) ==> xs@.contains(lower) && xs@.contains(upper) && finite(lower) && finite(upper),
            i == 1 ==> lower == xs@[0] && upper == xs@[0],
            lawful::<E>() && total_on_finite::<E>() && all_finite(xs@) ==> forall|j: int| 0 <= j < i ==> !(#[trigger] xs@[j]).is_lt(&lower) && !upper.is_lt(&xs@[j]),
        decreases xs@.len() - i,
    {
        let x = xs[i];
        let next_lower = e_min(lower, x);
        let next_upper = e_max(upper, x);
        proof {
            if lawful::<E>() && total_on_finite::<E>() && all_finite(xs@) {
                assert(finite(x) && finite(xs@[0]));
                assert forall|j: int| 0 <= j < i + 1 implies !(#[trigger] xs@[j]).is_lt(&next_lower) && !next_upper.is_lt(&xs@[j]) by {
                    assert(finite(xs@[j]));
                    if j < i {
                        lemma_min_bound(xs@[j], lower, x, next_lower);
                        lemma_max_bound(xs@[j], upper, x, next_upper);
                    } else {
                        lemma_min_bound(xs@[0], lower, x, next_lower);
                        lemma_max_bound(xs@[0], upper, x, next_upper);
                    }
                }
            }
        }
        lower = next_lower;
        upper = next_upper;
        i = i + 1;
    }
    let domain = Range { start: lower, end: upper };
    proof {
        if lawful::<E>() && total_on_finite::<E>() && all_finite(xs@) {
            lemma_extremes(xs@, domain);
        }
    }
    if lower == upper {
        return Err(ChebyshevError::InvalidDomain);
    }
    Ok(domain)
}

/// Solve the collocation system of interpolation through the points
/// `(xs[i], ys[i])`: row `i` of the matrix holds the basis values of degree
/// `n - 1` at the scaled image of `xs[i]` and the right-hand side holds the
/// ordinates, so that a solution's series takes the value `ys[i]` at
/// `xs[i]`.
fn solve_collocation<E: Coefficient + Scalar + Lapack>(
    matrix: &Rows<E>,
    rhs: &Vec<E>,
    Ghost(xs): Ghost<Seq<E>>,
    Ghost(ys): Ghost<Seq<E>>,
    Ghost(domain): Ghost<Range<E>>,
) -> (r: Result<Vec<E>, LinalgError>)
    requires
        xs.len() >= 1,
        matrix@.len() == xs.len(),
        is_matrix(matrix@, xs.len()),
        lawful::<E>() ==> forall|i: int| 0 <= i < xs.len() ==> (#[trigger] matrix@[i])@
            == basis_values(scaled_coordinate(xs[i], domain), (xs.len() - 1) as nat),
        rhs@ == ys,
        ys.len() == xs.len(),
    ensures
        r matches Ok(x) ==> x@.len() == xs.len(),
{
    solve(matrix, rhs)
}

impl<E> ChebyshevSeries<E> where E: Coefficient + Float + Scalar + Lapack {
    /// The interpolant through the points on a given domain: the series of
    /// degree `n - 1` whose values at the `n` abscissae are the ordinates.
    pub fn interpolate_on_domain(xs: &[E], ys: &[E], domain: Range<E>) -> (r: Result<Self, ChebyshevError>)
        ensures
            xs@.len() == 0 ==> r == Err::<Self, ChebyshevError>(ChebyshevError::EmptyInput),
            xs@.len() > 0 && xs@.len() != ys@.len() ==> r == Err::<Self, ChebyshevError>(ChebyshevError::LengthMismatch),
            xs@.len() > 0 && xs@.len() == ys@.len() && (!all_finite(xs@) || !all_finite(ys@)) ==> r
                == Err::<Self, ChebyshevError>(ChebyshevError::InvalidData),
            lawful::<E>() ==> (interpolation_data_error(xs@, ys@) matches Some(e) ==> r == Err::<Self, ChebyshevError>(e)),
            well_shaped(xs@, ys@) && !(r == Err::<Self, ChebyshevError>(ChebyshevError::DuplicateAbscissa)) ==> (
                (r matches Err(ChebyshevError::Linalg(_))) || exists|solution: Seq<E>| solution.len() == xs@.len() && #[trigger] builds(r, solution, domain)),
            lawful::<E>() && interpolation_data_error(xs@, ys@) is None ==> (
                (r matches Err(ChebyshevError::Linalg(_))) || exists|solution: Seq<E>| solution.len() == xs@.len() && #[trigger] builds(r, solution, domain)),
            r matches Ok(s) ==> s.dom() == domain && all_finite(s.coeffs()),
    {
        validate_interpolation_data(xs, ys)?;
        let degree = xs.len() - 1;
        let matrix = design_matrix(xs, degree, &domain);
        let rhs = copy_values(ys);
        let coefficients = match solve_collocation(&matrix, &rhs, Ghost(xs@), Ghost(ys@), Ghost(domain)) {
            Ok(c) => c,
            Err(e) => return Err(ChebyshevError::Linalg(e)),
        };
        let ghost solution = coefficients@;
        let r = Self::from_vec(coefficients, domain);
        proof {
            assert(builds(r, solution, domain));
        }
        r
    }

    /// The interpolant through the points on the domain that they span.
    pub fn interpolate(xs: &[E], ys: &[E]) -> (r: Result<Self, ChebyshevError>)
        ensures
            xs@.len() == 0 ==> r == Err::<Self, ChebyshevError>(ChebyshevError::EmptyInput),
            xs@.len() > 0 && xs@.len() != ys@.len() ==> r == Err::<Self, ChebyshevError>(ChebyshevError::LengthMismatch),
            xs@.len() > 0 && xs@.len() == ys@.len() && (!all_finite(xs@) || !all_finite(ys@)) ==> r
                == Err::<Self, ChebyshevError>(ChebyshevError::InvalidData),
            lawful::<E>() ==> (interpolation_data_error(xs@, ys@) matches Some(e) ==> r == Err::<Self, ChebyshevError>(e)),
            r matches Ok(s) ==> all_finite(s.coeffs()) && xs@.contains(s.dom().start) && xs@.contains(s.dom().end),
            lawful::<E>() ==> (r matches Ok(s) ==> !s.dom().start.is_eq(&s.dom().end)),
            lawful::<E>() && total_on_finite::<E>() && interpolation_data_error(xs@, ys@) is None ==> (r
                == Err::<Self, ChebyshevError>(ChebyshevError::InvalidDomain) <==> xs@.len() == 1),
            r matches Ok(s) ==> lawful::<E>() && total_on_finite::<E>() ==> spans(xs@, s.dom()) && s.dom().start.is_lt(&s.dom().end),
    {
        validate_interpolation_data(xs, ys)?;
        proof {
            if lawful::<E>() && total_on_finite::<E>() && interpolation_data_error(xs@, ys@) is None {
                assert(finite(xs@[0]));
                lemma_total_order(xs@[0], xs@[0], xs@[0]);
                if xs@.len() > 1 {
                    assert(finite(xs@[1]));
                    lemma_total_order(xs@[1], xs@[0], xs@[0]);
                    if all_equal(xs@) {
                        assert(xs@[1].is_eq(&xs@[0]));
                        assert(xs@[0].is_eq(&xs@[1]));
                        assert(has_duplicate(xs@));
                    }
                } else {
                    assert(all_equal(xs@));
                }
            }
        }
        let domain = interpolation_domain(xs)?;
        Self::interpolate_on_domain(xs, ys, domain)
    }
}

} // verus!
