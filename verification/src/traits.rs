//! The interface shared by polynomial bases: evaluation, coefficients,
//! domains, integration, approximation, fitting, interpolation and roots.
use core::ops::Range;
use vstd::prelude::*;
use vstd::std_specs::cmp::{PartialOrdSpec, PartialOrdIs};
use crate::scalar::{Coefficient, lawful};
use crate::scaling::{scaled_coordinate, physical_coordinate, clamped};

verus! {

/// Core behaviour shared by all polynomial series, expressed in some basis
/// on a physical domain `a..b`, most bases being evaluated on a scaled
/// coordinate `t ∈ [-1, 1]`.
pub trait PolynomialSeries<E>: Clone + Sized {
    /// The value that evaluation at the scaled coordinate `t` computes.
    spec fn scaled_value(&self, t: E) -> E;

    /// The value that evaluation at the physical coordinate `x` computes.
    spec fn value(&self, x: E) -> E;

    /// Evaluation computes `scaled_value` and `value`: the arithmetic of
    /// `E` follows its specification.
    spec fn evaluation_specified() -> bool;

    /// Evaluate the polynomial at a scaled coordinate.
    fn evaluate_scaled(&self, t: E) -> (r: E)
        ensures
            Self::evaluation_specified() ==> r == self.scaled_value(t),
    ;

    /// Evaluate the polynomial at a physical coordinate.
    fn evaluate(&self, x: E) -> (r: E)
        ensures
            Self::evaluation_specified() ==> r == self.value(x),
    ;

    /// `d` is what the first derivative of `self` returns.
    spec fn differentiates_to(&self, d: Self) -> bool;

    /// The physical domain.
    spec fn domain_spec(&self) -> Range<E>;

    /// Return the first derivative with respect to the physical coordinate.
    fn first_derivative(&self) -> (r: Self)
        ensures
            self.differentiates_to(r),
    ;

    /// Return the derivative of the requested order; `order = 0` returns a
    /// copy of `self`.
    fn derivative(&self, order: usize) -> (r: Self)
        default_ensures
            exists|chain: Seq<Self>| #![trigger chain[0]]
                chain.len() == order + 1 && cloned(*self, chain[0]) && chain.last() == r
                && forall|k: int| 0 < k < chain.len() ==> chain[k - 1].differentiates_to(#[trigger] chain[k]),
    {
        let mut current = self.clone();
        let ghost mut chain: Seq<Self> = seq![current];
        let mut i: usize = 0;
        while i < order
            invariant
                i <= order,
                chain.len() == i + 1,
                cloned(*self, chain[0]),
                chain.last() == current,
                forall|k: int| 0 < k < chain.len() ==> chain[k - 1].differentiates_to(#[trigger] chain[k]),
            decreases order - i,
        {
            let next = current.first_derivative();
            proof {
                let previous = chain;
                chain = chain.push(next);
                assert forall|k: int| 0 < k < chain.len() implies chain[k - 1].differentiates_to(#[trigger] chain[k]) by {
                    if k < chain.len() - 1 {
                        assert(chain[k] == previous[k] && chain[k - 1] == previous[k - 1]);
                    }
                }
            }
            current = next;
            i = i + 1;
        }
        current
    }

    /// Return the degree of the polynomial.
    fn degree(&self) -> usize;

    /// Return the physical domain on which the polynomial is defined.
    fn domain(&self) -> (r: Range<E>)
        ensures
            r == self.domain_spec(),
    ;

    /// Return a zero polynomial on the given physical domain.
    fn zero(domain: Range<E>) -> Self;

    /// Return `true` if the series represents the zero polynomial.
    fn is_zero(&self) -> bool;
}

/// Access to the coefficients of a polynomial series, in the native basis
/// of the implementing type.
pub trait PolynomialCoefficients<E>: PolynomialSeries<E> {
    type Error;

    /// The stored coefficients, in basis order.
    spec fn coefficient_seq(&self) -> Seq<E>;

    /// Return the coefficients in basis order: `coefficients()[n]`
    /// multiplies the nth basis polynomial.
    fn coefficients(&self) -> (r: &[E])
        ensures
            r@ == self.coefficient_seq(),
    ;

    /// Construct a polynomial series from native-basis coefficients.
    fn from_coefficients(domain: Range<E>, coefficients: Vec<E>) -> Result<Self, Self::Error>;

    /// Change the polynomial coefficients, keeping the domain.
    fn with_coefficients(&self, coefficients: Vec<E>) -> Result<Self, Self::Error>;

    /// Return the number of stored coefficients.
    fn len(&self) -> (r: usize)
        ensures
            r == self.coefficient_seq().len(),
    {
        self.coefficients().len()
    }

    /// Return `true` if no coefficients are stored.
    fn is_empty(&self) -> (r: bool)
        ensures
            r == (self.coefficient_seq().len() == 0),
    {
        self.coefficients().len() == 0
    }

    /// Return the coefficient at `index`, if present.
    fn coefficient(&self, index: usize) -> (r: Option<&E>)
        ensures
            index < self.coefficient_seq().len() ==> r == Some(&self.coefficient_seq()[index as int]),
            index >= self.coefficient_seq().len() ==> r.is_none(),
    {
        let coefficients = self.coefficients();
        if index < coefficients.len() {
            Some(&coefficients[index])
        } else {
            None
        }
    }

    /// Return the constant coefficient, if present.
    fn constant_coefficient(&self) -> (r: Option<&E>)
        ensures
            self.coefficient_seq().len() > 0 ==> r == Some(&self.coefficient_seq()[0]),
            self.coefficient_seq().len() == 0 ==> r.is_none(),
    {
        self.coefficient(0)
    }

    /// Return the highest-order stored coefficient, if present.
    fn leading_coefficient(&self) -> (r: Option<&E>)
        ensures
            self.coefficient_seq().len() > 0 ==> r == Some(&self.coefficient_seq().last()),
            self.coefficient_seq().len() == 0 ==> r.is_none(),
    {
        let coefficients = self.coefficients();
        if coefficients.len() == 0 {
            None
        } else {
            Some(&coefficients[coefficients.len() - 1])
        }
    }
}

/// Conversion between polynomial bases.
pub trait ConvertPolynomialBasis<Target> {
    /// Error returned when basis conversion fails.
    type Error;

    /// Convert this polynomial series into another basis.
    fn convert(&self) -> Result<Target, Self::Error>;
}

/// Utilities for mapping between physical and scaled coordinates.
pub trait PolynomialDomain<E: Coefficient>: PolynomialSeries<E> {
    type Error;

    /// The lower end of the physical domain.
    spec fn lower_spec(&self) -> E;

    /// The upper end of the physical domain.
    spec fn upper_spec(&self) -> E;

    /// Return the lower endpoint of the physical domain.
    fn lower_bound(&self) -> (r: E)
        ensures
            r == self.lower_spec(),
    ;

    /// Return the upper endpoint of the physical domain.
    fn upper_bound(&self) -> (r: E)
        ensures
            r == self.upper_spec(),
    ;

    /// Return `true` if `x` lies inside the closed physical domain.
    fn contains(&self, x: E) -> (r: bool)
        ensures
            lawful::<E>() ==> r == (self.lower_spec().is_le(&x) && x.is_le(&self.upper_spec())),
    {
        self.lower_bound() <= x && x <= self.upper_bound()
    }

    /// Clamp `x` to the physical domain.
    fn clamp(&self, x: E) -> (r: E)
        ensures
            lawful::<E>() ==> r == clamped(x, Range { start: self.lower_spec(), end: self.upper_spec() }),
    {
        crate::scaling::clamp_to_domain(x, &Range { start: self.lower_bound(), end: self.upper_bound() })
    }

    /// Map a physical coordinate `x ∈ [a, b]` to the scaled coordinate.
    fn to_scaled(&self, x: E) -> (r: E)
        ensures
            lawful::<E>() ==> r == scaled_coordinate(x, Range { start: self.lower_spec(), end: self.upper_spec() }),
    {
        crate::scaling::to_scaled(x, &Range { start: self.lower_bound(), end: self.upper_bound() })
    }

    /// Map a scaled coordinate back to the physical coordinate.
    fn from_scaled(&self, t: E) -> (r: E)
        ensures
            lawful::<E>() ==> r == physical_coordinate(t, Range { start: self.lower_spec(), end: self.upper_spec() }),
    {
        crate::scaling::from_scaled(t, &Range { start: self.lower_bound(), end: self.upper_bound() })
    }

    /// Return a copy of the polynomial with a different physical domain and
    /// the same coefficients.
    fn with_domain(&self, domain: Range<E>) -> Result<Self, Self::Error>;
}

/// Batch evaluation of a polynomial series.
pub trait PolynomialEvaluateMany<E: Copy>: PolynomialSeries<E> {
    /// Evaluate the polynomial at many physical coordinates.
    fn evaluate_many(&self, xs: &[E]) -> (r: Vec<E>)
        ensures
            r@.len() == xs@.len(),
            Self::evaluation_specified() ==> forall|i: int| 0 <= i < xs@.len() ==> #[trigger] r@[i] == self.value(xs@[i]),
    {
        let mut values: Vec<E> = Vec::new();
        let mut i: usize = 0;
        while i < xs.len()
            invariant
                i <= xs@.len(),
                values@.len() == i,
                Self::evaluation_specified() ==> forall|j: int| 0 <= j < i ==> #[trigger] values@[j] == self.value(xs@[j]),
            decreases xs@.len() - i,
        {
            values.push(self.evaluate(xs[i]));
            i = i + 1;
        }
        values
    }

    /// Evaluate the polynomial at many scaled coordinates.
    fn evaluate_scaled_many(&self, ts: &[E]) -> (r: Vec<E>)
        ensures
            r@.len() == ts@.len(),
            Self::evaluation_specified() ==> forall|i: int| 0 <= i < ts@.len() ==> #[trigger] r@[i] == self.scaled_value(ts@[i]),
    {
        let mut values: Vec<E> = Vec::new();
        let mut i: usize = 0;
        while i < ts.len()
            invariant
                i <= ts@.len(),
                values@.len() == i,
                Self::evaluation_specified() ==> forall|j: int| 0 <= j < i ==> #[trigger] values@[j] == self.scaled_value(ts@[j]),
            decreases ts@.len() - i,
        {
            values.push(self.evaluate_scaled(ts[i]));
            i = i + 1;
        }
        values
    }
}

impl<T, E: Copy> PolynomialEvaluateMany<E> for T where T: PolynomialSeries<E> {

}

/// Integration behaviour for polynomial series.
pub trait PolynomialIntegrals<E>: PolynomialSeries<E> {
    /// The antiderivative with constant term `constant` is a valid series.
    spec fn integrable_with(&self, constant: E) -> bool;

    /// The antiderivative with constant term zero is a valid series.
    spec fn integrable(&self) -> bool;

    /// Return an antiderivative with integration constant zero.
    fn antiderivative(&self) -> Self
        requires
            self.integrable(),
    ;

    /// Return an antiderivative with the supplied constant term.
    fn antiderivative_with_constant(&self, constant: E) -> Self
        requires
            self.integrable_with(constant),
    ;

    /// The value that the definite integral over `interval` computes.
    spec fn integral(&self, interval: Range<E>) -> E;

    /// Integration computes `integral`: the arithmetic of `E` follows its
    /// specification.
    spec fn integration_specified() -> bool;

    /// Compute the definite integral over a physical interval.
    fn definite_integral(&self, interval: Range<E>) -> (r: E)
        requires
            self.integrable(),
        ensures
            Self::integration_specified() ==> r == self.integral(interval),
    ;

    /// Compute the definite integral over the full physical domain.
    fn integral_over_domain(&self) -> (r: E)
        requires
            self.integrable(),
        ensures
            Self::integration_specified() ==> r == self.integral(self.domain_spec()),
    {
        self.definite_integral(self.domain())
    }
}

/// Approximation and simplification operations for polynomial series.
pub trait PolynomialApproximation<E>: PolynomialSeries<E> {
    /// Return a polynomial truncated to at most `degree`.
    fn truncate(&self, degree: usize) -> Self;

    /// `t` is what trimming `self` by `tolerance` returns.
    spec fn trims_to(&self, tolerance: E, t: Self) -> bool;

    /// Remove trailing coefficients whose absolute value is at most
    /// `tolerance`.
    fn trim(&self, tolerance: E) -> (r: Self)
        ensures
            self.trims_to(tolerance, r),
    ;

    /// Return a lower-degree approximation if possible; here, `trim`.
    fn simplify(&self, tolerance: E) -> (r: Self)
        ensures
            self.trims_to(tolerance, r),
    {
        self.trim(tolerance)
    }
}

/// Result of fitting a polynomial series to data.
#[derive(Clone, Debug)]
pub struct FitReport<E, S> {
    /// The fitted polynomial series.
    pub series: S,
    /// Native-basis fitted coefficients.
    pub coefficients: Vec<E>,
    /// Estimated coefficient covariance matrix, if available.
    pub covariance: Option<Vec<Vec<E>>>,
    /// Fitted values at the input abscissae.
    pub fitted_values: Vec<E>,
    /// Residuals `y_i - fitted_i`.
    pub residuals: Vec<E>,
    /// Number of residual degrees of freedom.
    pub degrees_of_freedom: usize,
    /// Sum of squared residuals.
    pub residual_sum_of_squares: E,
    /// Residual variance estimate, if degrees of freedom are positive.
    pub residual_variance: Option<E>,
}

/// Construction by least-squares fitting.
pub trait FitPolynomialSeries<E>: Sized {
    /// Error returned when fitting fails.
    type Error;

    /// `r` is what fitting `ys` at `xs` with `degree` returns.
    spec fn fits(xs: Seq<E>, ys: Seq<E>, degree: nat, r: Result<FitReport<E, Self>, Self::Error>) -> bool;

    /// `r` is what fitting `ys` at `xs` with `weights` and `degree` returns.
    spec fn fits_weighted(xs: Seq<E>, ys: Seq<E>, weights: Seq<E>, degree: nat, r: Result<FitReport<E, Self>, Self::Error>) -> bool;

    /// Fit a polynomial and return diagnostics.
    fn fit_report(xs: &[E], ys: &[E], degree: usize) -> (r: Result<FitReport<E, Self>, Self::Error>)
        ensures
            Self::fits(xs@, ys@, degree as nat, r),
    ;

    /// Fit a weighted polynomial and return diagnostics.
    fn fit_weighted_report(xs: &[E], ys: &[E], weights: &[E], degree: usize) -> (r: Result<FitReport<E, Self>, Self::Error>)
        ensures
            Self::fits_weighted(xs@, ys@, weights@, degree as nat, r),
    ;

    /// Fit a polynomial and return only the fitted series.
    fn fit(xs: &[E], ys: &[E], degree: usize) -> (r: Result<Self, Self::Error>)
        ensures
            exists|report: Result<FitReport<E, Self>, Self::Error>| #[trigger] Self::fits(xs@, ys@, degree as nat, report)
                && r == (match report {
                    Ok(rep) => Ok::<Self, Self::Error>(rep.series),
                    Err(e) => Err::<Self, Self::Error>(e),
                }),
    {
        match Self::fit_report(xs, ys, degree) {
            Ok(report) => Ok(report.series),
            Err(e) => Err(e),
        }
    }

    /// Fit a weighted polynomial and return only the fitted series.
    fn fit_weighted(xs: &[E], ys: &[E], weights: &[E], degree: usize) -> (r: Result<Self, Self::Error>)
        ensures
            exists|report: Result<FitReport<E, Self>, Self::Error>| #[trigger] Self::fits_weighted(xs@, ys@, weights@, degree as nat, report)
                && r == (match report {
                    Ok(rep) => Ok::<Self, Self::Error>(rep.series),
                    Err(e) => Err::<Self, Self::Error>(e),
                }),
    {
        match Self::fit_weighted_report(xs, ys, weights, degree) {
            Ok(report) => Ok(report.series),
            Err(e) => Err(e),
        }
    }
}

/// Interpolation constructors for polynomial series: a polynomial through
/// the supplied points, subject to numerical precision.
pub trait InterpolatePolynomialSeries<E>: Sized {
    /// Error returned when interpolation fails.
    type Error;

    /// Construct an interpolating polynomial through `(x, y)` data.
    fn interpolate(xs: &[E], ys: &[E]) -> Result<Self, Self::Error>;
}

/// `x` lies in the closed window `start <= x <= end`.
pub open spec fn in_window<E: PartialOrd>(x: E, window: Range<E>) -> bool {
    window.start.is_le(&x) && x.is_le(&window.end)
}

/// The comparisons of `E` compute what their specification says.
pub open spec fn ordered<E: PartialOrd>() -> bool {
    E::obeys_partial_cmp_spec()
}

/// The first `n` elements of `s`.
pub open spec fn upto<E>(s: Seq<E>, n: usize) -> Seq<E> {
    s.take(n as int)
}

/// The elements of `s` that lie in the closed window, in their order.
pub open spec fn within<E: PartialOrd>(s: Seq<E>, window: Range<E>) -> Seq<E> {
    s.filter(|x: E| in_window(x, window))
}

/// The roots that lie in the closed window, in their order.
pub fn roots_within<E: PartialOrd + Copy>(roots: Vec<E>, window: &Range<E>) -> (r: Vec<E>)
    ensures
        r@.len() <= roots@.len(),
        ordered::<E>() ==> r@ == within(roots@, *window),
{
    let mut kept: Vec<E> = Vec::new();
    let mut i: usize = 0;
    while i < roots.len()
        invariant
            i <= roots@.len(),
            kept@.len() <= i,
            ordered::<E>() ==> kept@ == within(upto(roots@, i), *window),
        decreases roots@.len() - i,
    {
        let root = roots[i];
        proof {
            reveal_with_fuel(Seq::<_>::filter, 1);
            assert(upto(roots@, (i + 1) as usize).drop_last() =~= upto(roots@, i));
            assert(upto(roots@, (i + 1) as usize).last() == root);
        }
        if window.start <= root && root <= window.end {
            kept.push(root);
        }
        i = i + 1;
    }
    proof {
        assert(upto(roots@, i) =~= roots@);
    }
    kept
}

/// What restricting the roots `all` to the closed `window` gives: the
/// same error, or the roots that lie in the window.
pub open spec fn restricted<E: PartialOrd, Er>(all: Result<Vec<E>, Er>, window: Range<E>, r: Result<Vec<E>, Er>) -> bool {
    match all {
        Ok(v) => r matches Ok(w) && w@.len() <= v@.len() && (ordered::<E>() ==> w@ == within(v@, window)),
        Err(e) => r == Err::<Vec<E>, Er>(e),
    }
}

/// What asking whether the roots `all` meet the closed `window` gives: the
/// same error, or whether any root lies in the window.
pub open spec fn meets<E: PartialOrd, Er>(all: Result<Vec<E>, Er>, window: Range<E>, r: Result<bool, Er>) -> bool {
    match all {
        Ok(v) => r is Ok && (ordered::<E>() ==> r == Ok::<bool, Er>(within(v@, window).len() > 0)),
        Err(e) => r == Err::<bool, Er>(e),
    }
}

/// Root finding, separate from `PolynomialSeries` because it may need
/// matrix decompositions or complex arithmetic.
pub trait PolynomialRoots<E>: PolynomialSeries<E> where E: PartialOrd + Copy {
    /// Error returned by the root-finding implementation.
    type Error;

    /// `r` is what root finding on `self` returns.
    spec fn finds(&self, r: Result<Vec<E>, Self::Error>) -> bool;

    /// Return all real roots representable by this implementation.
    fn roots(&self) -> (r: Result<Vec<E>, Self::Error>)
        ensures
            self.finds(r),
    ;

    /// Return all roots inside the closed physical domain.
    fn roots_in_domain(&self) -> (r: Result<Vec<E>, Self::Error>)
        ensures
            exists|all: Result<Vec<E>, Self::Error>| #[trigger] self.finds(all) && restricted(all, self.domain_spec(), r),
    {
        let domain = self.domain();
        self.roots_in_window(domain)
    }

    /// Return all roots inside the closed `window`.
    fn roots_in_window(&self, window: Range<E>) -> (r: Result<Vec<E>, Self::Error>)
        ensures
            ordered::<E>() ==> (r matches Ok(v) ==> forall|i: int| 0 <= i < v@.len() ==> in_window(#[trigger] v@[i], window)),
            exists|all: Result<Vec<E>, Self::Error>| #[trigger] self.finds(all) && restricted(all, window, r),
    {
        let found = self.roots();
        let ghost all = found;
        let roots = match found {
            Ok(roots) => roots,
            Err(e) => {
                proof {
                    assert(restricted(all, window, Err::<Vec<E>, Self::Error>(e)));
                }
                return Err(e);
            },
        };
        let ghost v = roots;
        let kept = roots_within(roots, &window);
        proof {
            if ordered::<E>() {
                assert forall|i: int| 0 <= i < kept@.len() implies in_window(#[trigger] kept@[i], window) by {
                    v@.lemma_filter_contains_rev(|x: E| in_window(x, window), kept@[i]);
                }
            }
            assert(restricted(all, window, Ok::<Vec<E>, Self::Error>(kept)));
        }
        Ok(kept)
    }

    /// Return `true` if there is at least one root inside `window`.
    fn has_root_in_window(&self, window: Range<E>) -> (r: Result<bool, Self::Error>)
        ensures
            exists|all: Result<Vec<E>, Self::Error>| #[trigger] self.finds(all) && meets(all, window, r),
    {
        let found = self.roots_in_window(window);
        let ghost all = choose|all: Result<Vec<E>, Self::Error>| #[trigger] self.finds(all) && restricted(all, window, found);
        match found {
            Ok(roots) => {
                let r = Ok(roots.len() != 0);
                proof {
                    assert(meets(all, window, r));
                }
                r
            },
            Err(e) => {
                proof {
                    assert(meets(all, window, Err::<bool, Self::Error>(e)));
                }
                Err(e)
            },
        }
    }

    /// Return `true` if there is at least one root inside the domain.
    fn has_root_in_domain(&self) -> (r: Result<bool, Self::Error>)
        ensures
            exists|all: Result<Vec<E>, Self::Error>| #[trigger] self.finds(all) && meets(all, self.domain_spec(), r),
    {
        let found = self.roots_in_domain();
        let ghost all = choose|all: Result<Vec<E>, Self::Error>| #[trigger] self.finds(all) && restricted(all, self.domain_spec(), found);
        match found {
            Ok(roots) => {
                let r = Ok(roots.len() != 0);
                proof {
                    assert(meets(all, self.domain_spec(), r));
                }
                r
            },
            Err(e) => {
                proof {
                    assert(meets(all, self.domain_spec(), Err::<bool, Self::Error>(e)));
                }
                Err(e)
            },
        }
    }

    /// Return `true` if the first derivative has no root inside the domain.
    /// The converse does not hold: a monotonic polynomial may have a
    /// stationary point where the derivative touches zero, like `x^3`.
    fn is_monotonic(&self) -> (r: Result<bool, Self::Error>)
        ensures
            exists|d: Self, all: Result<Vec<E>, Self::Error>| #![trigger self.differentiates_to(d), d.finds(all)]
                self.differentiates_to(d) && d.finds(all) && (match all {
                    Ok(v) => r is Ok && (ordered::<E>() ==> r == Ok::<bool, Self::Error>(within(v@, d.domain_spec()).len() == 0)),
                    Err(e) => r == Err::<bool, Self::Error>(e),
                }),
    {
        let derivative = self.first_derivative();
        let found = derivative.has_root_in_domain();
        let ghost all = choose|all: Result<Vec<E>, Self::Error>| #[trigger] derivative.finds(all) && meets(all, derivative.domain_spec(), found);
        match found {
            Ok(has_stationary_point) => {
                proof {
                    assert(self.differentiates_to(derivative) && derivative.finds(all));
                }
                Ok(!has_stationary_point)
            },
            Err(e) => {
                proof {
                    assert(self.differentiates_to(derivative) && derivative.finds(all));
                }
                Err(e)
            },
        }
    }
}

} // verus!
