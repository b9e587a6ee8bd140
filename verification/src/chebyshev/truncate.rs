//! Truncation and trimming of high-order coefficients.
use vstd::prelude::*;
use crate::scalar::{Coefficient, lawful};
use crate::c_series::{trim_zeros, trim_tolerance, max_len};
use crate::traits::PolynomialApproximation;
use super::ChebyshevSeries;
use core::ops::Range;

verus! {

impl<E: Coefficient> PolynomialApproximation<E> for ChebyshevSeries<E> {
    /// The trimmed series keeps the domain, has no more coefficients (and at
    /// least one), and holds the coefficients up to the last one above
    /// `|tolerance|`.
    open spec fn trims_to(&self, tolerance: E, t: Self) -> bool {
        &&& t.dom() == self.dom()
        &&& t.coeffs().len() <= max_len(self.coeffs().len(), 1)
        &&& lawful::<E>() ==> t.coeffs() == trim_tolerance(self.coeffs(), tolerance)
    }

    /// Keep the coefficients up to `degree`, then trim trailing zeros.
    fn truncate(&self, degree: usize) -> (r: Self)
        ensures
            r.dom() == self.dom(),
            r.coeffs().len() <= degree + 1,
            r.coeffs() =~= self.coeffs().take(r.coeffs().len() as int),
            lawful::<E>() ==> r.coeffs() == trim_zeros(self.coeffs().take(if degree + 1 <= self.coeffs().len() { degree + 1 } else { self.coeffs().len() as int })),
    {
        let c = self.c_series();
        ChebyshevSeries::from_parts(c.truncate(degree), Range { start: self.domain.start, end: self.domain.end })
    }

    /// Remove trailing coefficients with absolute value at most
    /// `|tolerance|`; the zero series `[0]` when none is larger.
    fn trim(&self, tolerance: E) -> (r: Self)
        ensures
            r.dom() == self.dom(),
            r.coeffs().len() <= max_len(self.coeffs().len(), 1),
            lawful::<E>() ==> r.coeffs() == trim_tolerance(self.coeffs(), tolerance),
    {
        let c = self.c_series();
        ChebyshevSeries::from_parts(c.trim_by_absolute_tolerance(tolerance), Range { start: self.domain.start, end: self.domain.end })
    }

    /// A lower-degree approximation: `trim`.
    fn simplify(&self, tolerance: E) -> (r: Self)
        ensures
            r.dom() == self.dom(),
            r.coeffs().len() <= max_len(self.coeffs().len(), 1),
            lawful::<E>() ==> r.coeffs() == trim_tolerance(self.coeffs(), tolerance),
    {
        self.trim(tolerance)
    }
}

} // verus!
