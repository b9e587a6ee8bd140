//! The physical domain of a series and the maps to and from the scaled
//! coordinate: the operations of `PolynomialDomain`, given to
//! `ChebyshevSeries` directly (a new domain is checked for finiteness
//! through `num_traits::Float`, a bound that a trait impl here cannot carry).
use core::ops::Range;
use vstd::prelude::*;
use vstd::std_specs::cmp::{PartialOrdSpec, PartialOrdIs};
use num_traits::Float;
use crate::scalar::{Coefficient, lawful, total_on_finite, finite};
use crate::scaling::{scaled_coordinate, physical_coordinate, clamped, clamp_to_domain, between};
use crate::error::ChebyshevError;
use super::{ChebyshevSeries, builds};

verus! {

impl<E: Coefficient> ChebyshevSeries<E> {
    /// Return the lower endpoint of the physical domain.
    pub fn lower_bound(&self) -> (r: E)
        ensures
            r == self.dom().start,
    {
        self.domain.start
    }

    /// Return the upper endpoint of the physical domain.
    pub fn upper_bound(&self) -> (r: E)
        ensures
            r == self.dom().end,
    {
        self.domain.end
    }

    /// Return `true` if `x` lies inside the closed physical domain.
    pub fn contains(&self, x: E) -> (r: bool)
        ensures
            lawful::<E>() ==> r == (self.dom().start.is_le(&x) && x.is_le(&self.dom().end)),
    {
        self.lower_bound() <= x && x <= self.upper_bound()
    }

    /// Clamp `x` to the physical domain.
    pub fn clamp(&self, x: E) -> (r: E)
        ensures
            r == x || r == self.dom().start || r == self.dom().end,
            lawful::<E>() ==> r == clamped(x, self.dom()),
            lawful::<E>() && total_on_finite::<E>() && finite(x) && finite(self.dom().start) && finite(self.dom().end)
                && self.dom().start.is_le(&self.dom().end) ==> between(r, self.dom()) && (between(x, self.dom()) ==> r == x),
    {
        clamp_to_domain(x, &self.domain)
    }

    /// Map a physical coordinate `x ∈ [a, b]` to `t ∈ [-1, 1]`.
    pub fn to_scaled(&self, x: E) -> (r: E)
        ensures
            lawful::<E>() ==> r == scaled_coordinate(x, self.dom()),
    {
        crate::scaling::to_scaled(x, &self.domain)
    }

    /// Map a scaled coordinate `t ∈ [-1, 1]` back to `x ∈ [a, b]`.
    pub fn from_scaled(&self, t: E) -> (r: E)
        ensures
            lawful::<E>() ==> r == physical_coordinate(t, self.dom()),
    {
        crate::scaling::from_scaled(t, &self.domain)
    }

    /// The same coefficients on another physical domain, checked as `new`
    /// checks: the same function of the scaled coordinate, not in general of
    /// the physical one.
    pub fn with_domain(&self, domain: Range<E>) -> (r: Result<Self, ChebyshevError>)
        where
            E: Float,
        ensures
            builds(r, self.coeffs(), domain),
    {
        let coefficients = self.coefficients.duplicate().into_vec();
        Self::from_vec(coefficients, domain)
    }
}

} // verus!
