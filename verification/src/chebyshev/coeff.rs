//! Coefficient access and construction from native-basis coefficients.
//!
//! These are the operations of `PolynomialCoefficients`, given to
//! `ChebyshevSeries` directly: building a series checks finiteness through
//! `num_traits::Float`, a bound that a trait impl here cannot carry.
use core::ops::Range;
use vstd::prelude::*;
use num_traits::Float;
use crate::scalar::Coefficient;
use crate::error::ChebyshevError;
use crate::traits::PolynomialSeries;
use super::{ChebyshevSeries, builds};

verus! {

impl<E: Coefficient> ChebyshevSeries<E> {
    /// Build a series from coefficients on `domain`, as `new` does.
    pub fn from_coefficients(domain: Range<E>, coefficients: Vec<E>) -> (r: Result<Self, ChebyshevError>)
        where
            E: Float,
        ensures
            builds(r, coefficients@, domain),
    {
        Self::from_vec(coefficients, domain)
    }

    /// Build a series from other coefficients on the same domain.
    pub fn with_coefficients(&self, coefficients: Vec<E>) -> (r: Result<Self, ChebyshevError>)
        where
            E: Float,
        ensures
            builds(r, coefficients@, self.dom()),
    {
        Self::from_vec(coefficients, self.domain())
    }

    /// Return the number of stored coefficients.
    pub fn len(&self) -> (r: usize)
        ensures
            r == self.coeffs().len(),
    {
        self.coefficients().len()
    }

    /// Return `true` if no coefficients are stored (never, for a series).
    pub fn is_empty(&self) -> (r: bool)
        ensures
            r == (self.coeffs().len() == 0),
            !r,
    {
        let c = self.c_series();
        c.len() == 0
    }

    /// Return the coefficient at `index`, if present.
    pub fn coefficient(&self, index: usize) -> (r: Option<&E>)
        ensures
            index < self.coeffs().len() ==> r == Some(&self.coeffs()[index as int]),
            index >= self.coeffs().len() ==> r.is_none(),
    {
        let c = self.coefficients();
        if index < c.len() {
            Some(&c[index])
        } else {
            None
        }
    }

    /// Return the constant coefficient; a series always has one.
    pub fn constant_coefficient(&self) -> (r: Option<&E>)
        ensures
            r == Some(&self.coeffs()[0]),
    {
        proof {
            use_type_invariant(self);
        }
        self.coefficient(0)
    }

    /// Return the highest-order stored coefficient; a series always has one.
    pub fn leading_coefficient(&self) -> (r: Option<&E>)
        ensures
            r == Some(&self.coeffs().last()),
    {
        proof {
            use_type_invariant(self);
        }
        let c = self.coefficients();
        if c.len() == 0 {
            None
        } else {
            Some(&c[c.len() - 1])
        }
    }
}

} // verus!
