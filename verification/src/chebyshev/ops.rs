//! Arithmetic on Chebyshev series defined on the same domain, and scaling
//! by a scalar.
use vstd::prelude::*;
use vstd::std_specs::ops::{DivSpec, NegSpec};
use vstd::std_specs::cmp::{PartialEqSpec, PartialEqIs};
use crate::scalar::{Coefficient, lawful, one, one_value, e_neg, e_div};
use crate::c_series::{trim_zeros, padded_sum, padded_difference, scaled, chebyshev_product};
use crate::z_series::z_of_c;
use super::ChebyshevSeries;

verus! {

/// Both series are defined on the same domain: their end points compare
/// equal.
pub open spec fn same_domain<E: Coefficient>(lhs: ChebyshevSeries<E>, rhs: ChebyshevSeries<E>) -> bool {
    lhs.dom().start.is_eq(&rhs.dom().start) && lhs.dom().end.is_eq(&rhs.dom().end)
}

impl<E: Coefficient> core::ops::Add for ChebyshevSeries<E> {
    type Output = Self;

    /// The coefficient-wise sum on the common domain.
    fn add(self, rhs: Self) -> (r: Self)
        ensures
            r.dom() == self.dom(),
            lawful::<E>() ==> r.coeffs() == trim_zeros(padded_sum(self.coeffs(), rhs.coeffs())),
    {
        let ChebyshevSeries { coefficients, domain } = self;
        let ChebyshevSeries { coefficients: other, domain: _ } = rhs;
        ChebyshevSeries::from_parts(coefficients + other, domain)
    }
}

impl<E: Coefficient> vstd::std_specs::ops::AddSpecImpl for ChebyshevSeries<E> {
    open spec fn obeys_add_spec() -> bool {
        false
    }

    open spec fn add_req(self, rhs: Self) -> bool {
        same_domain(self, rhs)
    }

    closed spec fn add_spec(self, rhs: Self) -> Self {
        arbitrary()
    }
}

impl<E: Coefficient> core::ops::Sub for ChebyshevSeries<E> {
    type Output = Self;

    /// The coefficient-wise difference on the common domain.
    fn sub(self, rhs: Self) -> (r: Self)
        ensures
            r.dom() == self.dom(),
            lawful::<E>() ==> r.coeffs() == trim_zeros(padded_difference(self.coeffs(), rhs.coeffs())),
    {
        let ChebyshevSeries { coefficients, domain } = self;
        let ChebyshevSeries { coefficients: other, domain: _ } = rhs;
        ChebyshevSeries::from_parts(coefficients - other, domain)
    }
}

impl<E: Coefficient> vstd::std_specs::ops::SubSpecImpl for ChebyshevSeries<E> {
    open spec fn obeys_sub_spec() -> bool {
        false
    }

    open spec fn sub_req(self, rhs: Self) -> bool {
        same_domain(self, rhs)
    }

    closed spec fn sub_spec(self, rhs: Self) -> Self {
        arbitrary()
    }
}

impl<E: Coefficient> core::ops::Mul for ChebyshevSeries<E> {
    type Output = Self;

    /// The product on the common domain, by z-series convolution.
    fn mul(self, rhs: Self) -> (r: Self)
        ensures
            r.dom() == self.dom(),
            lawful::<E>() && z_of_c(self.coeffs()).len() + z_of_c(rhs.coeffs()).len() <= usize::MAX ==> r.coeffs() == chebyshev_product(self.coeffs(), rhs.coeffs()),
    {
        let ChebyshevSeries { coefficients, domain } = self;
        let ChebyshevSeries { coefficients: other, domain: _ } = rhs;
        ChebyshevSeries::from_parts(coefficients * other, domain)
    }
}

impl<E: Coefficient> vstd::std_specs::ops::MulSpecImpl for ChebyshevSeries<E> {
    open spec fn obeys_mul_spec() -> bool {
        false
    }

    open spec fn mul_req(self, rhs: Self) -> bool {
        same_domain(self, rhs)
    }

    closed spec fn mul_spec(self, rhs: Self) -> Self {
        arbitrary()
    }
}

impl<E: Coefficient> core::ops::Neg for ChebyshevSeries<E> {
    type Output = Self;

    /// Every coefficient multiplied by `-1`.
    fn neg(self) -> (r: Self)
        ensures
            r.dom() == self.dom(),
            lawful::<E>() ==> r.coeffs() == scaled(self.coeffs(), one::<E>().neg_spec()),
    {
        proof {
            use_type_invariant(&self);
        }
        let ChebyshevSeries { coefficients, domain } = self;
        let mut coefficients = coefficients;
        coefficients.scale_mut(e_neg(one_value::<E>()));
        ChebyshevSeries::from_parts(coefficients, domain)
    }
}

impl<E: Coefficient> vstd::std_specs::ops::NegSpecImpl for ChebyshevSeries<E> {
    open spec fn obeys_neg_spec() -> bool {
        false
    }

    open spec fn neg_req(self) -> bool {
        true
    }

    closed spec fn neg_spec(self) -> Self {
        arbitrary()
    }
}

impl<E: Coefficient> core::ops::Mul<E> for ChebyshevSeries<E> {
    type Output = Self;

    /// Every coefficient multiplied by `rhs`, trimmed: scaling by zero
    /// gives the zero series `[0]`.
    fn mul(self, rhs: E) -> (r: Self)
        ensures
            r.dom() == self.dom(),
            1 <= r.coeffs().len() <= self.coeffs().len(),
            lawful::<E>() ==> r.coeffs() == trim_zeros(scaled(self.coeffs(), rhs)),
    {
        proof {
            use_type_invariant(&self);
        }
        let ChebyshevSeries { coefficients, domain } = self;
        let mut coefficients = coefficients;
        coefficients.scale_mut(rhs);
        ChebyshevSeries::from_parts(coefficients.trimmed(), domain)
    }
}

impl<E: Coefficient> vstd::std_specs::ops::MulSpecImpl<E> for ChebyshevSeries<E> {
    open spec fn obeys_mul_spec() -> bool {
        false
    }

    open spec fn mul_req(self, rhs: E) -> bool {
        true
    }

    closed spec fn mul_spec(self, rhs: E) -> Self {
        arbitrary()
    }
}

impl<E: Coefficient> core::ops::Div<E> for ChebyshevSeries<E> {
    type Output = Self;

    /// Every coefficient multiplied by `1 / rhs`, trimmed.
    fn div(self, rhs: E) -> (r: Self)
        ensures
            r.dom() == self.dom(),
            1 <= r.coeffs().len() <= self.coeffs().len(),
            lawful::<E>() ==> r.coeffs() == trim_zeros(scaled(self.coeffs(), one::<E>().div_spec(rhs))),
    {
        proof {
            use_type_invariant(&self);
        }
        let ChebyshevSeries { coefficients, domain } = self;
        let mut coefficients = coefficients;
        coefficients.scale_mut(e_div(one_value::<E>(), rhs));
        ChebyshevSeries::from_parts(coefficients.trimmed(), domain)
    }
}

impl<E: Coefficient> vstd::std_specs::ops::DivSpecImpl<E> for ChebyshevSeries<E> {
    open spec fn obeys_div_spec() -> bool {
        false
    }

    open spec fn div_req(self, rhs: E) -> bool {
        true
    }

    closed spec fn div_spec(self, rhs: E) -> Self {
        arbitrary()
    }
}

} // verus!
