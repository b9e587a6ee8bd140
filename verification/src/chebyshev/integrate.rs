//! Antiderivatives and definite integrals of Chebyshev series.
use core::ops::Range;
use vstd::prelude::*;
use vstd::std_specs::ops::{AddSpec, SubSpec, MulSpec, DivSpec};
use crate::scalar::{Coefficient, lawful, zero, one, two, four, nat_value, zero_value, one_value, two_value, four_value, e_add, e_sub, e_mul, e_div};
use crate::scaling::scaled_coordinate;
use crate::c_series::{CSeries, trim_zeros, scaled};
use crate::traits::{PolynomialSeries, PolynomialIntegrals};
use crate::scaling::valid_domain;
use super::{ChebyshevSeries, clenshaw_value, all_finite};

verus! {

/// Coefficient `k` of the integral with respect to `t` once the terms
/// `n = 2, ..., m - 1` of the recurrence have been added:
/// `∫ T_0 = T_1`, `∫ T_1 = T_2 / 4`, and `∫ T_n = T_{n+1} / (2(n+1)) -
/// T_{n-1} / (2(n-1))`.
pub open spec fn integral_entry<E: Coefficient>(c: Seq<E>, k: int, m: int) -> E {
    let degree = c.len() - 1;
    let base = if k == 1 {
        zero::<E>().add_spec(c[0])
    } else if k == 2 {
        zero::<E>().add_spec(c[1].div_spec(four::<E>()))
    } else {
        zero::<E>()
    };
    let raised = if 3 <= k && k - 1 < m && k - 1 <= degree {
        base.add_spec(c[k - 1].div_spec(two::<E>().mul_spec(nat_value::<E>(k as nat))))
    } else {
        base
    };
    if 1 <= k && k + 1 < m && k + 1 <= degree {
        raised.sub_spec(c[k + 1].div_spec(two::<E>().mul_spec(nat_value::<E>(k as nat))))
    } else {
        raised
    }
}

/// The coefficients of the integral with respect to `t` with constant term
/// zero: one more than `c` holds.
pub open spec fn integral_coefficients<E: Coefficient>(c: Seq<E>) -> Seq<E> {
    if c.len() == 0 {
        seq![zero::<E>()]
    } else if c.len() == 1 {
        seq![zero::<E>(), c[0]]
    } else {
        Seq::new(c.len() + 1, |k: int| integral_entry(c, k, c.len() as int))
    }
}

/// `dx/dt = (b - a) / 2`.
pub open spec fn half_width<E: Coefficient>(domain: Range<E>) -> E {
    domain.end.sub_spec(domain.start).div_spec(two::<E>())
}

/// The antiderivative with respect to the physical coordinate with the
/// given constant term.
pub open spec fn antiderivative_coefficients<E: Coefficient>(c: Seq<E>, domain: Range<E>, constant: E) -> Seq<E> {
    let s = scaled(integral_coefficients(c), half_width(domain));
    trim_zeros(s.update(0, s[0].add_spec(constant)))
}

/// The coefficients of the integral with respect to `t` of the series `c`,
/// constant term zero.
pub fn integrate_chebyshev_coefficients<E: Coefficient>(coefficients: &[E]) -> (r: Vec<E>)
    ensures
        r@.len() == integral_coefficients(coefficients@).len(),
        lawful::<E>() ==> r@ == integral_coefficients(coefficients@),
{
    let len = coefficients.len();
    let z = zero_value::<E>();
    if len == 0 {
        let mut integral: Vec<E> = Vec::new();
        integral.push(z);
        return integral;
    }
    let degree = len - 1;
    let mut integral: Vec<E> = Vec::new();
    integral.push(z);
    let mut i: usize = 0;
    while i < len
        invariant
            i <= len,
            integral@.len() == i + 1,
            forall|j: int| 0 <= j < integral@.len() ==> #[trigger] integral@[j] == z,
        decreases len - i,
    {
        integral.push(z);
        i = i + 1;
    }
    if degree == 0 {
        integral.set(1, coefficients[0]);
        proof {
            if lawful::<E>() {
                assert(integral@ =~= integral_coefficients(coefficients@));
            }
        }
        return integral;
    }
    let ghost c = coefficients@;
    let two_e = two_value::<E>();
    let four_e = four_value::<E>();
    let one_e = one_value::<E>();
    // c0 T0 integrates to c0 T1.
    let first = e_add(integral[1], coefficients[0]);
    integral.set(1, first);
    // c1 T1 integrates to c1 T2 / 4.
    let second = e_add(integral[2], e_div(coefficients[1], four_e));
    integral.set(2, second);
    let mut below = e_add(z, one_e);
    let mut above = e_add(e_add(e_add(z, one_e), one_e), one_e);
    proof {
        if lawful::<E>() {
            assert(nat_value::<E>(1) == nat_value::<E>(0).add_spec(one::<E>()));
            assert(nat_value::<E>(2) == nat_value::<E>(1).add_spec(one::<E>()));
            assert(nat_value::<E>(3) == nat_value::<E>(2).add_spec(one::<E>()));
        }
    }
    let mut n: usize = 2;
    while n <= degree
        invariant
            c == coefficients@,
            len == c.len(),
            degree == len - 1,
            degree >= 1,
            2 <= n <= degree + 1,
            integral@.len() == len + 1,
            lawful::<E>() ==> two_e == two::<E>(),
            lawful::<E>() ==> one_e == one::<E>(),
            lawful::<E>() ==> below == nat_value::<E>((n - 1) as nat),
            lawful::<E>() ==> above == nat_value::<E>((n + 1) as nat),
            lawful::<E>() ==> forall|k: int| 0 <= k <= len ==> #[trigger] integral@[k] == integral_entry(c, k, n as int),
        decreases degree + 1 - n,
    {
        let lower = e_sub(integral[n - 1], e_div(coefficients[n], e_mul(two_e, below)));
        integral.set(n - 1, lower);
        let upper = e_add(integral[n + 1], e_div(coefficients[n], e_mul(two_e, above)));
        integral.set(n + 1, upper);
        below = e_add(below, one_e);
        above = e_add(above, one_e);
        proof {
            if lawful::<E>() {
                assert(nat_value::<E>(n as nat) == nat_value::<E>((n - 1) as nat).add_spec(one::<E>()));
                assert(nat_value::<E>((n + 2) as nat) == nat_value::<E>((n + 1) as nat).add_spec(one::<E>()));
                assert forall|k: int| 0 <= k <= len implies #[trigger] integral@[k] == integral_entry(c, k, n + 1) by {
                }
            }
        }
        n = n + 1;
    }
    proof {
        if lawful::<E>() {
            assert(integral@ =~= integral_coefficients(c));
        }
    }
    integral
}

impl<E: Coefficient> PolynomialIntegrals<E> for ChebyshevSeries<E> {
    /// The domain is valid and, for a type whose arithmetic follows its
    /// specification, every antiderivative coefficient is finite: the
    /// antiderivative passes the checks of construction.
    open spec fn integrable_with(&self, constant: E) -> bool {
        &&& valid_domain(self.dom())
        &&& lawful::<E>() ==> all_finite(antiderivative_coefficients(self.coeffs(), self.dom(), constant))
    }

    open spec fn integrable(&self) -> bool {
        self.integrable_with(zero::<E>())
    }

    /// `F(end) - F(start)` for the antiderivative `F` with constant zero,
    /// each evaluated by Clenshaw's recurrence.
    open spec fn integral(&self, interval: Range<E>) -> E {
        clenshaw_value(antiderivative_coefficients(self.coeffs(), self.dom(), zero::<E>()), scaled_coordinate(interval.end, self.dom())).sub_spec(
            clenshaw_value(antiderivative_coefficients(self.coeffs(), self.dom(), zero::<E>()), scaled_coordinate(interval.start, self.dom())))
    }

    open spec fn integration_specified() -> bool {
        lawful::<E>()
    }

    /// The antiderivative with constant term zero.
    fn antiderivative(&self) -> (r: Self)
        ensures
            r.dom() == self.dom(),
            lawful::<E>() ==> r.coeffs() == antiderivative_coefficients(self.coeffs(), self.dom(), zero::<E>()),
    {
        self.antiderivative_with_constant(zero_value::<E>())
    }

    /// The antiderivative with respect to `x`: the integral in `t` times
    /// `dx/dt = (b - a) / 2`, plus `constant` on the constant term, trimmed.
    fn antiderivative_with_constant(&self, constant: E) -> (r: Self)
        ensures
            r.dom() == self.dom(),
            lawful::<E>() ==> r.coeffs() == antiderivative_coefficients(self.coeffs(), self.dom(), constant),
    {
        let c = self.c_series();
        let mut integral = CSeries::new(integrate_chebyshev_coefficients(c.as_slice()));
        let scale = e_div(e_sub(self.domain.end, self.domain.start), two_value::<E>());
        integral.scale_mut(scale);
        let mut coefficients = integral.into_vec();
        let shifted = e_add(coefficients[0], constant);
        coefficients.set(0, shifted);
        proof {
            if lawful::<E>() {
                let s = scaled(integral_coefficients(self.coeffs()), half_width(self.dom()));
                assert(coefficients@ == s.update(0, s[0].add_spec(constant)));
            }
        }
        ChebyshevSeries::from_parts(CSeries::new(coefficients).trimmed(), Range { start: self.domain.start, end: self.domain.end })
    }

    /// `F(end) - F(start)` for the antiderivative `F`.
    fn definite_integral(&self, interval: Range<E>) -> (r: E)
        ensures
            lawful::<E>() ==> r == clenshaw_value(antiderivative_coefficients(self.coeffs(), self.dom(), zero::<E>()), scaled_coordinate(interval.end, self.dom())).sub_spec(
                clenshaw_value(antiderivative_coefficients(self.coeffs(), self.dom(), zero::<E>()), scaled_coordinate(interval.start, self.dom()))),
    {
        let antiderivative = self.antiderivative();
        e_sub(antiderivative.evaluate(interval.end), antiderivative.evaluate(interval.start))
    }

    /// The definite integral over the whole physical domain.
    fn integral_over_domain(&self) -> (r: E)
        ensures
            lawful::<E>() ==> r == clenshaw_value(antiderivative_coefficients(self.coeffs(), self.dom(), zero::<E>()), scaled_coordinate(self.dom().end, self.dom())).sub_spec(
                clenshaw_value(antiderivative_coefficients(self.coeffs(), self.dom(), zero::<E>()), scaled_coordinate(self.dom().start, self.dom()))),
    {
        self.definite_integral(self.domain())
    }
}

} // verus!
