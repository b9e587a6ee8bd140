//! Polynomials in the first-kind Chebyshev basis, `p(t) = Σ c_n T_n(t)`,
//! on a physical domain `[a, b]` mapped onto `t ∈ [-1, 1]`.
//!
//! Coefficients are stored in ascending order of degree, trimmed of trailing
//! zeros (the zero polynomial is `[0]`).  Evaluation uses Clenshaw's
//! recurrence, multiplication goes through z-series convolution.
use core::ops::Range;
use vstd::prelude::*;
use vstd::std_specs::ops::{AddSpec, SubSpec, MulSpec, DivSpec};
use vstd::std_specs::convert::{FromSpec, IntoSpec};
use num_traits::Float;
use crate::scalar::{Coefficient, lawful, zero, two, nat_value, finite, is_zero_value, zero_value, two_value, nat_values, e_add, e_sub, e_mul, e_div, is_finite};
use crate::scaling::{scaled_coordinate, valid_domain, is_valid_domain, to_scaled};
use crate::c_series::{CSeries, coeff_at, trim_zeros, scaled, max_len, lemma_trim_zeros_canonical};
use crate::error::ChebyshevError;
use crate::traits::PolynomialSeries;

pub mod coeff;
pub mod domain;
pub mod fitting;
pub mod integrate;
pub mod interpolate;
pub mod roots;
pub mod ops;
pub mod truncate;

verus! {

/// The state `(b_m, b_{m+1})` of Clenshaw's recurrence once the coefficients
/// from index `m` upwards have been folded in, with `t2 = t + t`.
pub open spec fn clenshaw_state<E: Coefficient>(c: Seq<E>, t2: E, m: int) -> (E, E)
    decreases c.len() - m,
{
    if m >= c.len() - 2 {
        (c[c.len() - 2], c[c.len() - 1])
    } else {
        let (b0, b1) = clenshaw_state(c, t2, m + 1);
        (c[m].sub_spec(b1), b0.add_spec(b1.mul_spec(t2)))
    }
}

/// The value of `Σ c_n T_n(t)` as Clenshaw's recurrence computes it.
pub open spec fn clenshaw_value<E: Coefficient>(c: Seq<E>, t: E) -> E {
    if c.len() < 3 {
        coeff_at(c, 0).add_spec(t.mul_spec(coeff_at(c, 1)))
    } else {
        let (b0, b1) = clenshaw_state(c, t.add_spec(t), 0);
        b0.add_spec(t.mul_spec(b1))
    }
}

/// `2 k c_k` for the derivative recurrence.
pub open spec fn derivative_term<E: Coefficient>(c: Seq<E>, k: int) -> E {
    two::<E>().mul_spec(nat_value::<E>(k as nat)).mul_spec(c[k])
}

/// Coefficient `k ≥ 1` of the derivative with respect to `t` of the series
/// of degree `n = c.len() - 1`: `d_{n-1} = 2n c_n`, `d_{n-2} = 2(n-1)
/// c_{n-1}`, and `d_k = d_{k+2} + 2(k+1) c_{k+1}` below.
pub open spec fn derivative_interior<E: Coefficient>(c: Seq<E>, k: int) -> E
    decreases c.len() - k,
{
    let n = c.len() - 1;
    if k >= n - 1 {
        derivative_term(c, n)
    } else if k == n - 2 {
        derivative_term(c, n - 1)
    } else {
        derivative_interior(c, k + 2).add_spec(derivative_term(c, k + 1))
    }
}

/// The derivative coefficients with respect to `t` of a series of degree
/// at least one, before trimming: `d_0 = c_1` for degree one or two, and
/// `d_0 = c_1 + d_2 / 2` above.
pub open spec fn derivative_untrimmed<E: Coefficient>(c: Seq<E>) -> Seq<E> {
    let n = c.len() - 1;
    Seq::new(
        n as nat,
        |k: int|
            if k == 0 {
                if n <= 2 {
                    c[1]
                } else {
                    c[1].add_spec(derivative_interior(c, 2).div_spec(two::<E>()))
                }
            } else {
                derivative_interior(c, k)
            },
    )
}

/// The coefficients of the derivative with respect to `t`: zero for a
/// constant, else the trimmed recurrence.
pub open spec fn scaled_derivative<E: Coefficient>(c: Seq<E>) -> Seq<E> {
    if c.len() <= 1 {
        seq![zero::<E>()]
    } else {
        trim_zeros(derivative_untrimmed(c))
    }
}

/// `dt/dx = 2 / (b - a)`.
pub open spec fn chain_factor<E: Coefficient>(domain: Range<E>) -> E {
    two::<E>().div_spec(domain.end.sub_spec(domain.start))
}

/// The coefficients of the derivative with respect to the physical
/// coordinate `x`.
pub open spec fn physical_derivative<E: Coefficient>(c: Seq<E>, domain: Range<E>) -> Seq<E> {
    scaled(scaled_derivative(c), chain_factor(domain))
}

/// The coefficients after `order` physical derivatives.
pub open spec fn iterated_derivative<E: Coefficient>(c: Seq<E>, domain: Range<E>, order: nat) -> Seq<E>
    decreases order,
{
    if order == 0 {
        c
    } else {
        physical_derivative(iterated_derivative(c, domain, (order - 1) as nat), domain)
    }
}

/// Every element of `s` is finite.
pub open spec fn all_finite<E: Coefficient>(s: Seq<E>) -> bool {
    forall|i: int| 0 <= i < s.len() ==> finite(#[trigger] s[i])
}

/// What building a series from the coefficients `c` on `domain` gives:
/// the domain error exactly when the domain is not finite with start below
/// end; then the coefficient error exactly when a coefficient, once trailing
/// zeros are trimmed, is not finite; else the trimmed coefficients on the
/// domain.
pub open spec fn builds<E: Coefficient>(r: Result<ChebyshevSeries<E>, ChebyshevError>, c: Seq<E>, domain: Range<E>) -> bool {
    &&& (!finite(domain.start) || !finite(domain.end)) ==> (r matches Err(ChebyshevError::InvalidDomain))
    &&& (r matches Err(ChebyshevError::InvalidDomain)) || (r matches Err(ChebyshevError::InvalidCoefficients)) || r is Ok
    &&& (r matches Ok(s) ==> s.dom() == domain && finite(domain.start) && finite(domain.end) && all_finite(s.coeffs()))
    &&& lawful::<E>() ==> ((r matches Err(ChebyshevError::InvalidDomain)) <==> !valid_domain(domain))
    &&& lawful::<E>() ==> ((r matches Err(ChebyshevError::InvalidCoefficients)) <==> (valid_domain(domain) && !all_finite(trim_zeros(c))))
    &&& lawful::<E>() ==> ((r matches Err(ChebyshevError::InvalidCoefficients)) <==> (valid_domain(domain) && !all_finite(c)))
    &&& lawful::<E>() ==> (r matches Ok(s) ==> s.coeffs() == trim_zeros(c) && all_finite(c))
}

/// Trimming removes only values equal to zero, which are finite, so the
/// trimmed coefficients are all finite exactly when the coefficients are.
pub proof fn lemma_trim_zeros_finite<E: Coefficient>(s: Seq<E>)
    requires
        lawful::<E>(),
    ensures
        all_finite(trim_zeros(s)) <==> all_finite(s),
    decreases s.len(),
{
    if s.len() == 0 {
        assert(trim_zeros(s) =~= seq![zero::<E>()]);
    } else if s.len() > 1 && is_zero_value(s.last()) {
        lemma_trim_zeros_finite(s.drop_last());
        assert(finite(s.last()));
        if all_finite(s.drop_last()) {
            assert forall|i: int| 0 <= i < s.len() implies finite(#[trigger] s[i]) by {
                if i < s.len() - 1 {
                    assert(s[i] == s.drop_last()[i]);
                }
            }
        }
        if all_finite(s) {
            assert forall|i: int| 0 <= i < s.drop_last().len() implies finite(#[trigger] s.drop_last()[i]) by {
                assert(s.drop_last()[i] == s[i]);
            }
        }
    }
}

/// The coefficients that a conversion into a coefficient series gives.
pub open spec fn converted<E: Coefficient, C: Into<CSeries<E>>>(c: C) -> Seq<E> {
    c.into_spec()@
}

/// A Chebyshev series on a physical domain.
#[derive(Debug)]
pub struct ChebyshevSeries<E> {
    coefficients: CSeries<E>,
    domain: Range<E>,
}

impl<E> ChebyshevSeries<E> {
    #[verifier::type_invariant]
    spec fn has_coefficients(&self) -> bool {
        self.coefficients@.len() >= 1
    }
}

impl<E: Coefficient> ChebyshevSeries<E> {
    /// The stored Chebyshev coefficients.
    pub closed spec fn coeffs(&self) -> Seq<E> {
        self.coefficients@
    }

    /// The physical domain.
    pub closed spec fn dom(&self) -> Range<E> {
        self.domain
    }

    /// Assemble a series from stored coefficients and a domain.
    pub(crate) fn from_parts(coefficients: CSeries<E>, domain: Range<E>) -> (r: Self)
        requires
            coefficients@.len() >= 1,
        ensures
            r.coeffs() == coefficients@,
            r.dom() == domain,
    {
        ChebyshevSeries { coefficients, domain }
    }

    /// Borrow the stored coefficient series.
    pub(crate) fn c_series(&self) -> (r: &CSeries<E>)
        ensures
            r@ == self.coeffs(),
            r@.len() >= 1,
    {
        proof {
            use_type_invariant(self);
        }
        &self.coefficients
    }

    /// Build a series from coefficients and a domain: the domain must be
    /// finite with start below end, the coefficients are trimmed of trailing
    /// zeros and must all be finite.
    pub fn new<C>(coefficients: C, domain: Range<E>) -> (r: Result<Self, ChebyshevError>)
        where
            C: Into<CSeries<E>>,
            E: Float,
        ensures
            !finite(domain.start) || !finite(domain.end) ==> r matches Err(ChebyshevError::InvalidDomain),
            lawful::<E>() ==> (r matches Err(ChebyshevError::InvalidDomain) <==> !valid_domain(domain)),
            r matches Err(ChebyshevError::InvalidDomain) || r matches Err(ChebyshevError::InvalidCoefficients) || r is Ok,
            r matches Ok(s) ==> s.dom() == domain && finite(domain.start) && finite(domain.end),
            r matches Ok(s) ==> all_finite(s.coeffs()),
            lawful::<E>() && C::obeys_into_spec() ==> (r matches Err(ChebyshevError::InvalidCoefficients) <==> valid_domain(domain)
                && !all_finite(trim_zeros(converted(coefficients)))),
            lawful::<E>() && C::obeys_into_spec() ==> (r matches Ok(s) ==> s.coeffs() == trim_zeros(converted(coefficients))),
            lawful::<E>() && C::obeys_into_spec() ==> (r matches Err(ChebyshevError::InvalidCoefficients) <==> valid_domain(domain)
                && !all_finite(converted(coefficients))),
            lawful::<E>() && C::obeys_into_spec() ==> (r matches Ok(_) ==> all_finite(converted(coefficients))),
    {
        proof {
            if lawful::<E>() && C::obeys_into_spec() {
                lemma_trim_zeros_finite(converted(coefficients));
            }
        }
        if !is_valid_domain(&domain) {
            return Err(ChebyshevError::InvalidDomain);
        }
        let ghost input = converted(coefficients);
        let series: CSeries<E> = coefficients.into();

        let trimmed = series.trimmed();
        let c = trimmed.as_slice();
        let mut i: usize = 0;
        while i < c.len()
            invariant
                i <= c@.len(),
                c@ == trimmed@,
                lawful::<E>() && C::obeys_into_spec() ==> c@ == trim_zeros(input),
                input == converted::<E, C>(coefficients),
                finite(domain.start) && finite(domain.end),
                lawful::<E>() ==> valid_domain(domain),
                forall|j: int| 0 <= j < i ==> finite(#[trigger] c@[j]),
            decreases c@.len() - i,
        {
            if !is_finite(c[i]) {
                proof {
                    assert(!finite(c@[i as int]));
                    if lawful::<E>() && C::obeys_into_spec() {
                        assert(!finite(trim_zeros(input)[i as int]));
                        assert(!all_finite(trim_zeros(input)));
                        lemma_trim_zeros_finite(input);

                    }
                }
                return Err(ChebyshevError::InvalidCoefficients);
            }
            i = i + 1;
        }
        Ok(ChebyshevSeries { coefficients: trimmed, domain })
    }

    /// Build a series from a vector of coefficients.
    pub fn from_vec(coefficients: Vec<E>, domain: Range<E>) -> (r: Result<Self, ChebyshevError>)
        where
            E: Float,
        ensures
            builds(r, coefficients@, domain),
    {
        proof {
            crate::c_series::lemma_from_vec_view::<E>(coefficients);
            if lawful::<E>() {
                lemma_trim_zeros_finite(coefficients@);
            }
        }
        Self::new(coefficients, domain)
    }

    /// Return the coefficients in ascending order of degree.
    pub fn coefficients(&self) -> (r: &[E])
        ensures
            r@ == self.coeffs(),
    {
        self.coefficients.as_slice()
    }

    /// Return the coefficients, giving up the series.
    pub fn into_coefficients(self) -> (r: Vec<E>)
        ensures
            r@ == self.coeffs(),
    {
        self.coefficients.into_vec()
    }

    /// The derivative with respect to the scaled coordinate `t`.
    fn first_derivative_scaled(&self) -> (r: Self)
        ensures
            r.dom() == self.dom(),
            r.coeffs().len() >= 1,
            r.coeffs().len() <= max_len((self.coeffs().len() - 1) as nat, 1),
            lawful::<E>() ==> r.coeffs() == scaled_derivative(self.coeffs()),
    {
        proof {
            use_type_invariant(self);
        }
        let c = self.coefficients.as_slice();
        let degree = c.len() - 1;
        if degree == 0 {
            return ChebyshevSeries { coefficients: CSeries::zero(), domain: Range { start: self.domain.start, end: self.domain.end } };
        }
        let ghost cs = c@;
        let nats = nat_values::<E>(degree);
        let two_e = two_value::<E>();
        let z = zero_value::<E>();
        let mut d: Vec<E> = Vec::new();
        let mut i: usize = 0;
        while i < degree
            invariant
                i <= degree,
                d@.len() == i,
            decreases degree - i,
        {
            d.push(z);
            i = i + 1;
        }
        // Highest derivative coefficient.
        d.set(degree - 1, e_mul(e_mul(two_e, nats[degree]), c[degree]));
        // Second-highest derivative coefficient.
        if degree >= 2 {
            d.set(degree - 2, e_mul(e_mul(two_e, nats[degree - 1]), c[degree - 1]));
        }
        // Remaining interior coefficients, from the top down.
        if degree >= 3 {
            let mut k: usize = degree - 3;
            while k >= 1
                invariant
                    cs == c@,
                    cs.len() == degree + 1,
                    degree >= 3,
                    k <= degree - 3,
                    d@.len() == degree,
                    nats@.len() == degree + 1,
                    lawful::<E>() ==> two_e == two::<E>(),
                    lawful::<E>() ==> forall|j: int| 0 <= j <= degree ==> #[trigger] nats@[j] == nat_value::<E>(j as nat),
                    lawful::<E>() ==> forall|j: int| k < j < degree ==> #[trigger] d@[j] == derivative_interior(cs, j),
                decreases k,
            {
                let value = e_add(d[k + 2], e_mul(e_mul(two_e, nats[k + 1]), c[k + 1]));
                d.set(k, value);
                k = k - 1;
            }
        }
        // Constant coefficient.
        let constant = if degree <= 2 {
            c[1]
        } else {
            e_add(c[1], e_div(d[2], two_e))
        };
        d.set(0, constant);
        proof {
            if lawful::<E>() {
                assert(d@ =~= derivative_untrimmed(cs));
            }
        }
        ChebyshevSeries {
            coefficients: CSeries::new(d).trimmed(),
            domain: Range { start: self.domain.start, end: self.domain.end },
        }
    }

    /// The derivative with respect to the physical coordinate `x`: the
    /// derivative in `t` times `dt/dx = 2 / (b - a)`.
    fn first_derivative_physical(&self) -> (r: Self)
        ensures
            r.dom() == self.dom(),
            r.coeffs().len() >= 1,
            r.coeffs().len() <= max_len((self.coeffs().len() - 1) as nat, 1),
            lawful::<E>() ==> r.coeffs() == physical_derivative(self.coeffs(), self.dom()),
    {
        let derivative = self.first_derivative_scaled();
        let scale = e_div(two_value::<E>(), e_sub(self.domain.end, self.domain.start));
        let ChebyshevSeries { coefficients, domain } = derivative;
        let mut coefficients = coefficients;
        coefficients.scale_mut(scale);
        ChebyshevSeries { coefficients, domain }
    }
}

impl<E: Coefficient> Clone for ChebyshevSeries<E> {
    /// A copy of the coefficients and of the domain.
    fn clone(&self) -> (r: Self)
        ensures
            r.coeffs() == self.coeffs(),
            r.dom() == self.dom(),
    {
        proof {
            use_type_invariant(self);
        }
        ChebyshevSeries {
            coefficients: self.coefficients.duplicate(),
            domain: Range { start: self.domain.start, end: self.domain.end },
        }
    }
}

impl<E: Coefficient> PolynomialSeries<E> for ChebyshevSeries<E> {
    /// Clenshaw's recurrence at `t`.
    open spec fn scaled_value(&self, t: E) -> E {
        clenshaw_value(self.coeffs(), t)
    }

    /// Clenshaw's recurrence at the scaled image of `x`.
    open spec fn value(&self, x: E) -> E {
        clenshaw_value(self.coeffs(), scaled_coordinate(x, self.dom()))
    }

    open spec fn evaluation_specified() -> bool {
        lawful::<E>()
    }

    /// The derivative keeps the domain, has one coefficient fewer (at
    /// least one), and holds the physical derivative's coefficients.
    open spec fn differentiates_to(&self, d: Self) -> bool {
        &&& d.dom() == self.dom()
        &&& d.coeffs().len() <= max_len((self.coeffs().len() - 1) as nat, 1)
        &&& lawful::<E>() ==> d.coeffs() == physical_derivative(self.coeffs(), self.dom())
    }

    open spec fn domain_spec(&self) -> Range<E> {
        self.dom()
    }

    /// Evaluate by Clenshaw's recurrence at the scaled coordinate `t`.
    fn evaluate_scaled(&self, t: E) -> (r: E)
        ensures
            lawful::<E>() ==> r == clenshaw_value(self.coeffs(), t),
    {
        proof {
            use_type_invariant(self);
        }
        let c = self.coefficients.as_slice();
        let n = c.len();
        let z = zero_value::<E>();
        if n < 3 {
            let c0 = c[0];
            let c1 = if n > 1 { c[1] } else { z };
            return e_add(c0, e_mul(t, c1));
        }
        let t2 = e_add(t, t);
        let mut b1 = c[n - 1];
        let mut b0 = c[n - 2];
        let mut m: usize = n - 2;
        while m > 0
            invariant
                n == c@.len(),
                n >= 3,
                m <= n - 2,
                lawful::<E>() ==> (b0, b1) == clenshaw_state(c@, t2, m as int),
            decreases m,
        {
            let next = c[m - 1];
            let previous = b0;
            b0 = e_sub(next, b1);
            b1 = e_add(previous, e_mul(b1, t2));
            m = m - 1;
        }
        e_add(b0, e_mul(t, b1))
    }

    /// Evaluate at the physical coordinate `x`, through its scaled image.
    fn evaluate(&self, x: E) -> (r: E)
        ensures
            lawful::<E>() ==> r == clenshaw_value(self.coeffs(), scaled_coordinate(x, self.dom())),
    {
        self.evaluate_scaled(to_scaled(x, &self.domain))
    }

    /// The derivative with respect to the physical coordinate.
    fn first_derivative(&self) -> (r: Self)
        ensures
            r.dom() == self.dom(),
            r.coeffs().len() <= max_len((self.coeffs().len() - 1) as nat, 1),
            lawful::<E>() ==> r.coeffs() == physical_derivative(self.coeffs(), self.dom()),
    {
        self.first_derivative_physical()
    }

    /// The derivative of order `order`: `order` first derivatives in turn.
    fn derivative(&self, order: usize) -> (r: Self)
        ensures
            r.dom() == self.dom(),
            order == 0 ==> r.coeffs() == self.coeffs(),
            r.coeffs().len() <= max_len(if order < self.coeffs().len() { (self.coeffs().len() - order) as nat } else { 0 }, 1),
            lawful::<E>() ==> r.coeffs() == iterated_derivative(self.coeffs(), self.dom(), order as nat),
    {
        proof {
            use_type_invariant(self);
        }
        let mut current = self.clone();
        let mut i: usize = 0;
        while i < order
            invariant
                i <= order,
                current.dom() == self.dom(),
                self.coeffs().len() >= 1,
                i == 0 ==> current.coeffs() == self.coeffs(),
                current.coeffs().len() >= 1,
                current.coeffs().len() <= max_len(if i < self.coeffs().len() { (self.coeffs().len() - i) as nat } else { 0 }, 1),
                lawful::<E>() ==> current.coeffs() == iterated_derivative(self.coeffs(), self.dom(), i as nat),
            decreases order - i,
        {
            let ghost previous = current.coeffs().len();
            current = current.first_derivative_physical();
            proof {
                use_type_invariant(&current);
            }
            i = i + 1;
            proof {
                let l = self.coeffs().len();
                if i <= l {
                    assert(previous <= l - i + 1);
                } else {
                    assert(previous <= 1);
                }
            }
        }
        current
    }

    /// The degree: the number of stored coefficients less one.
    fn degree(&self) -> (r: usize)
        ensures
            r == self.coeffs().len() - 1,
    {
        proof {
            use_type_invariant(self);
        }
        self.coefficients.degree()
    }

    /// The physical domain.
    fn domain(&self) -> (r: Range<E>)
        ensures
            r == self.dom(),
    {
        Range { start: self.domain.start, end: self.domain.end }
    }

    /// The zero series `[0]` on `domain`; the domain is not checked.
    fn zero(domain: Range<E>) -> (r: Self)
        ensures
            r.dom() == domain,
            r.coeffs().len() == 1,
            lawful::<E>() ==> r.coeffs() == seq![zero::<E>()],
    {
        ChebyshevSeries { coefficients: CSeries::zero(), domain }
    }

    /// Whether every stored coefficient is zero.
    fn is_zero(&self) -> (r: bool)
        ensures
            lawful::<E>() ==> (r <==> forall|i: int| 0 <= i < self.coeffs().len() ==> #[trigger] is_zero_value(self.coeffs()[i])),
    {
        proof {
            assert(self.coeffs() == self.coefficients@);
        }
        self.coefficients.is_zero()
    }
}

} // verus!
