//! Affine maps between a physical domain `[a, b]` and the scaled interval
//! `[-1, 1]` on which Chebyshev polynomials live.
use core::ops::Range;
use vstd::prelude::*;
use vstd::std_specs::ops::{AddSpec, SubSpec, MulSpec, DivSpec};
use vstd::std_specs::cmp::{PartialEqSpec, PartialOrdSpec, PartialEqIs, PartialOrdIs};
use vstd::std_specs::convert::FromSpec;
use num_traits::Float;
use crate::scalar::{Coefficient, lawful, total_on_finite, lemma_total_order, one, two, finite, one_value, two_value, e_add, e_sub, e_mul, e_div, is_finite};

verus! {

/// `2 (x - a) / (b - a) - 1`.
pub open spec fn scaled_coordinate<E: Coefficient>(x: E, domain: Range<E>) -> E {
    two::<E>().mul_spec(x.sub_spec(domain.start)).div_spec(domain.end.sub_spec(domain.start)).sub_spec(one::<E>())
}

/// `a + (t + 1) (b - a) / 2`.
pub open spec fn physical_coordinate<E: Coefficient>(t: E, domain: Range<E>) -> E {
    domain.start.add_spec(t.add_spec(one::<E>()).mul_spec(domain.end.sub_spec(domain.start)).div_spec(two::<E>()))
}

/// Both end points are finite and the start lies below the end.
pub open spec fn valid_domain<E: Coefficient>(domain: Range<E>) -> bool {
    finite(domain.start) && finite(domain.end) && domain.start.is_lt(&domain.end)
}

/// `a <= x <= b` for the domain `[a, b]`.
pub open spec fn between<E: Coefficient>(x: E, domain: Range<E>) -> bool {
    domain.start.is_le(&x) && x.is_le(&domain.end)
}

/// `x` held to `[a, b]`: below `a` gives `a`, above `b` gives `b`.
pub open spec fn clamped<E: Coefficient>(x: E, domain: Range<E>) -> E {
    if x.is_lt(&domain.start) {
        domain.start
    } else if x.is_gt(&domain.end) {
        domain.end
    } else {
        x
    }
}

/// Map a physical coordinate `x ∈ [a, b]` to `t ∈ [-1, 1]`.
pub fn to_scaled<E: Coefficient>(x: E, domain: &Range<E>) -> (r: E)
    ensures
        lawful::<E>() ==> r == scaled_coordinate(x, *domain),
{
    let two_e = two_value::<E>();
    let one_e = one_value::<E>();
    e_sub(e_div(e_mul(two_e, e_sub(x, domain.start)), e_sub(domain.end, domain.start)), one_e)
}

/// Map a scaled coordinate `t ∈ [-1, 1]` to `x ∈ [a, b]`.
pub fn from_scaled<E: Coefficient>(t: E, domain: &Range<E>) -> (r: E)
    ensures
        lawful::<E>() ==> r == physical_coordinate(t, *domain),
{
    let two_e = two_value::<E>();
    let one_e = one_value::<E>();
    e_add(domain.start, e_div(e_mul(e_add(t, one_e), e_sub(domain.end, domain.start)), two_e))
}

/// Return the physical width of a domain.
pub fn domain_width<E: Coefficient>(domain: &Range<E>) -> (r: E)
    ensures
        lawful::<E>() ==> r == domain.end.sub_spec(domain.start),
{
    e_sub(domain.end, domain.start)
}

/// Return the midpoint of a domain, `(a + b) / (1 + 1)`.
pub fn domain_midpoint<E: Coefficient>(domain: &Range<E>) -> (r: E)
    ensures
        lawful::<E>() ==> r == domain.start.add_spec(domain.end).div_spec(one::<E>().add_spec(one::<E>())),
{
    let one_e = one_value::<E>();
    e_div(e_add(domain.start, domain.end), e_add(one_e, one_e))
}

/// Return `true` if the domain is finite and has positive width.
pub fn is_valid_domain<E: Coefficient + Float>(domain: &Range<E>) -> (r: bool)
    ensures
        r ==> finite(domain.start) && finite(domain.end),
        !finite(domain.start) || !finite(domain.end) ==> !r,
        lawful::<E>() ==> r == valid_domain(*domain),
{
    is_finite(domain.start) && is_finite(domain.end) && domain.start < domain.end
}

/// Clamp a value to the physical domain.
pub fn clamp_to_domain<E: Coefficient>(x: E, domain: &Range<E>) -> (r: E)
    ensures
        r == x || r == domain.start || r == domain.end,
        lawful::<E>() ==> r == clamped(x, *domain),
        lawful::<E>() && total_on_finite::<E>() && finite(x) && finite(domain.start) && finite(domain.end)
            && domain.start.is_le(&domain.end) ==> between(r, *domain) && (between(x, *domain) ==> r == x),
{
    proof {
        if lawful::<E>() && total_on_finite::<E>() && finite(x) && finite(domain.start) && finite(domain.end) {
            lemma_total_order(x, domain.start, domain.end);
            lemma_total_order(domain.start, x, domain.end);
            lemma_total_order(domain.end, x, domain.start);
            lemma_total_order(domain.start, domain.end, x);
            lemma_total_order(domain.end, domain.start, x);
            lemma_total_order(x, domain.end, domain.start);
            lemma_total_order(domain.start, domain.start, x);
            lemma_total_order(domain.end, domain.end, x);
        }
    }
    if x < domain.start {
        domain.start
    } else if x > domain.end {
        domain.end
    } else {
        x
    }
}

} // verus!
