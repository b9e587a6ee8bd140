//! Properties that hold across the operations of the library, stated over
//! the specification functions that the operations' contracts use.
use core::ops::Range;
use vstd::prelude::*;
use crate::scalar::{Coefficient, lawful, is_zero_value, abs_value, zero, one, two, four, nat_value};
use vstd::std_specs::ops::{AddSpec, SubSpec, MulSpec, DivSpec, NegSpec};
use vstd::std_specs::convert::FromSpec;
use vstd::std_specs::cmp::{PartialOrdSpec, PartialOrdIs};
use crate::c_series::{trim_zeros, is_canonical, max_len, chebyshev_product, significant_len, trim_tolerance, lemma_trim_zeros_canonical, lemma_trim_zeros_of_canonical, lemma_significant_len_bound};
use crate::z_series::{z_of_c, convolution, c_of_z_untrimmed, c_len_of_z};
use crate::c_series::coeff_at;
use crate::scaling::{scaled_coordinate, physical_coordinate};
use crate::chebyshev::integrate::{integral_coefficients, integral_entry};
use crate::chebyshev::{ChebyshevSeries, builds, clenshaw_state, clenshaw_value, derivative_interior, derivative_term, scaled_derivative, derivative_untrimmed, physical_derivative, iterated_derivative};
use crate::error::ChebyshevError;

verus! {

/// Trimming gives coefficients in canonical form, and trimming them again
/// changes nothing.
pub proof fn law_trim_is_canonical_and_idempotent<E: Coefficient>(s: Seq<E>)
    requires
        lawful::<E>(),
    ensures
        is_canonical(trim_zeros(s)),
        trim_zeros(trim_zeros(s)) == trim_zeros(s),
{
    lemma_trim_zeros_canonical(s);
    lemma_trim_zeros_of_canonical(trim_zeros(s));
}

/// A series that construction returns stores its coefficients in canonical
/// form: no trailing zero unless it is the only coefficient.
pub proof fn law_constructed_series_is_canonical<E: Coefficient>(
    r: Result<ChebyshevSeries<E>, ChebyshevError>,
    c: Seq<E>,
    domain: Range<E>,
)
    requires
        lawful::<E>(),
        builds(r, c, domain),
        r is Ok,
    ensures
        r matches Ok(s) ==> is_canonical(s.coeffs()),
{
    lemma_trim_zeros_canonical(c);
}

/// Rebuilding a series from canonical coefficients, as `with_domain` does
/// on another domain, keeps those coefficients exactly.
pub proof fn law_rebuilding_keeps_canonical_coefficients<E: Coefficient>(
    r: Result<ChebyshevSeries<E>, ChebyshevError>,
    c: Seq<E>,
    domain: Range<E>,
)
    requires
        lawful::<E>(),
        is_canonical(c),
        builds(r, c, domain),
    ensures
        r matches Ok(s) ==> s.coeffs() == c && s.dom() == domain,
{
    lemma_trim_zeros_of_canonical(c);
}

/// Truncating canonical coefficients to a degree at least their own gives
/// them back unchanged.
pub proof fn law_truncate_at_or_above_degree<E: Coefficient>(c: Seq<E>, degree: nat)
    requires
        lawful::<E>(),
        is_canonical(c),
        degree + 1 >= c.len(),
    ensures
        trim_zeros(c.take(if degree + 1 <= c.len() { (degree + 1) as int } else { c.len() as int })) == c,
{
    assert(c.take(c.len() as int) =~= c);
    lemma_trim_zeros_of_canonical(c);
}

/// Trimming by a tolerance keeps the coefficients up to the last one whose
/// absolute value exceeds `|tolerance|`, and drops only coefficients whose
/// absolute value does not; when none exceeds it, the result is `[0]`.
pub proof fn law_trim_by_tolerance_drops_only_small_coefficients<E: Coefficient>(s: Seq<E>, tolerance: E)
    requires
        lawful::<E>(),
    ensures
        significant_len(s, abs_value(tolerance)) <= s.len(),
        forall|i: int| significant_len(s, abs_value(tolerance)) <= i < s.len()
            ==> !(#[trigger] abs_value(s[i])).is_gt(&abs_value(tolerance)),
        significant_len(s, abs_value(tolerance)) > 0 ==> abs_value(s[significant_len(s, abs_value(tolerance)) - 1]).is_gt(&abs_value(tolerance)),
        significant_len(s, abs_value(tolerance)) > 0 ==> trim_tolerance(s, tolerance) == trim_zeros(s.take(significant_len(s, abs_value(tolerance)) as int)),
        significant_len(s, abs_value(tolerance)) == 0 ==> trim_tolerance(s, tolerance).len() == 1,
{
    lemma_significant_len_bound(s, abs_value(tolerance));
}

/// Differentiating `m` times after `n` times is differentiating `m + n`
/// times.
pub proof fn law_derivatives_compose<E: Coefficient>(c: Seq<E>, domain: Range<E>, m: nat, n: nat)
    ensures
        iterated_derivative(iterated_derivative(c, domain, n), domain, m) == iterated_derivative(c, domain, m + n),
    decreases m,
{
    if m > 0 {
        law_derivatives_compose(c, domain, (m - 1) as nat, n);
        assert((m - 1 + n) as nat == (m + n - 1) as nat);
    }
}

/// One derivative lowers the number of coefficients by one, down to a
/// single coefficient.
proof fn lemma_physical_derivative_len<E: Coefficient>(c: Seq<E>, domain: Range<E>)
    requires
        lawful::<E>(),
        c.len() >= 1,
    ensures
        physical_derivative(c, domain).len() >= 1,
        physical_derivative(c, domain).len() <= max_len((c.len() - 1) as nat, 1),
{
    if c.len() > 1 {
        lemma_trim_zeros_canonical(derivative_untrimmed(c));
    }
}

/// Differentiating at least as many times as the degree leaves a single
/// coefficient: a series of degree zero.
pub proof fn law_derivative_beyond_degree_is_constant<E: Coefficient>(c: Seq<E>, domain: Range<E>, order: nat)
    requires
        lawful::<E>(),
        c.len() >= 1,
        order + 1 >= c.len(),
    ensures
        iterated_derivative(c, domain, order).len() == 1,
    decreases order,
{
    lemma_iterated_derivative_len(c, domain, order);
}

/// After `k` derivatives at most `len - k` coefficients remain, and at least
/// one.
proof fn lemma_iterated_derivative_len<E: Coefficient>(c: Seq<E>, domain: Range<E>, k: nat)
    requires
        lawful::<E>(),
        c.len() >= 1,
    ensures
        iterated_derivative(c, domain, k).len() >= 1,
        iterated_derivative(c, domain, k).len() <= max_len(if k < c.len() { (c.len() - k) as nat } else { 0 }, 1),
    decreases k,
{
    if k > 0 {
        lemma_iterated_derivative_len(c, domain, (k - 1) as nat);
        lemma_physical_derivative_len(iterated_derivative(c, domain, (k - 1) as nat), domain);
    }
}

/// The product of series with `m` and `n` coefficients, read back from the
/// convolution of their z-series, has `m + n - 1` coefficients before
/// trimming; the trimmed product has at most that many, and exactly that
/// many when the highest one read back is not zero.
pub proof fn law_product_degree<E: Coefficient>(a: Seq<E>, b: Seq<E>)
    requires
        lawful::<E>(),
        a.len() >= 1,
        b.len() >= 1,
    ensures
        z_of_c(a).len() == 2 * a.len() - 1,
        c_of_z_untrimmed(convolution(z_of_c(a), z_of_c(b))).len() == a.len() + b.len() - 1,
        chebyshev_product(a, b).len() <= a.len() + b.len() - 1,
        !is_zero_value(c_of_z_untrimmed(convolution(z_of_c(a), z_of_c(b))).last())
            ==> chebyshev_product(a, b).len() == a.len() + b.len() - 1,
{
    let u = c_of_z_untrimmed(convolution(z_of_c(a), z_of_c(b)));
    assert(convolution(z_of_c(a), z_of_c(b)).len() == 2 * a.len() + 2 * b.len() - 3);
    assert(c_len_of_z((2 * a.len() + 2 * b.len() - 3) as nat) == a.len() + b.len() - 1);
    lemma_trim_zeros_canonical(u);
    lemma_trim_zeros_canonical(trim_zeros(u));
    if !is_zero_value(u.last()) {
        lemma_trim_zeros_of_canonical(u);
        lemma_trim_zeros_of_canonical(trim_zeros(u));
    }
}

/// `val` reads values of `E` as integers, and on the values it reads the
/// arithmetic of `E` is exact: sums, differences, products and negations
/// are read as those of the integers, a quotient by a divisor of the
/// dividend as the integer quotient, and the small constants as
/// themselves.
pub open spec fn integer_exact<E: Coefficient>(val: spec_fn(E) -> int) -> bool {
    &&& forall|a: E, b: E| #[trigger] val(a.add_spec(b)) == val(a) + val(b)
    &&& forall|a: E, b: E| #[trigger] val(a.sub_spec(b)) == val(a) - val(b)
    &&& forall|a: E, b: E| #[trigger] val(a.mul_spec(b)) == val(a) * val(b)
    &&& forall|a: E| #[trigger] val(a.neg_spec()) == -val(a)
    &&& forall|a: E, b: E| val(b) != 0 && val(a) % val(b) == 0 ==> #[trigger] val(a.div_spec(b)) * val(b) == val(a)
    &&& forall|k: u8| #[trigger] val(E::from_spec(k)) == k as int
}

/// The Chebyshev polynomial `T_k` at the integer `t`: `T_0 = 1`, `T_1 = t`,
/// `T_k = 2 t T_{k-1} - T_{k-2}`.
pub open spec fn chebyshev_int(t: int, k: nat) -> int
    decreases k,
{
    if k == 0 {
        1
    } else if k == 1 {
        t
    } else {
        2 * t * chebyshev_int(t, (k - 1) as nat) - chebyshev_int(t, (k - 2) as nat)
    }
}

/// `Σ_{k ≥ m} val(c_k) T_k(t)` over the coefficients of `c`.
pub open spec fn chebyshev_sum<E: Coefficient>(c: Seq<E>, val: spec_fn(E) -> int, t: int, m: int) -> int
    decreases c.len() - m,
{
    if m < 0 || m >= c.len() {
        0
    } else {
        val(c[m]) * chebyshev_int(t, m as nat) + chebyshev_sum(c, val, t, m + 1)
    }
}

/// The state of Clenshaw's recurrence at `m` carries the tail of the sum
/// from `m` on: `Σ_{k ≥ m} c_k T_k = b_m T_m + b_{m+1} T_{m+1}`.
proof fn lemma_clenshaw_state_sum<E: Coefficient>(c: Seq<E>, t: E, val: spec_fn(E) -> int, m: int)
    requires
        integer_exact(val),
        c.len() >= 3,
        0 <= m <= c.len() - 2,
    ensures
        ({
            let (u, v) = clenshaw_state(c, t.add_spec(t), m);
            chebyshev_sum(c, val, val(t), m) == val(u) * chebyshev_int(val(t), m as nat)
                + val(v) * chebyshev_int(val(t), (m + 1) as nat)
        }),
    decreases c.len() - m,
{
    let x = val(t);
    let t2 = t.add_spec(t);
    if m == c.len() - 2 {
        assert(chebyshev_sum(c, val, x, m + 2) == 0);
        assert(chebyshev_sum(c, val, x, m + 1) == val(c[m + 1]) * chebyshev_int(x, (m + 1) as nat));
    } else {
        lemma_clenshaw_state_sum(c, t, val, m + 1);
        let (u, v) = clenshaw_state(c, t2, m + 1);
        let cm = val(c[m]);
        let uu = val(u);
        let vv = val(v);
        let t0 = chebyshev_int(x, m as nat);
        let t1 = chebyshev_int(x, (m + 1) as nat);
        let t2v = chebyshev_int(x, (m + 2) as nat);
        assert(t2v == 2 * x * t1 - t0);
        assert(val(t2) == 2 * x);
        assert(val(c[m].sub_spec(v)) == cm - vv);
        assert(val(v.mul_spec(t2)) == vv * (2 * x));
        assert(val(u.add_spec(v.mul_spec(t2))) == uu + vv * (2 * x));
        assert(cm * t0 + (uu * t1 + vv * t2v) == (cm - vv) * t0 + (uu + vv * (2 * x)) * t1) by (nonlinear_arith)
            requires
                t2v == 2 * x * t1 - t0,
        ;
    }
}

/// Clenshaw's recurrence evaluates the Chebyshev sum: wherever the
/// arithmetic of `E` is exact on integers, the value it computes for the
/// coefficients `c` at `t` is `Σ c_k T_k(t)` with `T_k` from the
/// three-term recurrence.
pub proof fn law_clenshaw_evaluates_the_chebyshev_sum<E: Coefficient>(c: Seq<E>, t: E, val: spec_fn(E) -> int)
    requires
        integer_exact(val),
    ensures
        val(clenshaw_value(c, t)) == chebyshev_sum(c, val, val(t), 0),
{
    let x = val(t);
    assert(val(zero::<E>()) == 0);
    if c.len() < 3 {
        assert(val(coeff_at(c, 0).add_spec(t.mul_spec(coeff_at(c, 1)))) == val(coeff_at(c, 0)) + x * val(coeff_at(c, 1)));
        if c.len() <= 1 {
            assert(val(coeff_at(c, 1)) == 0);
            assert(x * 0 == 0) by (nonlinear_arith);
        }
        if c.len() == 0 {
            assert(chebyshev_sum(c, val, x, 0) == 0);
        } else if c.len() == 1 {
            assert(chebyshev_sum(c, val, x, 1) == 0);
            assert(chebyshev_sum(c, val, x, 0) == val(c[0]));
        } else {
            assert(chebyshev_sum(c, val, x, 2) == 0);
            assert(chebyshev_sum(c, val, x, 1) == val(c[1]) * x);
            assert(chebyshev_sum(c, val, x, 0) == val(c[0]) + val(c[1]) * x);
            assert(val(c[1]) * x == x * val(c[1])) by (nonlinear_arith);
        }
    } else {
        lemma_clenshaw_state_sum(c, t, val, 0);
        let (b0, b1) = clenshaw_state(c, t.add_spec(t), 0);
        assert(val(b0.add_spec(t.mul_spec(b1))) == val(b0) + x * val(b1));
        assert(chebyshev_int(x, 1) == x);
        assert(val(b0) * chebyshev_int(x, 0) + val(b1) * chebyshev_int(x, 1) == val(b0) + x * val(b1)) by (nonlinear_arith)
            requires
                chebyshev_int(x, 0) == 1,
                chebyshev_int(x, 1) == x,
        ;
    }
}

/// Counting up from zero by ones reads as the count itself.
proof fn lemma_nat_value_reads_as_count<E: Coefficient>(val: spec_fn(E) -> int, n: nat)
    requires
        integer_exact(val),
    ensures
        val(nat_value::<E>(n)) == n,
    decreases n,
{
    if n > 0 {
        lemma_nat_value_reads_as_count(val, (n - 1) as nat);
        assert(val(nat_value::<E>((n - 1) as nat).add_spec(one::<E>())) == val(nat_value::<E>((n - 1) as nat)) + val(one::<E>()));
    }
}

/// The antiderivative undoes differentiation term by term: wherever the
/// arithmetic of `E` is exact on integers and the divisions come out even,
/// the integral `I` of `Σ c_k T_k` has constant term zero and, for
/// `k ≥ 1`, `2k I_k = c_{k-1} - c_{k+1}` (with `c_0` counted twice and
/// `c_{k+1}` zero past the end), which is the condition for
/// `d/dt Σ I_k T_k = Σ c_k T_k`.
pub proof fn law_integral_coefficients_undo_differentiation<E: Coefficient>(c: Seq<E>, val: spec_fn(E) -> int)
    requires
        integer_exact(val),
        c.len() >= 1,
        forall|j: int| 1 <= j < c.len() ==> #[trigger] val(c[j]) % (2 * (j + 1)) == 0,
        forall|j: int| 2 <= j < c.len() ==> #[trigger] val(c[j]) % (2 * (j - 1)) == 0,
    ensures
        integral_coefficients(c).len() == c.len() + 1,
        val(integral_coefficients(c)[0]) == 0,
        forall|k: int| 1 <= k <= c.len() ==> 2 * k * val(#[trigger] integral_coefficients(c)[k])
            == (if k == 1 { 2 * val(c[0]) } else { val(c[k - 1]) }) - (if k + 1 < c.len() { val(c[k + 1]) } else { 0 }),
{
    let n = c.len() as int;
    let i = integral_coefficients(c);
    assert(val(zero::<E>()) == 0);
    assert(val(two::<E>()) == 2);
    assert(val(four::<E>()) == 4);
    if n == 1 {
        assert(val(i[1]) == val(c[0]));
        return;
    }
    assert(i[0] == integral_entry(c, 0, n));
    assert forall|k: int| 1 <= k <= n implies 2 * k * val(#[trigger] i[k])
        == (if k == 1 { 2 * val(c[0]) } else { val(c[k - 1]) }) - (if k + 1 < n { val(c[k + 1]) } else { 0 }) by {
        assert(i[k] == integral_entry(c, k, n));
        lemma_nat_value_reads_as_count(val, k as nat);
        let d = two::<E>().mul_spec(nat_value::<E>(k as nat));
        assert(val(d) == 2 * k);
        let base: int = if k == 1 {
            val(c[0])
        } else if k == 2 {
            val(c[1].div_spec(four::<E>()))
        } else {
            0
        };
        let up: int = if 3 <= k { val(c[k - 1].div_spec(d)) } else { 0 };
        let down: int = if k + 1 < n { val(c[k + 1].div_spec(d)) } else { 0 };
        assert(val(i[k]) == base + up - down);
        let lower: int = (if k == 1 { 2 * val(c[0]) } else { val(c[k - 1]) });
        let upper: int = (if k + 1 < n { val(c[k + 1]) } else { 0 });
        if k == 2 {
            assert(val(c[1]) % 4 == 0);
            assert(val(c[1].div_spec(four::<E>())) * 4 == val(c[1]));
        }
        if 3 <= k {
            assert(val(c[k - 1]) % (2 * k) == 0);
            assert(val(c[k - 1].div_spec(d)) * (2 * k) == val(c[k - 1]));
        }
        if k + 1 < n {
            assert(val(c[k + 1]) % (2 * k) == 0);
            assert(val(c[k + 1].div_spec(d)) * (2 * k) == val(c[k + 1]));
        }
        assert(2 * k * (base + up) == lower) by (nonlinear_arith)
            requires
                k == 1 ==> base == val(c[0]) && up == 0,
                k == 2 ==> base * 4 == val(c[1]) && up == 0,
                3 <= k ==> base == 0 && up * (2 * k) == val(c[k - 1]),
                1 <= k,
                lower == (if k == 1 { 2 * val(c[0]) } else { val(c[k - 1]) }),
        ;
        assert(2 * k * down == upper) by (nonlinear_arith)
            requires
                k + 1 < n ==> down * (2 * k) == val(c[k + 1]),
                !(k + 1 < n) ==> down == 0,
                upper == (if k + 1 < n { val(c[k + 1]) } else { 0 }),
        ;
        assert(2 * k * (base + up - down) == 2 * k * (base + up) - 2 * k * down) by (nonlinear_arith);
    }
}

/// Below the top two, each coefficient of the derivative of the integral
/// reads as the coefficient of the series it came from.
proof fn lemma_derivative_interior_of_integral<E: Coefficient>(c: Seq<E>, val: spec_fn(E) -> int, k: int)
    requires
        integer_exact(val),
        c.len() >= 2,
        1 <= k <= c.len() - 1,
        forall|j: int| 1 <= j <= c.len() ==> 2 * j * val(#[trigger] integral_coefficients(c)[j])
            == (if j == 1 { 2 * val(c[0]) } else { val(c[j - 1]) }) - (if j + 1 < c.len() { val(c[j + 1]) } else { 0 }),
    ensures
        val(derivative_interior(integral_coefficients(c), k)) == val(c[k]),
    decreases c.len() - k,
{
    let i = integral_coefficients(c);
    let n = c.len() as int;
    assert(i.len() == n + 1);
    assert(val(two::<E>()) == 2);
    assert forall|j: int| 1 <= j <= n implies #[trigger] val(derivative_term(i, j)) == 2 * j * val(i[j]) by {
        lemma_nat_value_reads_as_count(val, j as nat);
        assert(val(two::<E>().mul_spec(nat_value::<E>(j as nat))) == 2 * j);
    }
    if k >= n - 1 {
        assert(val(derivative_term(i, n)) == 2 * n * val(i[n]));
    } else if k == n - 2 {
        assert(val(derivative_term(i, n - 1)) == 2 * (n - 1) * val(i[n - 1]));
    } else {
        lemma_derivative_interior_of_integral(c, val, k + 2);
        assert(val(derivative_term(i, k + 1)) == 2 * (k + 1) * val(i[k + 1]));
    }
}

/// Differentiating the antiderivative gives the series back: wherever the
/// arithmetic of `E` is exact on integers and the divisions come out even,
/// the derivative coefficients of `integral_coefficients(c)` read as `c`.
pub proof fn law_derivative_of_integral_is_the_series<E: Coefficient>(c: Seq<E>, val: spec_fn(E) -> int)
    requires
        integer_exact(val),
        c.len() >= 1,
        forall|j: int| 1 <= j < c.len() ==> #[trigger] val(c[j]) % (2 * (j + 1)) == 0,
        forall|j: int| 2 <= j < c.len() ==> #[trigger] val(c[j]) % (2 * (j - 1)) == 0,
    ensures
        derivative_untrimmed(integral_coefficients(c)).len() == c.len(),
        forall|k: int| 0 <= k < c.len() ==> val(#[trigger] derivative_untrimmed(integral_coefficients(c))[k]) == val(c[k]),
{
    law_integral_coefficients_undo_differentiation(c, val);
    let i = integral_coefficients(c);
    let d = derivative_untrimmed(i);
    let n = c.len() as int;
    assert(2 * 1 * val(i[1]) == 2 * val(c[0]) - (if 2 < n { val(c[2]) } else { 0 }));
    assert forall|k: int| 0 <= k < n implies val(#[trigger] d[k]) == val(c[k]) by {
        if k == 0 {
            if n >= 3 {
                lemma_derivative_interior_of_integral(c, val, 2);
                let h = derivative_interior(i, 2);
                assert(val(c[2]) % 2 == 0);
                assert(val(h.div_spec(two::<E>())) * 2 == val(c[2]));
                assert(val(i[1].add_spec(h.div_spec(two::<E>()))) == val(i[1]) + val(h.div_spec(two::<E>())));
                assert(d[0] == i[1].add_spec(h.div_spec(two::<E>())));
                let a = val(i[1]);
                let b = val(h.div_spec(two::<E>()));
                assert(a + b == val(c[0])) by (nonlinear_arith)
                    requires
                        2 * 1 * a == 2 * val(c[0]) - val(c[2]),
                        b * 2 == val(c[2]),
                ;
            } else {
                assert(d[0] == i[1]);
            }
        } else {
            lemma_derivative_interior_of_integral(c, val, k);
            assert(d[k] == derivative_interior(i, k));
        }
    }
}

/// The affine maps between a domain `[a, b]` and `[-1, 1]`: wherever the
/// arithmetic of `E` is exact on integers and the division comes out even,
/// the scaled image `t` of `x` satisfies `(t + 1)(b - a) = 2(x - a)`, so
/// that `a` goes to `-1` and `b` to `1`, and mapping `t` back to the
/// domain gives `x` again.
pub proof fn law_scaling_maps_the_domain_onto_the_interval<E: Coefficient>(x: E, domain: Range<E>, val: spec_fn(E) -> int)
    requires
        integer_exact(val),
        val(domain.start) != val(domain.end),
        (2 * (val(x) - val(domain.start))) % (val(domain.end) - val(domain.start)) == 0,
    ensures
        (val(scaled_coordinate(x, domain)) + 1) * (val(domain.end) - val(domain.start)) == 2 * (val(x) - val(domain.start)),
        val(physical_coordinate(scaled_coordinate(x, domain), domain)) == val(x),
        x == domain.start ==> val(scaled_coordinate(x, domain)) == -1,
        x == domain.end ==> val(scaled_coordinate(x, domain)) == 1,
{
    let a = domain.start;
    let b = domain.end;
    let width = b.sub_spec(a);
    let doubled = two::<E>().mul_spec(x.sub_spec(a));
    let quotient = doubled.div_spec(width);
    let t = quotient.sub_spec(one::<E>());
    assert(val(two::<E>()) == 2);
    assert(val(one::<E>()) == 1);
    assert(val(width) == val(b) - val(a));
    assert(val(doubled) == 2 * (val(x) - val(a)));
    assert(val(quotient) * val(width) == val(doubled));
    assert(val(t) == val(quotient) - 1);
    let q = val(quotient);
    let w = val(width);
    let back = t.add_spec(one::<E>()).mul_spec(width);
    assert(val(back) == q * w);
    assert(val(back) % 2 == 0);
    assert(val(back.div_spec(two::<E>())) * 2 == val(back));
    assert(val(a.add_spec(back.div_spec(two::<E>()))) == val(a) + val(back.div_spec(two::<E>())));
    if x == a {
        assert(q == 0) by (nonlinear_arith)
            requires
                q * w == 0,
                w != 0,
        ;
    }
    if x == b {
        assert(q == 2) by (nonlinear_arith)
            requires
                q * w == 2 * w,
                w != 0,
        ;
    }
}

} // verus!
