//! The scalar model shared by every module: which operations of the
//! coefficient type are used, and what the contracts assume of them.
//!
//! The coefficient type `E` is a floating-point type: it has the arithmetic
//! operators and comparisons, converts from `u8` (for its small constants)
//! and has vstd's bit-level float predicates (for finiteness).  Its arithmetic is described by vstd's
//! operator specifications: a value-level clause of a contract holds for a
//! type whose operators follow those specifications (`lawful`), while the
//! shape of every result (lengths, which branch, which error) is stated for
//! every type.
use vstd::prelude::*;
use vstd::std_specs::ops::{AddSpec, SubSpec, MulSpec, DivSpec, NegSpec};
use vstd::std_specs::cmp::{PartialEqSpec, PartialOrdSpec, PartialEqIs, PartialOrdIs};
use vstd::std_specs::convert::FromSpec;
use vstd::float::FloatBitsProperties;
use num_traits::{Float, FromPrimitive};
use core::ops::{Add, Sub, Mul, Div, Neg};

verus! {

/// The coefficient types of a series: `f32` and `f64`.
pub trait Coefficient:
    Copy + PartialEq + PartialOrd + Add<Output = Self> + Sub<Output = Self> + Mul<Output = Self>
    + Div<Output = Self> + Neg<Output = Self> + From<u8> + FloatBitsProperties
{
}

impl<T> Coefficient for T where
    T: Copy + PartialEq + PartialOrd + Add<Output = T> + Sub<Output = T> + Mul<Output = T>
    + Div<Output = T> + Neg<Output = T> + From<u8> + FloatBitsProperties
{
}

/// The operators, comparisons and conversion from `u8` of `E` compute what
/// their vstd specification functions say, its arithmetic operators have no
/// precondition, and zero and every value equal to it are finite.
pub open spec fn lawful<E: Coefficient>() -> bool {
    &&& E::obeys_add_spec()
    &&& E::obeys_sub_spec()
    &&& E::obeys_mul_spec()
    &&& E::obeys_div_spec()
    &&& E::obeys_neg_spec()
    &&& E::obeys_eq_spec()
    &&& E::obeys_partial_cmp_spec()
    &&& E::obeys_from_spec()
    &&& forall|a: E, b: E| #[trigger] a.add_req(b)
    &&& forall|a: E, b: E| #[trigger] a.sub_req(b)
    &&& forall|a: E, b: E| #[trigger] a.mul_req(b)
    &&& forall|a: E, b: E| #[trigger] a.div_req(b)
    &&& forall|a: E| #[trigger] a.neg_req()
    &&& finite(zero::<E>())
    &&& forall|a: E| #[trigger] a.eq_spec(&zero::<E>()) ==> finite(a)
}

pub open spec fn zero<E: Coefficient>() -> E {
    E::from_spec(0u8)
}

pub open spec fn one<E: Coefficient>() -> E {
    E::from_spec(1u8)
}

pub open spec fn two<E: Coefficient>() -> E {
    E::from_spec(2u8)
}

pub open spec fn four<E: Coefficient>() -> E {
    E::from_spec(4u8)
}

/// The natural number `n` as a value of `E`, counted up from zero by ones.
pub open spec fn nat_value<E: Coefficient>(n: nat) -> E
    decreases n,
{
    if n == 0 {
        zero::<E>()
    } else {
        nat_value::<E>((n - 1) as nat).add_spec(one::<E>())
    }
}

/// `x` is neither infinite nor NaN.
pub open spec fn finite<E: Coefficient>(x: E) -> bool {
    x.is_finite_spec()
}

/// The absolute value as a comparison with zero and a negation.
pub open spec fn abs_value<E: Coefficient>(x: E) -> E {
    if x.is_lt(&zero::<E>()) {
        x.neg_spec()
    } else {
        x
    }
}

/// `x` compares equal to zero.
pub open spec fn is_zero_value<E: Coefficient>(x: E) -> bool {
    x.is_eq(&zero::<E>())
}

pub fn zero_value<E: Coefficient>() -> (r: E)
    ensures
        lawful::<E>() ==> r == zero::<E>(),
{
    <E as core::convert::From<u8>>::from(0u8)
}

pub fn one_value<E: Coefficient>() -> (r: E)
    ensures
        lawful::<E>() ==> r == one::<E>(),
{
    <E as core::convert::From<u8>>::from(1u8)
}

pub fn two_value<E: Coefficient>() -> (r: E)
    ensures
        lawful::<E>() ==> r == two::<E>(),
{
    <E as core::convert::From<u8>>::from(2u8)
}

pub fn four_value<E: Coefficient>() -> (r: E)
    ensures
        lawful::<E>() ==> r == four::<E>(),
{
    <E as core::convert::From<u8>>::from(4u8)
}

/// `a + b` (`core::ops::Add::add`).
#[verifier::external_body]
pub(crate) fn e_add<E: Coefficient>(a: E, b: E) -> (r: E)
    ensures
        lawful::<E>() ==> r == a.add_spec(b),
{
    a + b
}

/// `a - b` (`core::ops::Sub::sub`).
#[verifier::external_body]
pub(crate) fn e_sub<E: Coefficient>(a: E, b: E) -> (r: E)
    ensures
        lawful::<E>() ==> r == a.sub_spec(b),
{
    a - b
}

/// `a * b` (`core::ops::Mul::mul`).
#[verifier::external_body]
pub(crate) fn e_mul<E: Coefficient>(a: E, b: E) -> (r: E)
    ensures
        lawful::<E>() ==> r == a.mul_spec(b),
{
    a * b
}

/// `a / b` (`core::ops::Div::div`).
#[verifier::external_body]
pub(crate) fn e_div<E: Coefficient>(a: E, b: E) -> (r: E)
    ensures
        lawful::<E>() ==> r == a.div_spec(b),
{
    a / b
}

/// `-a` (`core::ops::Neg::neg`).
#[verifier::external_body]
pub(crate) fn e_neg<E: Coefficient>(a: E) -> (r: E)
    ensures
        lawful::<E>() ==> r == a.neg_spec(),
{
    -a
}

/// `|x|`, by comparison with zero and negation.
pub fn abs<E: Coefficient>(x: E) -> (r: E)
    ensures
        lawful::<E>() ==> r == abs_value(x),
{
    let z = zero_value::<E>();
    if x < z {
        e_neg(x)
    } else {
        x
    }
}

/// The values `0, 1, ..., n` of `E`, each one more than the one before.
pub fn nat_values<E: Coefficient>(n: usize) -> (r: Vec<E>)
    requires
        n < usize::MAX,
    ensures
        r@.len() == n + 1,
        lawful::<E>() ==> forall|k: int| 0 <= k <= n ==> #[trigger] r@[k] == nat_value::<E>(k as nat),
{
    let unit = one_value::<E>();
    let mut values: Vec<E> = Vec::new();
    values.push(zero_value::<E>());
    let mut k: usize = 0;
    while k < n
        invariant
            k <= n,
            values@.len() == k + 1,
            lawful::<E>() ==> unit == one::<E>(),
            lawful::<E>() ==> forall|j: int| 0 <= j <= k ==> #[trigger] values@[j] == nat_value::<E>(j as nat),
        decreases n - k,
    {
        let next = e_add(values[k], unit);
        values.push(next);
        k = k + 1;
        proof {
            if lawful::<E>() {
                assert(values@[k as int] == nat_value::<E>(k as nat));
            }
        }
    }
    values
}

/// Whether `x` is neither infinite nor NaN (`num_traits::Float::is_finite`).
#[verifier::external_body]
pub(crate) fn is_finite<E: Coefficient + Float>(x: E) -> (r: bool)
    ensures
        r == finite(x),
{
    x.is_finite()
}

/// Counts below `2^24` are exact in both `f32` and `f64`.
pub open spec fn exact_count(n: nat) -> bool {
    n < 0x100_0000
}

/// The count `n` as a value of `E` (`num_traits::FromPrimitive::from_usize`,
/// which for `f32` and `f64` is `Some(n as _)`): always there, and for an
/// exact count the value that adding `n` ones to zero gives.
#[verifier::external_body]
pub(crate) fn from_count<E: Coefficient + FromPrimitive>(n: usize) -> (r: Option<E>)
    ensures
        r is Some,
        r matches Some(v) ==> lawful::<E>() && exact_count(n as nat) ==> v == nat_value::<E>(n as nat),
{
    E::from_usize(n)
}

/// The smaller of `a` and `b` (`num_traits::Float::min`): for finite
/// arguments one of the two, and the one that compares below the other.
/// Which NaN comes back when both are NaN is not stated.
#[verifier::external_body]
pub(crate) fn e_min<E: Coefficient + Float>(a: E, b: E) -> (r: E)
    ensures
        finite(a) && finite(b) ==> r == a || r == b,
        lawful::<E>() && a.is_lt(&b) ==> r == a,
        lawful::<E>() && b.is_lt(&a) ==> r == b,
{
    a.min(b)
}

/// The larger of `a` and `b` (`num_traits::Float::max`): for finite
/// arguments one of the two, and the one that compares above the other.
/// Which NaN comes back when both are NaN is not stated.
#[verifier::external_body]
pub(crate) fn e_max<E: Coefficient + Float>(a: E, b: E) -> (r: E)
    ensures
        finite(a) && finite(b) ==> r == a || r == b,
        lawful::<E>() && b.is_lt(&a) ==> r == a,
        lawful::<E>() && a.is_lt(&b) ==> r == b,
{
    a.max(b)
}

/// The square root (`num_traits::Float::sqrt`, which for `f32` and `f64`
/// is std's correctly rounded square root): NaN for a negative argument,
/// and above one half for one half (`√½ ≈ 0.7071` rounds to a value above
/// `0.5` in both types); its value otherwise is not stated.
#[verifier::external_body]
pub(crate) fn e_sqrt<E: Coefficient + Float>(x: E) -> (r: E)
    ensures
        lawful::<E>() && x.is_lt(&zero::<E>()) ==> r.is_nan_spec(),
        lawful::<E>() && x == one::<E>().div_spec(two::<E>()) ==> x.is_lt(&r),
{
    x.sqrt()
}

/// The comparisons of `E` order its finite values totally: `==` is an
/// equivalence, exactly one of `a < b`, `a == b`, `b < a` holds, `<` is
/// transitive, also through `==`, `a <= b` means `a < b` or `a == b`, and
/// `a > b` means `b < a`.  This holds of `f32` and `f64`.
#[verifier::opaque]
pub open spec fn total_on_finite<E: Coefficient>() -> bool {
    &&& forall|a: E| #![trigger a.eq_spec(&a)] finite(a) ==> a.is_eq(&a)
    &&& forall|a: E, b: E| #![trigger a.eq_spec(&b)] finite(a) && finite(b) && a.is_eq(&b) ==> b.is_eq(&a)
    &&& forall|a: E, b: E, c: E| #![trigger a.eq_spec(&b), b.eq_spec(&c)]
        finite(a) && finite(b) && finite(c) && a.is_eq(&b) && b.is_eq(&c) ==> a.is_eq(&c)
    &&& forall|a: E, b: E| #![trigger a.partial_cmp_spec(&b)]
        finite(a) && finite(b) ==> (a.is_lt(&b) || a.is_eq(&b) || b.is_lt(&a))
    &&& forall|a: E, b: E| #![trigger a.partial_cmp_spec(&b)]
        finite(a) && finite(b) && a.is_lt(&b) ==> !a.is_eq(&b) && !b.is_lt(&a)
    &&& forall|a: E, b: E, c: E| #![trigger a.partial_cmp_spec(&b), b.partial_cmp_spec(&c)]
        finite(a) && finite(b) && finite(c) && a.is_lt(&b) && b.is_lt(&c) ==> a.is_lt(&c)
    &&& forall|a: E, b: E, c: E| #![trigger a.partial_cmp_spec(&b), b.eq_spec(&c)]
        finite(a) && finite(b) && finite(c) && a.is_lt(&b) && b.is_eq(&c) ==> a.is_lt(&c)
    &&& forall|a: E, b: E, c: E| #![trigger a.eq_spec(&b), b.partial_cmp_spec(&c)]
        finite(a) && finite(b) && finite(c) && a.is_eq(&b) && b.is_lt(&c) ==> a.is_lt(&c)
    &&& forall|a: E, b: E| #![trigger a.partial_cmp_spec(&b)]
        finite(a) && finite(b) ==> (a.is_le(&b) <==> a.is_lt(&b) || a.is_eq(&b))
    &&& forall|a: E, b: E| #![trigger a.partial_cmp_spec(&b)]
        finite(a) && finite(b) ==> (a.is_gt(&b) <==> b.is_lt(&a))
}

/// The order facts of `total_on_finite` for three finite values.
pub proof fn lemma_total_order<E: Coefficient>(a: E, b: E, c: E)
    requires
        total_on_finite::<E>(),
        finite(a),
        finite(b),
        finite(c),
    ensures
        a.is_eq(&a),
        a.is_eq(&b) ==> b.is_eq(&a),
        a.is_eq(&b) && b.is_eq(&c) ==> a.is_eq(&c),
        a.is_lt(&b) || a.is_eq(&b) || b.is_lt(&a),
        a.is_lt(&b) ==> !a.is_eq(&b) && !b.is_lt(&a),
        !a.is_lt(&a),
        a.is_lt(&b) && b.is_lt(&c) ==> a.is_lt(&c),
        a.is_lt(&b) && b.is_eq(&c) ==> a.is_lt(&c),
        a.is_eq(&b) && b.is_lt(&c) ==> a.is_lt(&c),
        a.is_le(&b) <==> a.is_lt(&b) || a.is_eq(&b),
        a.is_gt(&b) <==> b.is_lt(&a),
{
    reveal(total_on_finite);
    assert(a.is_le(&b) <==> a.is_lt(&b) || a.is_eq(&b));
    assert(a.is_gt(&b) <==> b.is_lt(&a));
    assert(a.is_eq(&a));
    assert(a.is_eq(&b) ==> b.is_eq(&a));
    assert(a.is_lt(&b) || a.is_eq(&b) || b.is_lt(&a));
    assert(a.is_lt(&b) ==> !a.is_eq(&b) && !b.is_lt(&a));
    assert(a.is_lt(&a) ==> !a.is_lt(&a));
}

/// A value not below `a` is not below the smaller of `a` and `b`, and
/// neither is `b`.
pub proof fn lemma_min_bound<E: Coefficient>(y: E, a: E, b: E, r: E)
    requires
        total_on_finite::<E>(),
        finite(y),
        finite(a),
        finite(b),
        r == a || r == b,
        a.is_lt(&b) ==> r == a,
        b.is_lt(&a) ==> r == b,
        !y.is_lt(&a),
    ensures
        !y.is_lt(&r),
        !b.is_lt(&r),
{
    lemma_total_order(y, b, a);
    lemma_total_order(b, a, y);
    lemma_total_order(a, b, y);
    lemma_total_order(y, a, b);
}

/// A value not above `a` is not above the larger of `a` and `b`, and
/// neither is `b`.
pub proof fn lemma_max_bound<E: Coefficient>(y: E, a: E, b: E, r: E)
    requires
        total_on_finite::<E>(),
        finite(y),
        finite(a),
        finite(b),
        r == a || r == b,
        b.is_lt(&a) ==> r == a,
        a.is_lt(&b) ==> r == b,
        !a.is_lt(&y),
    ensures
        !r.is_lt(&y),
        !r.is_lt(&b),
{
    lemma_total_order(y, b, a);
    lemma_total_order(b, a, y);
    lemma_total_order(a, b, y);
    lemma_total_order(y, a, b);
}

/// A value between `lo` and `hi`, which compare equal, compares equal to
/// `lo`.
pub proof fn lemma_squeezed<E: Coefficient>(x: E, lo: E, hi: E)
    requires
        total_on_finite::<E>(),
        finite(x),
        finite(lo),
        finite(hi),
        !x.is_lt(&lo),
        !hi.is_lt(&x),
        lo.is_eq(&hi),
    ensures
        x.is_eq(&lo),
        lo.is_eq(&x),
{
    lemma_total_order(hi, lo, x);
    lemma_total_order(x, lo, hi);
    lemma_total_order(lo, x, hi);
    lemma_total_order(lo, hi, x);
}

/// With a value between them, `lo` and `hi` that do not compare equal are
/// in order.
pub proof fn lemma_ordered_ends<E: Coefficient>(lo: E, x: E, hi: E)
    requires
        total_on_finite::<E>(),
        finite(x),
        finite(lo),
        finite(hi),
        !x.is_lt(&lo),
        !hi.is_lt(&x),
        !lo.is_eq(&hi),
    ensures
        lo.is_lt(&hi),
{
    lemma_total_order(hi, lo, x);
    lemma_total_order(lo, hi, x);
    lemma_total_order(lo, x, hi);
    lemma_total_order(x, lo, hi);
}

} // verus!
