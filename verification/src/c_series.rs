//! Coefficients of a Chebyshev series, `p(t) = Σ c_n T_n(t)`, stored in
//! ascending order of degree.  The zero polynomial is `[0]`.
use vstd::prelude::*;
use vstd::std_specs::iter::IteratorSpec;
use vstd::std_specs::ops::{AddSpec, SubSpec, MulSpec};
use vstd::std_specs::cmp::{PartialEqSpec, PartialOrdSpec, PartialOrdIs};
use vstd::std_specs::convert::FromSpec;
use crate::z_series::{ZSeries, c_len_of_z, c_of_z_untrimmed, z_of_c, convolution};
use crate::scalar::{Coefficient, lawful, zero, two, zero_value, e_add, e_sub, e_mul, e_div, two_value, is_zero_value, abs, abs_value};

verus! {

/// The coefficient at `i`, or zero past the end.
pub open spec fn coeff_at<E: Coefficient>(s: Seq<E>, i: int) -> E {
    if 0 <= i < s.len() {
        s[i]
    } else {
        zero::<E>()
    }
}

/// `s` with trailing coefficients equal to zero removed, keeping at least
/// one; the empty sequence becomes `[0]`.
pub open spec fn trim_zeros<E: Coefficient>(s: Seq<E>) -> Seq<E>
    decreases s.len(),
{
    if s.len() == 0 {
        seq![zero::<E>()]
    } else if s.len() > 1 && is_zero_value(s.last()) {
        trim_zeros(s.drop_last())
    } else {
        s
    }
}

/// A coefficient sequence in canonical form: non-empty, and its last
/// coefficient is not zero unless it is the only one.
pub open spec fn is_canonical<E: Coefficient>(s: Seq<E>) -> bool {
    s.len() >= 1 && (s.len() == 1 || !is_zero_value(s.last()))
}

/// The degree of the polynomial stored in `s`: its length less one.
pub open spec fn degree_of<E>(s: Seq<E>) -> nat {
    if s.len() == 0 {
        0
    } else {
        (s.len() - 1) as nat
    }
}

pub open spec fn max_len(a: nat, b: nat) -> nat {
    if a >= b {
        a
    } else {
        b
    }
}

/// Coefficient-wise sum, the shorter operand padded with zeros.
pub open spec fn padded_sum<E: Coefficient>(a: Seq<E>, b: Seq<E>) -> Seq<E> {
    Seq::new(max_len(a.len(), b.len()), |i: int| coeff_at(a, i).add_spec(coeff_at(b, i)))
}

/// Coefficient-wise difference, the shorter operand padded with zeros.
pub open spec fn padded_difference<E: Coefficient>(a: Seq<E>, b: Seq<E>) -> Seq<E> {
    Seq::new(max_len(a.len(), b.len()), |i: int| coeff_at(a, i).sub_spec(coeff_at(b, i)))
}

/// Every coefficient multiplied by `factor`.
pub open spec fn scaled<E: Coefficient>(s: Seq<E>, factor: E) -> Seq<E> {
    Seq::new(s.len(), |i: int| s[i].mul_spec(factor))
}

/// The length of the shortest prefix of `s` that holds every coefficient
/// whose absolute value exceeds `tolerance`.
pub open spec fn significant_len<E: Coefficient>(s: Seq<E>, tolerance: E) -> nat
    decreases s.len(),
{
    if s.len() == 0 {
        0
    } else if abs_value(s.last()).is_gt(&tolerance) {
        s.len()
    } else {
        significant_len(s.drop_last(), tolerance)
    }
}

/// What trimming by an absolute tolerance gives: the prefix up to the last
/// significant coefficient, or `[0]` when there is none.
pub open spec fn trim_tolerance<E: Coefficient>(s: Seq<E>, tolerance: E) -> Seq<E> {
    let k = significant_len(s, abs_value(tolerance));
    if k == 0 {
        seq![zero::<E>()]
    } else {
        trim_zeros(s.take(k as int))
    }
}

pub proof fn lemma_trim_zeros_canonical<E: Coefficient>(s: Seq<E>)
    requires
        lawful::<E>(),
    ensures
        is_canonical(trim_zeros(s)),
        s.len() > 0 ==> trim_zeros(s) =~= s.take(trim_zeros(s).len() as int),
        trim_zeros(s).len() <= max_len(s.len(), 1),
    decreases s.len(),
{
    if s.len() > 1 && is_zero_value(s.last()) {
        lemma_trim_zeros_canonical(s.drop_last());
        let t = trim_zeros(s.drop_last());
        assert(s.drop_last().take(t.len() as int) =~= s.take(t.len() as int));
    }
}

pub proof fn lemma_trim_zeros_of_canonical<E: Coefficient>(s: Seq<E>)
    requires
        is_canonical(s),
    ensures
        trim_zeros(s) == s,
{
}

pub proof fn lemma_significant_len_bound<E: Coefficient>(s: Seq<E>, tolerance: E)
    ensures
        significant_len(s, tolerance) <= s.len(),
        significant_len(s, tolerance) > 0 ==> abs_value(s[significant_len(s, tolerance) - 1]).is_gt(&tolerance),
        forall|i: int| significant_len(s, tolerance) <= i < s.len() ==> !(#[trigger] abs_value(s[i])).is_gt(&tolerance),
    decreases s.len(),
{
    if s.len() > 0 && !abs_value(s.last()).is_gt(&tolerance) {
        lemma_significant_len_bound(s.drop_last(), tolerance);
        assert forall|i: int| significant_len(s, tolerance) <= i < s.len() implies !(#[trigger] abs_value(s[i])).is_gt(&tolerance) by {
            if i < s.len() - 1 {
                assert(s[i] == s.drop_last()[i]);
            }
        }
    }
}

#[derive(Debug, PartialEq)]
pub struct CSeries<E>(Vec<E>);

impl<E> View for CSeries<E> {
    type V = Seq<E>;

    closed spec fn view(&self) -> Seq<E> {
        self.0@
    }
}

impl<E: Coefficient> CSeries<E> {
    /// Create a new coefficient series.
    pub fn new(coefficients: Vec<E>) -> (r: Self)
        ensures
            r@ == coefficients@,
    {
        CSeries(coefficients)
    }

    pub fn as_slice(&self) -> (r: &[E])
        ensures
            r@ == self@,
    {
        self.0.as_slice()
    }

    pub fn into_vec(self) -> (r: Vec<E>)
        ensures
            r@ == self@,
    {
        self.0
    }

    /// Borrow the coefficients mutably.
    pub fn as_mut_slice(&mut self) -> (r: &mut [E])
        ensures
            r@ == old(self)@,
            final(r)@ == final(self)@,
    {
        self.0.as_mut_slice()
    }

    /// Iterate over the coefficients by reference.
    pub fn iter(&self) -> (r: core::slice::Iter<'_, E>)
        ensures
            IteratorSpec::remaining(&r) == self@.map_values(|x: E| &x),
    {
        proof {
            broadcast use vstd::std_specs::slice::axiom_spec_slice_iter;
        }
        self.0.as_slice().iter()
    }

    /// Iterate over the coefficients by value.
    pub fn into_iter(self) -> (r: std::vec::IntoIter<E>)
        ensures
            IteratorSpec::remaining(&r) == self@,
    {
        proof {
            broadcast use vstd::std_specs::vec::axiom_spec_into_iter;
        }
        self.0.into_iter()
    }

    pub fn len(&self) -> (r: usize)
        ensures
            r == self@.len(),
    {
        self.0.len()
    }

    pub fn is_empty(&self) -> (r: bool)
        ensures
            r == (self@.len() == 0),
    {
        self.0.len() == 0
    }

    /// A copy of the series, element by element.
    pub fn duplicate(&self) -> (r: Self)
        ensures
            r@ == self@,
    {
        let mut coefficients: Vec<E> = Vec::new();
        let mut i: usize = 0;
        while i < self.0.len()
            invariant
                i <= self@.len(),
                coefficients@ =~= self@.take(i as int),
            decreases self@.len() - i,
        {
            coefficients.push(self.0[i]);
            i = i + 1;
        }
        proof {
            assert(self@.take(self@.len() as int) =~= self@);
        }
        CSeries(coefficients)
    }

    /// Return the zero Chebyshev series, `[0]`.
    pub fn zero() -> (r: Self)
        ensures
            r@.len() == 1,
            lawful::<E>() ==> r@ == seq![zero::<E>()],
    {
        let mut coefficients: Vec<E> = Vec::new();
        coefficients.push(zero_value::<E>());
        CSeries(coefficients)
    }

    /// Return the polynomial degree; the empty series has degree zero.
    pub fn degree(&self) -> (r: usize)
        ensures
            r == degree_of(self@),
    {
        self.0.len().saturating_sub(1)
    }

    /// Return `true` if every stored coefficient is zero.
    pub fn is_zero(&self) -> (r: bool)
        ensures
            lawful::<E>() ==> (r <==> forall|i: int| 0 <= i < self@.len() ==> #[trigger] is_zero_value(self@[i])),
    {
        let z = zero_value::<E>();
        let mut i: usize = 0;
        while i < self.0.len()
            invariant
                i <= self@.len(),
                lawful::<E>() ==> z == zero::<E>(),
                lawful::<E>() ==> forall|j: int| 0 <= j < i ==> #[trigger] is_zero_value(self@[j]),
            decreases self@.len() - i,
        {
            if !(self.0[i] == z) {
                proof {
                    if lawful::<E>() {
                        assert(!is_zero_value(self@[i as int]));
                    }
                }
                return false;
            }
            i = i + 1;
        }
        true
    }

    /// Return a coefficient series with trailing zero coefficients removed.
    /// The result is never empty: if every coefficient is zero this is the
    /// canonical zero `[0]`.
    pub fn trimmed(self) -> (r: Self)
        ensures
            r@.len() >= 1,
            r@.len() <= max_len(self@.len(), 1),
            self@.len() > 0 ==> r@ =~= self@.take(r@.len() as int),
            lawful::<E>() ==> r@ == trim_zeros(self@),
            lawful::<E>() ==> is_canonical(r@),
    {
        let ghost initial = self@;
        let z = zero_value::<E>();
        let mut coefficients = self.0;
        while coefficients.len() > 1 && coefficients[coefficients.len() - 1] == z
            invariant
                initial.len() > 0 ==> coefficients@.len() >= 1,
                coefficients@.len() <= initial.len(),
                coefficients@ =~= initial.take(coefficients@.len() as int),
                lawful::<E>() ==> z == zero::<E>(),
                lawful::<E>() ==> trim_zeros(coefficients@) == trim_zeros(initial),
            decreases coefficients@.len(),
        {
            let ghost before = coefficients@;
            coefficients.pop();
            proof {
                assert(coefficients@ =~= before.drop_last());
            }
        }
        proof {
            if lawful::<E>() {
                lemma_trim_zeros_canonical(initial);
            }
        }
        if coefficients.len() == 0 {
            Self::zero()
        } else {
            CSeries(coefficients)
        }
    }

    /// Return the series truncated to at most `degree`, then trimmed.
    pub fn truncate(&self, degree: usize) -> (r: Self)
        ensures
            r@.len() >= 1,
            r@.len() <= max_len(self@.len(), 1),
            r@.len() <= degree + 1,
            self@.len() > 0 ==> r@ =~= self@.take(r@.len() as int),
            lawful::<E>() ==> r@ == trim_zeros(self@.take(if degree + 1 <= self@.len() { degree + 1 } else { self@.len() as int })),
    {
        let bound = degree.saturating_add(1);
        let len = if bound < self.0.len() { bound } else { self.0.len() };
        let mut kept: Vec<E> = Vec::new();
        let mut i: usize = 0;
        while i < len
            invariant
                len <= self@.len(),
                i <= len,
                kept@ =~= self@.take(i as int),
            decreases len - i,
        {
            kept.push(self.0[i]);
            i = i + 1;
        }
        CSeries(kept).trimmed()
    }

    /// Remove trailing coefficients whose absolute value is at most
    /// `|tolerance|`; `[0]` when every coefficient is that small.
    pub fn trim_by_absolute_tolerance(&self, tolerance: E) -> (r: Self)
        ensures
            r@.len() >= 1,
            r@.len() <= max_len(self@.len(), 1),
            lawful::<E>() ==> r@ == trim_tolerance(self@, tolerance),
    {
        let bound = abs(tolerance);
        let mut end = self.0.len();
        proof {
            assert(self@.take(end as int) =~= self@);
        }
        while end > 0
            invariant
                end <= self@.len(),
                lawful::<E>() ==> bound == abs_value(tolerance),
                lawful::<E>() ==> significant_len(self@, bound) == significant_len(self@.take(end as int), bound),
            ensures
                end <= self@.len(),
                lawful::<E>() ==> significant_len(self@, bound) == end,
            decreases end,
        {
            if abs(self.0[end - 1]) > bound {
                proof {
                    if lawful::<E>() {
                        assert(self@.take(end as int).last() == self@[end - 1]);
                    }
                }
                break;
            }
            proof {
                assert(self@.take(end as int).drop_last() =~= self@.take(end - 1));
            }
            end = end - 1;
        }
        if end == 0 {
            Self::zero()
        } else {
            let mut kept: Vec<E> = Vec::new();
            let mut i: usize = 0;
            while i < end
                invariant
                    end <= self@.len(),
                    i <= end,
                    kept@ =~= self@.take(i as int),
                decreases end - i,
            {
                kept.push(self.0[i]);
                i = i + 1;
            }
            CSeries(kept).trimmed()
        }
    }

    /// Multiply all coefficients by `factor`.
    pub fn scale_mut(&mut self, factor: E)
        ensures
            final(self)@.len() == old(self)@.len(),
            lawful::<E>() ==> final(self)@ == scaled(old(self)@, factor),
    {
        let ghost initial = self@;
        let mut i: usize = 0;
        while i < self.0.len()
            invariant
                i <= self@.len(),
                self@.len() == initial.len(),
                forall|j: int| i <= j < initial.len() ==> #[trigger] self@[j] == initial[j],
                lawful::<E>() ==> forall|j: int| 0 <= j < i ==> #[trigger] self@[j] == initial[j].mul_spec(factor),
            decreases initial.len() - i,
        {
            let value = e_mul(self.0[i], factor);
            self.0.set(i, value);
            i = i + 1;
        }
        proof {
            if lawful::<E>() {
                assert(self@ =~= scaled(initial, factor));
            }
        }
    }
}

impl<E: Coefficient> From<Vec<E>> for CSeries<E> {
    fn from(value: Vec<E>) -> (r: Self)
        ensures
            r@ == value@,
    {
        CSeries(value)
    }
}

impl<E: Coefficient> vstd::std_specs::convert::FromSpecImpl<Vec<E>> for CSeries<E> {
    open spec fn obeys_from_spec() -> bool {
        true
    }

    closed spec fn from_spec(v: Vec<E>) -> Self {
        CSeries(v)
    }
}

/// A series converted from a vector holds that vector's elements.
pub proof fn lemma_from_vec_view<E: Coefficient>(v: Vec<E>)
    ensures
        <CSeries<E> as FromSpec<Vec<E>>>::obeys_from_spec(),
        <CSeries<E> as FromSpec<Vec<E>>>::from_spec(v)@ == v@,
{
}

impl<E: Coefficient> From<ZSeries<E>> for CSeries<E> {
    /// Read the Chebyshev coefficients back from a z-series: the middle
    /// coefficient, and twice each one to its right; then trim.
    fn from(value: ZSeries<E>) -> (r: Self)
        ensures
            r@.len() >= 1,
            lawful::<E>() ==> r@ == trim_zeros(c_of_z_untrimmed(value@)),
    {
        let z = value.into_vec();
        let len = z.len();
        let n = len / 2 + len % 2;
        let two_e = two_value::<E>();
        let mut coefficients: Vec<E> = Vec::new();
        let mut index: usize = 0;
        while index < n
            invariant
                len == z@.len(),
                n == c_len_of_z(len as nat),
                index <= n,
                coefficients@.len() == index,
                lawful::<E>() ==> two_e == two::<E>(),
                lawful::<E>() ==> forall|i: int| 0 <= i < index ==> #[trigger] coefficients@[i] == c_of_z_untrimmed(z@)[i],
            decreases n - index,
        {
            let mut coefficient = e_mul(z[n - 1 + index], two_e);
            if index == 0 {
                coefficient = e_div(coefficient, two_e);
            }
            coefficients.push(coefficient);
            index = index + 1;
        }
        proof {
            if lawful::<E>() {
                assert(coefficients@ =~= c_of_z_untrimmed(z@));
            }
        }
        Self::new(coefficients).trimmed()
    }
}

impl<E: Coefficient> vstd::std_specs::convert::FromSpecImpl<ZSeries<E>> for CSeries<E> {
    open spec fn obeys_from_spec() -> bool {
        false
    }

    closed spec fn from_spec(v: ZSeries<E>) -> Self {
        arbitrary()
    }
}

impl<E: Coefficient> core::ops::Add for CSeries<E> {
    type Output = Self;

    /// Coefficient-wise sum, the shorter series padded with zeros, trimmed.
    fn add(self, rhs: Self) -> (r: Self)
        ensures
            r@.len() >= 1,
            r@.len() <= max_len(max_len(self@.len(), rhs@.len()), 1),
            lawful::<E>() ==> r@ == trim_zeros(padded_sum(self@, rhs@)),
    {
        let len = if self.0.len() >= rhs.0.len() { self.0.len() } else { rhs.0.len() };
        let z = zero_value::<E>();
        let mut coefficients: Vec<E> = Vec::new();
        let mut index: usize = 0;
        while index < len
            invariant
                len == max_len(self@.len(), rhs@.len()),
                index <= len,
                coefficients@.len() == index,
                lawful::<E>() ==> z == zero::<E>(),
                lawful::<E>() ==> forall|i: int| 0 <= i < index ==> #[trigger] coefficients@[i] == padded_sum(self@, rhs@)[i],
            decreases len - index,
        {
            let lhs_value = if index < self.0.len() { self.0[index] } else { z };
            let rhs_value = if index < rhs.0.len() { rhs.0[index] } else { z };
            coefficients.push(e_add(lhs_value, rhs_value));
            index = index + 1;
        }
        proof {
            if lawful::<E>() {
                assert(coefficients@ =~= padded_sum(self@, rhs@));
            }
        }
        Self::new(coefficients).trimmed()
    }
}

impl<E: Coefficient> vstd::std_specs::ops::AddSpecImpl for CSeries<E> {
    open spec fn obeys_add_spec() -> bool {
        false
    }

    open spec fn add_req(self, rhs: Self) -> bool {
        true
    }

    closed spec fn add_spec(self, rhs: Self) -> Self {
        arbitrary()
    }
}

impl<E: Coefficient> core::ops::Sub for CSeries<E> {
    type Output = Self;

    /// Coefficient-wise difference, the shorter series padded with zeros,
    /// trimmed.
    fn sub(self, rhs: Self) -> (r: Self)
        ensures
            r@.len() >= 1,
            r@.len() <= max_len(max_len(self@.len(), rhs@.len()), 1),
            lawful::<E>() ==> r@ == trim_zeros(padded_difference(self@, rhs@)),
    {
        let len = if self.0.len() >= rhs.0.len() { self.0.len() } else { rhs.0.len() };
        let z = zero_value::<E>();
        let mut coefficients: Vec<E> = Vec::new();
        let mut index: usize = 0;
        while index < len
            invariant
                len == max_len(self@.len(), rhs@.len()),
                index <= len,
                coefficients@.len() == index,
                lawful::<E>() ==> z == zero::<E>(),
                lawful::<E>() ==> forall|i: int| 0 <= i < index ==> #[trigger] coefficients@[i] == padded_difference(self@, rhs@)[i],
            decreases len - index,
        {
            let lhs_value = if index < self.0.len() { self.0[index] } else { z };
            let rhs_value = if index < rhs.0.len() { rhs.0[index] } else { z };
            coefficients.push(e_sub(lhs_value, rhs_value));
            index = index + 1;
        }
        proof {
            if lawful::<E>() {
                assert(coefficients@ =~= padded_difference(self@, rhs@));
            }
        }
        Self::new(coefficients).trimmed()
    }
}

impl<E: Coefficient> vstd::std_specs::ops::SubSpecImpl for CSeries<E> {
    open spec fn obeys_sub_spec() -> bool {
        false
    }

    open spec fn sub_req(self, rhs: Self) -> bool {
        true
    }

    closed spec fn sub_spec(self, rhs: Self) -> Self {
        arbitrary()
    }
}

/// The Chebyshev product of `a` and `b`: through their z-series, by
/// convolution, and back.
pub open spec fn chebyshev_product<E: Coefficient>(a: Seq<E>, b: Seq<E>) -> Seq<E> {
    trim_zeros(trim_zeros(c_of_z_untrimmed(convolution(z_of_c(a), z_of_c(b)))))
}

impl<E: Coefficient> core::ops::Mul for CSeries<E> {
    type Output = Self;

    /// The product of two Chebyshev series, by convolution of their
    /// z-series.
    fn mul(self, rhs: Self) -> (r: Self)
        ensures
            r@.len() >= 1,
            lawful::<E>() && z_of_c(self@).len() + z_of_c(rhs@).len() <= usize::MAX ==> r@ == chebyshev_product(self@, rhs@),
    {
        let lhs = ZSeries::from(self);
        let rhs = ZSeries::from(rhs);
        Self::from(lhs * rhs).trimmed()
    }
}

impl<E: Coefficient> vstd::std_specs::ops::MulSpecImpl for CSeries<E> {
    open spec fn obeys_mul_spec() -> bool {
        false
    }

    open spec fn mul_req(self, rhs: Self) -> bool {
        true
    }

    closed spec fn mul_spec(self, rhs: Self) -> Self {
        arbitrary()
    }
}

impl<E: Coefficient> core::ops::AddAssign for CSeries<E> {
    fn add_assign(&mut self, other: Self)
        ensures
            lawful::<E>() ==> final(self)@ == trim_zeros(padded_sum(old(self)@, other@)),
    {
        let mut current = CSeries(Vec::new());
        core::mem::swap(self, &mut current);
        *self = current + other;
    }
}

impl<E: Coefficient> core::ops::SubAssign for CSeries<E> {
    fn sub_assign(&mut self, other: Self)
        ensures
            lawful::<E>() ==> final(self)@ == trim_zeros(padded_difference(old(self)@, other@)),
    {
        let mut current = CSeries(Vec::new());
        core::mem::swap(self, &mut current);
        *self = current - other;
    }
}

impl<E: Coefficient> core::ops::MulAssign for CSeries<E> {
    fn mul_assign(&mut self, other: Self)
        ensures
            lawful::<E>() && z_of_c(old(self)@).len() + z_of_c(other@).len() <= usize::MAX ==> final(self)@ == chebyshev_product(old(self)@, other@),
    {
        let mut current = CSeries(Vec::new());
        core::mem::swap(self, &mut current);
        *self = current * other;
    }
}

impl<E: Coefficient> Clone for CSeries<E> {
    /// A copy of the coefficients, element by element.
    fn clone(&self) -> (r: Self)
        ensures
            r@ == self@,
    {
        let mut coefficients: Vec<E> = Vec::new();
        let mut i: usize = 0;
        while i < self.0.len()
            invariant
                i <= self@.len(),
                coefficients@ =~= self@.take(i as int),
            decreases self@.len() - i,
        {
            coefficients.push(self.0[i]);
            i = i + 1;
        }
        proof {
            assert(self@.take(self@.len() as int) =~= self@);
        }
        CSeries(coefficients)
    }
}

} // verus!
