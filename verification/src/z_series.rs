//! The symmetric Laurent ("z-series") form of a Chebyshev series, used to
//! multiply Chebyshev series by convolution: `T_n = (z^n + z^-n) / 2`.
use vstd::prelude::*;
use vstd::std_specs::iter::IteratorSpec;
use vstd::std_specs::ops::{AddSpec, MulSpec, DivSpec};
use crate::scalar::{Coefficient, lawful, zero, two, zero_value, two_value, e_add, e_mul, e_div};
use crate::c_series::CSeries;

verus! {

/// The coefficients of `a * b` with index `k`, summed over the first `m`
/// coefficients of `a`, in the order the convolution adds them.
pub open spec fn conv_partial<E: Coefficient>(a: Seq<E>, b: Seq<E>, k: int, m: int) -> E
    decreases m,
{
    if m <= 0 {
        zero::<E>()
    } else {
        let prev = conv_partial(a, b, k, m - 1);
        let i = m - 1;
        if 0 <= k - i < b.len() {
            prev.add_spec(a[i].mul_spec(b[k - i]))
        } else {
            prev
        }
    }
}

/// The discrete convolution of `a` and `b`; empty when either is empty.
pub open spec fn convolution<E: Coefficient>(a: Seq<E>, b: Seq<E>) -> Seq<E> {
    if a.len() == 0 || b.len() == 0 {
        Seq::empty()
    } else {
        Seq::new((a.len() + b.len() - 1) as nat, |k: int| conv_partial(a, b, k, a.len() as int))
    }
}

/// Half of the Chebyshev coefficient `c[i]`.
pub open spec fn half<E: Coefficient>(c: Seq<E>, i: int) -> E {
    c[i].div_spec(two::<E>())
}

/// The z-series of the Chebyshev coefficients `c`: `c_0` sits in the middle
/// and each `c_i / 2` at distance `i` on either side of it.
pub open spec fn z_of_c<E: Coefficient>(c: Seq<E>) -> Seq<E> {
    let n = c.len() as int;
    if n == 0 {
        seq![zero::<E>()]
    } else {
        Seq::new(
            (2 * n - 1) as nat,
            |k: int|
                if k == n - 1 {
                    zero::<E>().add_spec(half(c, 0)).add_spec(half(c, 0))
                } else if k > n - 1 {
                    zero::<E>().add_spec(half(c, k - (n - 1)))
                } else {
                    zero::<E>().add_spec(half(c, (n - 1) - k))
                },
        )
    }
}

/// The number of Chebyshev coefficients that a z-series of length `len`
/// holds.
pub open spec fn c_len_of_z(len: nat) -> int {
    (len as int + 1) / 2
}

/// The Chebyshev coefficients read back from the z-series `z`, before
/// trailing zeros are trimmed: the middle coefficient, and twice each one to
/// its right.
pub open spec fn c_of_z_untrimmed<E: Coefficient>(z: Seq<E>) -> Seq<E> {
    let n = c_len_of_z(z.len());
    Seq::new(
        n as nat,
        |i: int|
            if i == 0 {
                z[n - 1].mul_spec(two::<E>()).div_spec(two::<E>())
            } else {
                z[n - 1 + i].mul_spec(two::<E>())
            },
    )
}

/// Multiply two coefficient slices as polynomials.
pub fn convolve<E: Coefficient>(lhs: &[E], rhs: &[E]) -> (r: Vec<E>)
    requires
        lhs@.len() + rhs@.len() <= usize::MAX,
    ensures
        r@.len() == convolution(lhs@, rhs@).len(),
        lawful::<E>() ==> r@ == convolution(lhs@, rhs@),
{
    if lhs.len() == 0 || rhs.len() == 0 {
        return Vec::new();
    }
    let la = lhs.len();
    let lb = rhs.len();
    let len = la + lb - 1;
    let z = zero_value::<E>();
    let mut output: Vec<E> = Vec::new();
    let mut k: usize = 0;
    while k < len
        invariant
            k <= len,
            output@.len() == k,
            forall|j: int| 0 <= j < k ==> #[trigger] output@[j] == z,
        decreases len - k,
    {
        output.push(z);
        k = k + 1;
    }
    let mut i: usize = 0;
    while i < la
        invariant
            la == lhs@.len(),
            lb == rhs@.len(),
            len == la + lb - 1,
            i <= la,
            output@.len() == len,
            lawful::<E>() ==> forall|k: int| 0 <= k < len ==> #[trigger] output@[k] == conv_partial(lhs@, rhs@, k, i as int),
        decreases la - i,
    {
        let mut j: usize = 0;
        while j < lb
            invariant
                la == lhs@.len(),
                lb == rhs@.len(),
                len == la + lb - 1,
                i < la,
                j <= lb,
                output@.len() == len,
                lawful::<E>() ==> forall|k: int| 0 <= k < len ==> #[trigger] output@[k] == (if i <= k < i + j {
                    conv_partial(lhs@, rhs@, k, i + 1)
                } else {
                    conv_partial(lhs@, rhs@, k, i as int)
                }),
            decreases lb - j,
        {
            let value = e_add(output[i + j], e_mul(lhs[i], rhs[j]));
            output.set(i + j, value);
            j = j + 1;
        }
        i = i + 1;
    }
    proof {
        if lawful::<E>() {
            assert(output@ =~= convolution(lhs@, rhs@));
        }
    }
    output
}

#[derive(Debug, PartialEq)]
pub struct ZSeries<E>(Vec<E>);

impl<E> View for ZSeries<E> {
    type V = Seq<E>;

    closed spec fn view(&self) -> Seq<E> {
        self.0@
    }
}

impl<E: Coefficient> ZSeries<E> {
    /// Create a new z-series.
    pub fn new(coefficients: Vec<E>) -> (r: Self)
        ensures
            r@ == coefficients@,
    {
        ZSeries(coefficients)
    }

    pub fn as_slice(&self) -> (r: &[E])
        ensures
            r@ == self@,
    {
        self.0.as_slice()
    }

    pub fn into_vec(self) -> (r: Vec<E>)
        ensures
            r@ == self@,
    {
        self.0
    }

    /// Borrow the coefficients mutably.
    pub fn as_mut_slice(&mut self) -> (r: &mut [E])
        ensures
            r@ == old(self)@,
            final(r)@ == final(self)@,
    {
        self.0.as_mut_slice()
    }

    /// Iterate over the coefficients by reference.
    pub fn iter(&self) -> (r: core::slice::Iter<'_, E>)
        ensures
            IteratorSpec::remaining(&r) == self@.map_values(|x: E| &x),
    {
        proof {
            broadcast use vstd::std_specs::slice::axiom_spec_slice_iter;
        }
        self.0.as_slice().iter()
    }

    /// Iterate over the coefficients by value.
    pub fn into_iter(self) -> (r: std::vec::IntoIter<E>)
        ensures
            IteratorSpec::remaining(&r) == self@,
    {
        proof {
            broadcast use vstd::std_specs::vec::axiom_spec_into_iter;
        }
        self.0.into_iter()
    }

    pub fn len(&self) -> (r: usize)
        ensures
            r == self@.len(),
    {
        self.0.len()
    }

    pub fn is_empty(&self) -> (r: bool)
        ensures
            r == (self@.len() == 0),
    {
        self.0.len() == 0
    }

    pub fn coefficient(&self, idx: usize) -> (r: Option<&E>)
        ensures
            idx < self@.len() ==> r == Some(&self@[idx as int]),
            idx >= self@.len() ==> r.is_none(),
    {
        if idx < self.0.len() {
            Some(&self.0[idx])
        } else {
            None
        }
    }
}

impl<E: Coefficient> From<CSeries<E>> for ZSeries<E> {
    fn from(value: CSeries<E>) -> (r: Self)
        ensures
            r@.len() == z_of_c(value@).len(),
            lawful::<E>() ==> r@ == z_of_c(value@),
    {
        let c = value.into_vec();
        let n = c.len();
        if n == 0 {
            let mut z: Vec<E> = Vec::new();
            z.push(zero_value::<E>());
            return ZSeries(z);
        }
        let two_e = two_value::<E>();
        let zero_e = zero_value::<E>();
        let mut halves: Vec<E> = Vec::new();
        let mut i: usize = 0;
        while i < n
            invariant
                n == c@.len(),
                i <= n,
                halves@.len() == i,
                lawful::<E>() ==> two_e == two::<E>(),
                lawful::<E>() ==> forall|j: int| 0 <= j < i ==> #[trigger] halves@[j] == half(c@, j),
            decreases n - i,
        {
            halves.push(e_div(c[i], two_e));
            i = i + 1;
        }
        let ghost target = z_of_c(c@);
        let mut z: Vec<E> = Vec::new();
        // Below the middle: c_{n-1} / 2, ..., c_1 / 2.
        let mut i: usize = n - 1;
        while i > 0
            invariant
                n == c@.len(),
                n > 0,
                i < n,
                halves@.len() == n,
                z@.len() == n - 1 - i,
                lawful::<E>() ==> zero_e == zero::<E>(),
                lawful::<E>() ==> forall|j: int| 0 <= j < n ==> #[trigger] halves@[j] == half(c@, j),
                target == z_of_c(c@),
                lawful::<E>() ==> forall|k: int| 0 <= k < z@.len() ==> #[trigger] z@[k] == target[k],
            decreases i,
        {
            z.push(e_add(zero_e, halves[i]));
            proof {
                if lawful::<E>() {
                    let k = (n - 1 - i) as int;
                    assert(target[k] == zero::<E>().add_spec(half(c@, (n - 1) - k)));
                }
            }
            i = i - 1;
        }
        // The middle: c_0, as two halves.
        z.push(e_add(e_add(zero_e, halves[0]), halves[0]));
        proof {
            if lawful::<E>() {
                assert(target[n - 1] == zero::<E>().add_spec(half(c@, 0)).add_spec(half(c@, 0)));
            }
        }
        // Above the middle: c_1 / 2, ..., c_{n-1} / 2.
        let mut i: usize = 1;
        while i < n
            invariant
                n == c@.len(),
                n > 0,
                1 <= i <= n,
                halves@.len() == n,
                z@.len() == n - 1 + i,
                lawful::<E>() ==> zero_e == zero::<E>(),
                lawful::<E>() ==> forall|j: int| 0 <= j < n ==> #[trigger] halves@[j] == half(c@, j),
                target == z_of_c(c@),
                lawful::<E>() ==> forall|k: int| 0 <= k < z@.len() ==> #[trigger] z@[k] == target[k],
            decreases n - i,
        {
            z.push(e_add(zero_e, halves[i]));
            proof {
                if lawful::<E>() {
                    let k = (n - 1 + i) as int;
                    assert(target[k] == zero::<E>().add_spec(half(c@, k - (n - 1))));
                }
            }
            i = i + 1;
        }
        proof {
            if lawful::<E>() {
                assert(z@ =~= target);
            }
        }
        ZSeries(z)
    }
}

impl<E: Coefficient> vstd::std_specs::convert::FromSpecImpl<CSeries<E>> for ZSeries<E> {
    open spec fn obeys_from_spec() -> bool {
        false
    }

    closed spec fn from_spec(v: CSeries<E>) -> Self {
        arbitrary()
    }
}

impl<E: Coefficient> vstd::std_specs::ops::MulSpecImpl for ZSeries<E> {
    open spec fn obeys_mul_spec() -> bool {
        false
    }

    open spec fn mul_req(self, rhs: Self) -> bool {
        true
    }

    closed spec fn mul_spec(self, rhs: Self) -> Self {
        arbitrary()
    }
}

impl<E: Coefficient> core::ops::Mul for ZSeries<E> {
    type Output = Self;

    fn mul(self, rhs: Self) -> (r: Self)
        ensures
            self@.len() + rhs@.len() <= usize::MAX ==> r@.len() == convolution(self@, rhs@).len(),
            lawful::<E>() && self@.len() + rhs@.len() <= usize::MAX ==> r@ == convolution(self@, rhs@),
    {
        if self.0.len() <= usize::MAX - rhs.0.len() {
            ZSeries(convolve(self.0.as_slice(), rhs.0.as_slice()))
        } else {
            ZSeries(Vec::new())
        }
    }
}

impl<E: Coefficient> Clone for ZSeries<E> {
    /// A copy of the coefficients, element by element.
    fn clone(&self) -> (r: Self)
        ensures
            r@ == self@,
    {
        let mut coefficients: Vec<E> = Vec::new();
        let mut i: usize = 0;
        while i < self.0.len()
            invariant
                i <= self@.len(),
                coefficients@ =~= self@.take(i as int),
            decreases self@.len() - i,
        {
            coefficients.push(self.0[i]);
            i = i + 1;
        }
        proof {
            assert(self@.take(self@.len() as int) =~= self@);
        }
        ZSeries(coefficients)
    }
}

} // verus!
