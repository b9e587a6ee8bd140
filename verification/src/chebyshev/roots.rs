//! Real roots of Chebyshev series.
//!
//! A linear series is solved directly.  Above degree one, the roots are the
//! eigenvalues of the colleague matrix: the eigenvalues come from
//! `ndarray-linalg`, and those whose imaginary part is within a tolerance
//! and whose real part is finite are mapped to the physical domain and
//! sorted.
use core::ops::Range;
use vstd::prelude::*;
use vstd::std_specs::ops::{AddSpec, SubSpec, MulSpec, DivSpec, NegSpec};
use vstd::std_specs::cmp::{PartialEqSpec, PartialOrdSpec, PartialEqIs, PartialOrdIs};
use vstd::std_specs::convert::FromSpec;
use vstd::seq_lib::{to_multiset_build, to_multiset_insert, to_multiset_contains};
use num_traits::Float;
use ndarray_linalg::{Lapack, Scalar};
use crate::scalar::{Coefficient, lawful, zero, one, two, finite, abs_value, is_zero_value, zero_value, one_value, two_value, e_sub, e_mul, e_div, e_neg, e_sqrt, abs, is_finite};
use crate::scaling::{physical_coordinate, from_scaled};
use crate::error::ChebyshevError;
use crate::linalg::{Rows, is_matrix, eigenvalues};
use ndarray_linalg::error::LinalgError;
use crate::traits::{PolynomialSeries, ordered, upto, in_window, within, roots_within};
use crate::c_series::max_len;
use super::{ChebyshevSeries, physical_derivative};

verus! {

/// Adjacent elements are in ascending order: none compares below the one
/// before it.
pub open spec fn ascending<E: PartialOrd>(s: Seq<E>) -> bool {
    forall|k: int| 0 < k < s.len() ==> !(#[trigger] s[k]).is_lt(&s[k - 1])
}

/// Among the elements of `s`, `<` is asymmetric.
pub open spec fn asymmetric_on<E: PartialOrd>(s: Seq<E>) -> bool {
    forall|a: E, b: E| #![trigger a.partial_cmp_spec(&b)] s.contains(a) && s.contains(b) && a.is_lt(&b) ==> !b.is_lt(&a)
}

/// Sort ascending by insertion, keeping equal elements in their order.
pub fn sort_ascending<E: PartialOrd + Copy>(values: Vec<E>) -> (r: Vec<E>)
    ensures
        r@.to_multiset() == values@.to_multiset(),
        r@.len() == values@.len(),
        ordered::<E>() && asymmetric_on(values@) ==> ascending(r@),
{
    let mut out: Vec<E> = Vec::new();
    let mut i: usize = 0;
    proof {
        assert(values@.take(0) =~= out@);
    }
    while i < values.len()
        invariant
            i <= values@.len(),
            out@.len() == i,
            out@.to_multiset() == values@.take(i as int).to_multiset(),
            ordered::<E>() && asymmetric_on(values@) ==> ascending(out@),
        decreases values@.len() - i,
    {
        let x = values[i];
        let mut p: usize = out.len();
        while p > 0 && x < out[p - 1]
            invariant
                p <= out@.len(),
                ordered::<E>() ==> (p < out@.len() ==> x.is_lt(&out@[p as int])),
            decreases p,
        {
            p = p - 1;
        }
        let ghost old_out = out@;
        out.insert(p, x);
        proof {
            to_multiset_insert(old_out, p as int, x);
            assert(values@.take(i + 1) =~= values@.take(i as int).push(x));
            to_multiset_build(values@.take(i as int), x);
            if ordered::<E>() && asymmetric_on(values@) {
                assert(values@.contains(x)) by {
                    assert(values@[i as int] == x);
                }
                assert forall|k: int| 0 < k < out@.len() implies !(#[trigger] out@[k]).is_lt(&out@[k - 1]) by {
                    if k == p {
                    } else if k == p + 1 {
                        let y = old_out[p as int];
                        to_multiset_contains(old_out, y);
                        to_multiset_contains(values@.take(i as int), y);
                        assert(old_out.contains(y)) by {
                            assert(old_out[p as int] == y);
                        }
                        assert(values@.take(i as int).contains(y));
                        assert(values@.contains(y)) by {
                            let j = choose|j: int| 0 <= j < i && values@.take(i as int)[j] == y;
                            assert(values@[j] == y);
                        }
                    } else if k < p {
                        assert(out@[k] == old_out[k] && out@[k - 1] == old_out[k - 1]);
                    } else {
                        assert(out@[k] == old_out[k - 1] && out@[k - 1] == old_out[k - 2]);
                    }
                }
            }
        }
        i = i + 1;
    }
    proof {
        assert(values@.take(values@.len() as int) =~= values@);
    }
    out
}

/// `1 / 2`.
pub open spec fn half<E: Coefficient>() -> E {
    one::<E>().div_spec(two::<E>())
}

/// The roots of a series of degree at most one: none for a constant or a
/// vanishing `T_1` coefficient, else the physical image of `-c_0 / c_1`.
pub open spec fn low_degree_roots<E: Coefficient>(c: Seq<E>, domain: Range<E>) -> Seq<E> {
    if c.len() < 2 || is_zero_value(c[1]) {
        Seq::empty()
    } else {
        seq![physical_coordinate(c[0].neg_spec().div_spec(c[1]), domain)]
    }
}

/// The symmetric tridiagonal part of the colleague matrix: `s` (which
/// stands for `1/√2`) beside the diagonal in the first row and column,
/// `1/2` elsewhere beside the diagonal, zero everywhere else.
pub open spec fn colleague_band<E: Coefficient>(s: E, row: int, col: int) -> E {
    if col == row + 1 || row == col + 1 {
        if (row == 0 && col == 1) || (row == 1 && col == 0) {
            s
        } else {
            half::<E>()
        }
    } else {
        zero::<E>()
    }
}

/// The diagonal scaling of the colleague matrix: one for the first index,
/// `s` for the others.
pub open spec fn colleague_scale<E: Coefficient>(s: E, k: int) -> E {
    if k == 0 {
        one::<E>()
    } else {
        s
    }
}

/// What the last column loses in row `row`:
/// `c_row / 2 / c_n · scale_row / scale_{n-1}` for degree `n`, so that the
/// eigenvalues are the roots of the series.
pub open spec fn colleague_correction<E: Coefficient>(c: Seq<E>, s: E, row: int) -> E {
    let n = c.len() - 1;
    c[row].div_spec(two::<E>()).div_spec(c[n]).mul_spec(colleague_scale(s, row)).div_spec(
        colleague_scale(s, n - 1),
    )
}

/// Entry `(row, col)` of the colleague matrix of the series `c`.
pub open spec fn colleague_entry<E: Coefficient>(c: Seq<E>, s: E, row: int, col: int) -> E {
    if col == c.len() - 2 {
        colleague_band(s, row, col).sub_spec(colleague_correction(c, s, row))
    } else {
        colleague_band(s, row, col)
    }
}

/// The colleague matrix of the series `c` as rows, `n` by `n` for degree `n`.
pub open spec fn colleague_rows<E: Coefficient>(c: Seq<E>, s: E) -> Seq<Seq<E>> {
    Seq::new((c.len() - 1) as nat, |row: int| Seq::new((c.len() - 1) as nat, |col: int| colleague_entry(c, s, row, col)))
}

/// The rows of a matrix as sequences.
pub open spec fn rows_view<E>(m: Seq<Vec<E>>) -> Seq<Seq<E>> {
    m.map_values(|row: Vec<E>| row@)
}

/// The colleague matrix of the series with coefficients `c`, of degree at
/// least two, given the value that stands for `1/√2`.
pub fn colleague_matrix<E: Coefficient>(c: &[E], inv_sqrt_two: E) -> (r: Rows<E>)
    requires
        c@.len() >= 3,
    ensures
        r@.len() == c@.len() - 1,
        is_matrix(r@, (c@.len() - 1) as nat),
        lawful::<E>() ==> rows_view(r@) == colleague_rows(c@, inv_sqrt_two),
{
    let n = c.len() - 1;
    let z = zero_value::<E>();
    let one_e = one_value::<E>();
    let two_e = two_value::<E>();
    let half_e = e_div(one_e, two_e);
    let leading = c[n];
    let last_scale = inv_sqrt_two;
    let mut rows: Rows<E> = Vec::new();
    let mut row: usize = 0;
    while row < n
        invariant
            n == c@.len() - 1,
            n >= 2,
            row <= n,
            rows@.len() == row,
            leading == c@[n as int],
            last_scale == inv_sqrt_two,
            lawful::<E>() ==> z == zero::<E>() && one_e == one::<E>() && two_e == two::<E>() && half_e == half::<E>(),
            is_matrix(rows@, n as nat),
            lawful::<E>() ==> forall|i: int| 0 <= i < row ==> (#[trigger] rows@[i])@ == colleague_rows(c@, inv_sqrt_two)[i],
        decreases n - row,
    {
        let mut entries: Vec<E> = Vec::new();
        let mut col: usize = 0;
        while col < n
            invariant
                n == c@.len() - 1,
                n >= 2,
                row < n,
                col <= n,
                entries@.len() == col,
                leading == c@[n as int],
                last_scale == inv_sqrt_two,
            last_scale == inv_sqrt_two,
                lawful::<E>() ==> z == zero::<E>() && one_e == one::<E>() && two_e == two::<E>() && half_e == half::<E>(),
                lawful::<E>() ==> forall|j: int| 0 <= j < col ==> #[trigger] entries@[j] == colleague_entry(c@, inv_sqrt_two, row as int, j),
            decreases n - col,
        {
            let band = if col == row + 1 || row == col + 1 {
                if (row == 0 && col == 1) || (row == 1 && col == 0) {
                    inv_sqrt_two
                } else {
                    half_e
                }
            } else {
                z
            };
            let entry = if col == n - 1 {
                let row_scale = if row == 0 {
                    one_e
                } else {
                    inv_sqrt_two
                };
                e_sub(band, e_div(e_mul(e_div(e_div(c[row], two_e), leading), row_scale), last_scale))
            } else {
                band
            };
            proof {
                if lawful::<E>() {
                    assert(band == colleague_band(inv_sqrt_two, row as int, col as int));
                    assert(colleague_scale(inv_sqrt_two, n - 1) == last_scale);
                    assert(entry == colleague_entry(c@, inv_sqrt_two, row as int, col as int));
                }
            }
            entries.push(entry);
            col = col + 1;
        }
        proof {
            if lawful::<E>() {
                assert(entries@ =~= colleague_rows(c@, inv_sqrt_two)[row as int]);
            }
        }
        rows.push(entries);
        row = row + 1;
    }
    proof {
        if lawful::<E>() {
            assert(rows_view(rows@) =~= colleague_rows(c@, inv_sqrt_two));
        }
    }
    rows
}

/// `base` multiplied into one, `k` times.
pub open spec fn power<E: Coefficient>(base: E, k: nat) -> E
    decreases k,
{
    if k == 0 {
        one::<E>()
    } else {
        power(base, (k - 1) as nat).mul_spec(base)
    }
}

/// The tolerance on the imaginary part of an eigenvalue taken as real:
/// `1 / 10^12`.
pub open spec fn imaginary_tolerance<E: Coefficient>() -> E {
    one::<E>().div_spec(power(E::from_spec(10u8), 12))
}

/// Compute `1 / 10^12`.
pub fn tolerance<E: Coefficient>() -> (r: E)
    ensures
        lawful::<E>() ==> r == imaginary_tolerance::<E>(),
{
    let one_e = one_value::<E>();
    let ten = <E as core::convert::From<u8>>::from(10u8);
    let mut scale = one_e;
    let mut k: usize = 0;
    while k < 12
        invariant
            k <= 12,
            lawful::<E>() ==> one_e == one::<E>() && ten == E::from_spec(10u8),
            lawful::<E>() ==> scale == power(ten, k as nat),
        decreases 12 - k,
    {
        scale = e_mul(scale, ten);
        k = k + 1;
    }
    e_div(one_e, scale)
}

/// An eigenvalue `(re, im)` is taken as a real root: its imaginary part is
/// within the tolerance in absolute value and its real part is finite.
pub open spec fn accepted_eigenvalue<E: Coefficient>(z: (E, E), tolerance: E) -> bool {
    abs_value(z.1).is_le(&tolerance) && finite(z.0)
}

/// The physical images of the real parts of the accepted eigenvalues, in
/// their order.
pub open spec fn real_roots<E: Coefficient>(eigenvalues: Seq<(E, E)>, tolerance: E, domain: Range<E>) -> Seq<E> {
    eigenvalues.filter(|z: (E, E)| accepted_eigenvalue(z, tolerance)).map_values(
        |z: (E, E)| physical_coordinate(z.0, domain),
    )
}

/// The real roots that eigenvalues of the scaled problem give: the
/// accepted ones mapped to the physical domain, sorted ascending.
pub fn select_real_roots<E: Coefficient + Float>(eigenvalues: &Vec<(E, E)>, tolerance: E, domain: &Range<E>) -> (r: Vec<E>)
    ensures
        r@.len() <= eigenvalues@.len(),
        lawful::<E>() ==> r@.to_multiset() == real_roots(eigenvalues@, tolerance, *domain).to_multiset(),
        lawful::<E>() && asymmetric_on(real_roots(eigenvalues@, tolerance, *domain)) ==> ascending(r@),
{
    let mut kept: Vec<E> = Vec::new();
    let mut i: usize = 0;
    while i < eigenvalues.len()
        invariant
            i <= eigenvalues@.len(),
            kept@.len() <= i,
            lawful::<E>() ==> kept@ == real_roots(upto(eigenvalues@, i), tolerance, *domain),
        decreases eigenvalues@.len() - i,
    {
        let (re, im) = eigenvalues[i];
        proof {
            reveal_with_fuel(Seq::<_>::filter, 1);
            assert(upto(eigenvalues@, (i + 1) as usize).drop_last() =~= upto(eigenvalues@, i));
            assert(upto(eigenvalues@, (i + 1) as usize).last() == (re, im));
        }
        if abs(im) <= tolerance && is_finite(re) {
            let ghost before = kept@;
            kept.push(from_scaled(re, domain));
            proof {
                if lawful::<E>() {
                    let f = |z: (E, E)| accepted_eigenvalue(z, tolerance);
                    let g = |z: (E, E)| physical_coordinate(z.0, *domain);
                    let prefix = upto(eigenvalues@, i);
                    assert(upto(eigenvalues@, (i + 1) as usize).filter(f) == prefix.filter(f).push((re, im)));
                    assert(prefix.filter(f).push((re, im)).map_values(g) =~= prefix.filter(f).map_values(g).push(g((re, im))));
                }
            }
        } else {
            proof {
                if lawful::<E>() {
                    let f = |z: (E, E)| accepted_eigenvalue(z, tolerance);
                    assert(upto(eigenvalues@, (i + 1) as usize).filter(f) == upto(eigenvalues@, i).filter(f));
                }
            }
        }
        i = i + 1;
    }
    proof {
        assert(upto(eigenvalues@, i) =~= eigenvalues@);
    }
    sort_ascending(kept)
}

/// `all` sorts the real roots that the eigenvalues `eig` give: the same
/// elements, in ascending order where `<` is asymmetric among them.
pub open spec fn sorted_real_roots<E: Coefficient>(all: Seq<E>, eig: Seq<(E, E)>, domain: Range<E>) -> bool {
    &&& all.to_multiset() == real_roots(eig, imaginary_tolerance::<E>(), domain).to_multiset()
    &&& asymmetric_on(real_roots(eig, imaginary_tolerance::<E>(), domain)) ==> ascending(all)
}

/// `all` is a list of roots that root finding can return for the series
/// `c` on `domain`: for degree at most one the direct root, above it the
/// sorted real roots of some `n` eigenvalues for degree `n`.
pub open spec fn possible_roots<E: Coefficient>(all: Seq<E>, c: Seq<E>, domain: Range<E>) -> bool {
    if c.len() <= 2 {
        all == low_degree_roots(c, domain)
    } else {
        exists|eig: Seq<(E, E)>| #![trigger sorted_real_roots(all, eig, domain)]
            eig.len() == c.len() - 1 && sorted_real_roots(all, eig, domain)
    }
}

/// The errors of root finding for the series `c`: none below degree two;
/// above, the degenerate error exactly when the leading coefficient is
/// zero, else only an error of the eigenvalue routine.
pub open spec fn root_error<E: Coefficient, T>(r: Result<T, ChebyshevError>, c: Seq<E>) -> bool {
    &&& c.len() <= 2 ==> r is Ok
    &&& r matches Err(e) ==> e is DegeneratePolynomial || e is Linalg
    &&& lawful::<E>() && c.len() >= 3 ==> (r matches Err(ChebyshevError::DegeneratePolynomial) <==> is_zero_value(c[c.len() - 1]))
}

impl<E: Coefficient> ChebyshevSeries<E> {
    /// The root of `c_0 + c_1 T_1(t)` in physical coordinates; none when
    /// `c_1` is zero.
    pub fn linear_root(&self) -> (r: Result<Vec<E>, ChebyshevError>)
        requires
            self.coeffs().len() >= 2,
        ensures
            r is Ok,
            r matches Ok(v) ==> v@.len() <= 1,
            lawful::<E>() ==> (r matches Ok(v) ==> v@ == low_degree_roots(self.coeffs(), self.dom())),
    {
        let coefficients = self.coefficients();
        let c0 = coefficients[0];
        let c1 = coefficients[1];
        if c1 == zero_value::<E>() {
            proof {
                assert(lawful::<E>() ==> is_zero_value(self.coeffs()[1]));
            }
            return Ok(Vec::new());
        }
        let root_scaled = e_div(e_neg(c0), c1);
        let mut roots: Vec<E> = Vec::new();
        roots.push(from_scaled(root_scaled, &self.domain));
        proof {
            if lawful::<E>() {
                assert(roots@ =~= low_degree_roots(self.coeffs(), self.dom()));
            }
        }
        Ok(roots)
    }
}

impl<E: Coefficient + Float> ChebyshevSeries<E> {
    /// The colleague matrix of a series of degree at least two, whose
    /// eigenvalues are the roots in scaled coordinates; the degenerate error
    /// for a zero leading coefficient.
    pub fn companion_matrix(&self) -> (r: Result<Rows<E>, ChebyshevError>)
        requires
            self.coeffs().len() >= 3,
        ensures
            r is Err ==> r matches Err(ChebyshevError::DegeneratePolynomial),
            lawful::<E>() ==> (r is Err <==> is_zero_value(self.coeffs()[self.coeffs().len() - 1])),
            r matches Ok(m) ==> m@.len() == self.coeffs().len() - 1 && is_matrix(m@, (self.coeffs().len() - 1) as nat),
            lawful::<E>() ==> (r matches Ok(m) ==> exists|s: E| half::<E>().is_lt(&s) && #[trigger] colleague_rows(self.coeffs(), s) == rows_view(m@)),
    {
        let degree = self.degree();
        let coefficients = self.coefficients();
        if coefficients.len() != degree + 1 {
            return Err(ChebyshevError::DegeneratePolynomial);
        }
        if coefficients[degree] == zero_value::<E>() {
            return Err(ChebyshevError::DegeneratePolynomial);
        }
        let half_e = e_div(one_value::<E>(), two_value::<E>());
        let inv_sqrt_two = e_sqrt(half_e);
        let matrix = colleague_matrix(coefficients, inv_sqrt_two);
        proof {
            if lawful::<E>() {
                assert(half::<E>().is_lt(&inv_sqrt_two));
                assert(colleague_rows(self.coeffs(), inv_sqrt_two) == rows_view(matrix@));
            }
        }
        Ok(matrix)
    }
}

/// The eigenvalues of the colleague matrix of the series `c`: the matrix
/// handed to the eigenvalue routine is `colleague_rows(c, s)` for a value
/// `s` above one half that stands for `1/√2`.
fn colleague_eigenvalues<E: Coefficient + Scalar + Lapack>(matrix: &Rows<E>, Ghost(c): Ghost<Seq<E>>) -> (r: Result<Vec<(E, E)>, LinalgError>)
    requires
        c.len() >= 3,
        matrix@.len() == c.len() - 1,
        is_matrix(matrix@, (c.len() - 1) as nat),
        lawful::<E>() ==> exists|s: E| half::<E>().is_lt(&s) && #[trigger] colleague_rows(c, s) == rows_view(matrix@),
    ensures
        r matches Ok(v) ==> v@.len() == c.len() - 1,
{
    eigenvalues(matrix)
}

impl<E> ChebyshevSeries<E> where E: Coefficient + Float + Scalar + Lapack {
    /// The real roots of a series of degree at least two, from the
    /// eigenvalues of its colleague matrix.
    fn companion_roots(&self) -> (r: Result<Vec<E>, ChebyshevError>)
        requires
            self.coeffs().len() >= 3,
        ensures
            root_error(r, self.coeffs()),
            r matches Ok(v) ==> v@.len() <= self.coeffs().len() - 1,
            lawful::<E>() ==> (r matches Ok(v) ==> possible_roots(v@, self.coeffs(), self.dom())),
    {
        let tolerance = tolerance::<E>();
        let matrix = self.companion_matrix()?;
        let eigen = match colleague_eigenvalues(&matrix, Ghost(self.coeffs())) {
            Ok(v) => v,
            Err(e) => return Err(ChebyshevError::Linalg(e)),
        };
        let roots = select_real_roots(&eigen, tolerance, &self.domain);
        proof {
            if lawful::<E>() {
                assert(eigen@.len() == self.coeffs().len() - 1);
                assert(sorted_real_roots(roots@, eigen@, self.dom()));
            }
        }
        Ok(roots)
    }

    /// All real roots this implementation finds, in physical coordinates:
    /// none for a constant, the root of a linear series directly, the real
    /// eigenvalues of the colleague matrix above.
    pub fn roots(&self) -> (r: Result<Vec<E>, ChebyshevError>)
        ensures
            root_error(r, self.coeffs()),
            self.coeffs().len() == 1 ==> (r matches Ok(v) && v@.len() == 0),
            r matches Ok(v) ==> v@.len() <= max_len((self.coeffs().len() - 1) as nat, 1),
            lawful::<E>() ==> (r matches Ok(v) ==> possible_roots(v@, self.coeffs(), self.dom())),
    {
        let degree = self.degree();
        if degree == 0 {
            return Ok(Vec::new());
        }
        if degree == 1 {
            return self.linear_root();
        }
        self.companion_roots()
    }

    /// The roots inside the closed `window`, `start <= x <= end`, in the
    /// order found.
    pub fn roots_in_window(&self, window: Range<E>) -> (r: Result<Vec<E>, ChebyshevError>)
        ensures
            root_error(r, self.coeffs()),
            self.coeffs().len() == 1 ==> (r matches Ok(v) && v@.len() == 0),
            lawful::<E>() ==> (r matches Ok(v) ==> exists|all: Seq<E>| #[trigger] possible_roots(all, self.coeffs(), self.dom())
                && v@ == within(all, window)),
    {
        let roots = self.roots()?;
        let ghost all = roots@;
        let kept = roots_within(roots, &window);
        proof {
            if lawful::<E>() {
                assert(possible_roots(all, self.coeffs(), self.dom()));
            }
        }
        Ok(kept)
    }

    /// The roots inside the closed physical domain.
    pub fn roots_in_domain(&self) -> (r: Result<Vec<E>, ChebyshevError>)
        ensures
            root_error(r, self.coeffs()),
            self.coeffs().len() == 1 ==> (r matches Ok(v) && v@.len() == 0),
            lawful::<E>() ==> (r matches Ok(v) ==> exists|all: Seq<E>| #[trigger] possible_roots(all, self.coeffs(), self.dom())
                && v@ == within(all, self.dom())),
    {
        let domain = self.domain();
        self.roots_in_window(domain)
    }

    /// Whether at least one root lies inside the closed `window`.
    pub fn has_root_in_window(&self, window: Range<E>) -> (r: Result<bool, ChebyshevError>)
        ensures
            root_error(r, self.coeffs()),
            self.coeffs().len() == 1 ==> r == Ok::<bool, ChebyshevError>(false),
            lawful::<E>() ==> (r matches Ok(b) ==> exists|all: Seq<E>| #[trigger] possible_roots(all, self.coeffs(), self.dom())
                && b == (within(all, window).len() > 0)),
    {
        let roots = self.roots_in_window(window)?;
        Ok(roots.len() != 0)
    }

    /// Whether at least one root lies inside the closed physical domain.
    pub fn has_root_in_domain(&self) -> (r: Result<bool, ChebyshevError>)
        ensures
            root_error(r, self.coeffs()),
            self.coeffs().len() == 1 ==> r == Ok::<bool, ChebyshevError>(false),
            lawful::<E>() ==> (r matches Ok(b) ==> exists|all: Seq<E>| #[trigger] possible_roots(all, self.coeffs(), self.dom())
                && b == (within(all, self.dom()).len() > 0)),
    {
        let roots = self.roots_in_domain()?;
        Ok(roots.len() != 0)
    }

    /// Whether the first derivative has no root inside the domain, which
    /// makes the series monotonic there.  The converse does not hold: a
    /// monotonic series may have a stationary point where the derivative
    /// touches zero, like `x^3`.
    pub fn is_monotonic(&self) -> (r: Result<bool, ChebyshevError>)
        ensures
            self.coeffs().len() <= 3 ==> r is Ok,
            self.coeffs().len() <= 2 ==> r == Ok::<bool, ChebyshevError>(true),
            r matches Err(e) ==> e is DegeneratePolynomial || e is Linalg,
            lawful::<E>() ==> (r matches Ok(b) ==> exists|all: Seq<E>|
                #[trigger] possible_roots(all, physical_derivative(self.coeffs(), self.dom()), self.dom())
                && b == (within(all, self.dom()).len() == 0)),
    {
        proof {
            use_type_invariant(self);
        }
        let derivative = self.first_derivative();
        proof {
            use_type_invariant(&derivative);
        }
        let has_stationary_point = derivative.has_root_in_domain()?;
        Ok(!has_stationary_point)
    }
}

} // verus!
