//! Trusted calls into `ndarray` and `ndarray-linalg` for the dense linear
//! algebra of fitting, interpolation and root finding.  Matrices are passed
//! as rows of equal length.  The matrix-vector product is ndarray's own
//! dot product and is stated; what the LAPACK routines return is stated
//! only by its shape.
use vstd::prelude::*;
use ndarray::{Array1, Array2};
use ndarray_linalg::error::LinalgError;
use ndarray_linalg::{Lapack, Scalar, Solve, LeastSquaresSvdInto, Inverse, EigVals};
use vstd::std_specs::ops::{AddSpec, MulSpec};
use vstd::std_specs::cmp::{PartialOrdSpec, PartialOrdIs};
use vstd::float::FloatBitsProperties;
use crate::scalar::{Coefficient, lawful, zero, one};

verus! {

/// A dense matrix as its rows.
pub type Rows<E> = Vec<Vec<E>>;

/// Every row has `cols` entries.
pub open spec fn is_matrix<E>(rows: Seq<Vec<E>>, cols: nat) -> bool {
    forall|i: int| 0 <= i < rows.len() ==> (#[trigger] rows[i])@.len() == cols
}

/// The least-squares solution `x` of `A x = b`
/// (`ndarray_linalg::LeastSquaresSvdInto::least_squares_into`, its
/// `solution`): when it succeeds, `x` has one entry per column of `A`.
#[verifier::external_body]
pub(crate) fn least_squares<E: Coefficient + Scalar + Lapack>(matrix: &Rows<E>, cols: usize, rhs: &Vec<E>) -> (r: Result<Vec<E>, LinalgError>)
    requires
        matrix@.len() >= 1,
        cols >= 1,
        is_matrix(matrix@, cols as nat),
    ensures
        r matches Ok(x) ==> x@.len() == cols,
{
    let a = Array2::from_shape_vec((matrix.len(), cols), matrix.concat())?;
    let b = Array1::from_vec(rhs.clone());
    Ok(a.least_squares_into(b)?.solution.to_vec())
}

/// The solution `x` of the square system `A x = b`
/// (`ndarray_linalg::Solve::solve_into`): when it succeeds, `x` has one
/// entry per column.
#[verifier::external_body]
pub(crate) fn solve<E: Coefficient + Scalar + Lapack>(matrix: &Rows<E>, rhs: &Vec<E>) -> (r: Result<Vec<E>, LinalgError>)
    requires
        matrix@.len() >= 1,
        is_matrix(matrix@, matrix@.len()),
        rhs@.len() == matrix@.len(),
    ensures
        r matches Ok(x) ==> x@.len() == matrix@.len(),
{
    let a = Array2::from_shape_vec((matrix.len(), matrix.len()), matrix.concat())?;
    let b = Array1::from_vec(rhs.clone());
    Ok(a.solve_into(b)?.to_vec())
}

/// Running sum number `lane` of ndarray's unrolled dot product after
/// `blocks` blocks of eight: `x[8b + lane] * y[8b + lane]` added in order,
/// from zero.
pub open spec fn lane_sum<E: Coefficient>(xs: Seq<E>, ys: Seq<E>, lane: int, blocks: nat) -> E
    decreases blocks,
{
    if blocks == 0 {
        zero::<E>()
    } else {
        let k = 8 * (blocks - 1) + lane;
        lane_sum(xs, ys, lane, (blocks - 1) as nat).add_spec(xs[k].mul_spec(ys[k]))
    }
}

/// `init` with the products `x[start + i] * y[start + i]`, `i < count`,
/// added in order.
pub open spec fn tail_sum<E: Coefficient>(xs: Seq<E>, ys: Seq<E>, start: int, count: nat, init: E) -> E
    decreases count,
{
    if count == 0 {
        init
    } else {
        let k = start + count - 1;
        tail_sum(xs, ys, start, (count - 1) as nat, init).add_spec(xs[k].mul_spec(ys[k]))
    }
}

/// ndarray's dot product of two vectors of equal length
/// (`ndarray::numeric_util::unrolled_dot`): eight running sums over the
/// blocks of eight, added to zero in the pairs (0, 4), (1, 5), (2, 6),
/// (3, 7), then the remaining products added in order.
pub open spec fn unrolled_dot<E: Coefficient>(xs: Seq<E>, ys: Seq<E>) -> E {
    let len = if xs.len() <= ys.len() { xs.len() } else { ys.len() };
    let blocks = len / 8;
    let head = zero::<E>().add_spec(lane_sum(xs, ys, 0, blocks).add_spec(lane_sum(xs, ys, 4, blocks))).add_spec(
        lane_sum(xs, ys, 1, blocks).add_spec(lane_sum(xs, ys, 5, blocks)),
    ).add_spec(lane_sum(xs, ys, 2, blocks).add_spec(lane_sum(xs, ys, 6, blocks))).add_spec(
        lane_sum(xs, ys, 3, blocks).add_spec(lane_sum(xs, ys, 7, blocks)),
    );
    tail_sum(xs, ys, (8 * blocks) as int, len % 8, head)
}

/// The product `A x` (`ndarray::ArrayBase::dot`, built without BLAS): one
/// entry per row of `A`, each the unrolled dot product of the row with `x`,
/// times one.
#[verifier::external_body]
pub(crate) fn matrix_vector<E: Coefficient + Scalar + Lapack>(matrix: &Rows<E>, cols: usize, x: &Vec<E>) -> (r: Result<Vec<E>, LinalgError>)
    requires
        matrix@.len() >= 1,
        cols >= 1,
        is_matrix(matrix@, cols as nat),
        x@.len() == cols,
    ensures
        r matches Ok(y) ==> y@.len() == matrix@.len(),
        r matches Ok(y) ==> lawful::<E>() ==> forall|i: int| 0 <= i < matrix@.len() ==> #[trigger] y@[i]
            == unrolled_dot(matrix@[i]@, x@).mul_spec(one::<E>()),
{
    let a = Array2::from_shape_vec((matrix.len(), cols), matrix.concat())?;
    Ok(a.dot(&Array1::from_vec(x.clone())).to_vec())
}

/// The normal matrix, the transpose of `A` times `A` (`ndarray::ArrayBase::t`
/// and `dot`): square, one row and column per column of `A`.
#[verifier::external_body]
pub(crate) fn normal_matrix<E: Coefficient + Scalar + Lapack>(matrix: &Rows<E>, cols: usize) -> (r: Result<Rows<E>, LinalgError>)
    requires
        matrix@.len() >= 1,
        cols >= 1,
        is_matrix(matrix@, cols as nat),
    ensures
        r matches Ok(m) ==> m@.len() == cols && is_matrix(m@, cols as nat),
{
    let a = Array2::from_shape_vec((matrix.len(), cols), matrix.concat())?;
    let mut rows = Vec::new();
    for row in a.t().dot(&a).outer_iter() {
        rows.push(row.to_vec());
    }
    Ok(rows)
}

/// The inverse of a square matrix (`ndarray_linalg::Inverse::inv`): of the
/// same size.
#[verifier::external_body]
pub(crate) fn inverse<E: Coefficient + Scalar + Lapack>(matrix: &Rows<E>) -> (r: Result<Rows<E>, LinalgError>)
    requires
        matrix@.len() >= 1,
        is_matrix(matrix@, matrix@.len()),
    ensures
        r matches Ok(m) ==> m@.len() == matrix@.len() && is_matrix(m@, matrix@.len()),
{
    let a = Array2::from_shape_vec((matrix.len(), matrix.len()), matrix.concat())?;
    let mut rows = Vec::new();
    for row in a.inv()?.outer_iter() {
        rows.push(row.to_vec());
    }
    Ok(rows)
}

/// The eigenvalues of a square matrix as `(re, im)` pairs
/// (`ndarray_linalg::EigVals::eigvals`): one per row.
#[verifier::external_body]
pub(crate) fn eigenvalues<E: Coefficient + Scalar + Lapack>(matrix: &Rows<E>) -> (r: Result<Vec<(E, E)>, LinalgError>)
    requires
        matrix@.len() >= 1,
        is_matrix(matrix@, matrix@.len()),
    ensures
        r matches Ok(v) ==> v@.len() == matrix@.len(),
{
    let a = Array2::from_shape_vec((matrix.len(), matrix.len()), matrix.concat())?;
    let mut values = Vec::new();
    for z in a.eigvals()?.iter() {
        values.push((E::from_real(z.re()), E::from_real(z.im())));
    }
    Ok(values)
}

/// The square root (`ndarray_linalg::Scalar::sqrt`, which for real types
/// is `num_traits::Float::sqrt`): NaN for a negative argument; its value
/// otherwise is not stated.
#[verifier::external_body]
pub(crate) fn scalar_sqrt<E: Coefficient + Scalar + Lapack>(x: E) -> (r: E)
    ensures
        lawful::<E>() && x.is_lt(&zero::<E>()) ==> r.is_nan_spec(),
{
    Scalar::sqrt(x)
}

} // verus!
