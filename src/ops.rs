//! The operation engine as free functions: transpose, dot product, and the
//! matrix-matrix and matrix-vector products.
use crate::algebra::dot_spec;
use crate::error::{column_shape, ShapeError};
use crate::matrix::{is_product, is_transpose, is_vector_product, Matrix};
use crate::scalar::Scalar;
use crate::vector::Vector;
use vstd::prelude::*;

verus! {

/// Multiplies two row-major matrices; `DimensionMismatch` unless `lhs` has
/// as many columns as `rhs` has rows.
pub fn mat_mul<S: Scalar>(lhs: &Matrix<S>, rhs: &Matrix<S>) -> (r: Result<Matrix<S>, ShapeError>)
    requires
        lhs.wf(),
        rhs.wf(),
    ensures
        match r {
            Ok(m) => lhs.dims().cols == rhs.dims().rows && is_product(*lhs, *rhs, m),
            Err(e) => lhs.dims().cols != rhs.dims().rows && e == ShapeError::DimensionMismatch {
                lhs: lhs.dims(),
                rhs: rhs.dims(),
            },
        },
{
    lhs.mul(rhs)
}

/// Multiplies a matrix with a column vector; `DimensionMismatch` unless the
/// vector's length is the matrix's number of columns.
pub fn mat_vec_mul<S: Scalar>(lhs: &Matrix<S>, rhs: &Vector<S>) -> (r: Result<Vector<S>, ShapeError>)
    requires
        lhs.wf(),
    ensures
        match r {
            Ok(v) => lhs.dims().cols == rhs@.len() && is_vector_product(*lhs, rhs@, v@),
            Err(e) => lhs.dims().cols != rhs@.len() && e == ShapeError::DimensionMismatch {
                lhs: lhs.dims(),
                rhs: column_shape(rhs@.len()),
            },
        },
{
    lhs.mul_vector(rhs)
}

/// The transpose of a matrix.
pub fn transpose<S: Copy>(mat: &Matrix<S>) -> (m: Matrix<S>)
    requires
        mat.wf(),
    ensures
        is_transpose(*mat, m),
{
    mat.transpose()
}

/// The dot product of two vectors of equal length, accumulated left to right
/// from zero; `DimensionMismatch` where the lengths differ.
pub fn dot<S: Scalar>(a: &Vector<S>, b: &Vector<S>) -> (r: Result<S, ShapeError>)
    ensures
        match r {
            Ok(x) => a@.len() == b@.len() && x == dot_spec(a@, b@),
            Err(e) => a@.len() != b@.len() && e == ShapeError::DimensionMismatch {
                lhs: column_shape(a@.len()),
                rhs: column_shape(b@.len()),
            },
        },
{
    a.dot(b)
}

} // verus!
