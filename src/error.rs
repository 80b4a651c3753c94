//! The ways in which an operation on vectors and matrices can fail.
use crate::dimensions::Dimensions;
use vstd::prelude::*;

verus! {

/// Why an operation on vectors or matrices refused its operands.
///
/// A vector of length `n` is described by the shape `n x 1`.
#[derive(Debug, Clone, Copy, PartialEq, Eq, Structural)]
pub enum ShapeError {
    /// A matrix was built from rows of differing lengths, or from a flat
    /// buffer whose length is not `rows * cols`. `dimensions` is the shape
    /// asked for; `found` is the length of the first offending row, or of the
    /// buffer.
    ShapeConstruction { dimensions: Dimensions, found: usize },
    /// The operands of a binary operation have shapes that it cannot combine.
    DimensionMismatch { lhs: Dimensions, rhs: Dimensions },
    /// A row or element position at or past the end of its range.
    IndexOutOfRange { index: usize, bound: usize },
}

/// The shape that describes a vector of length `len`: a single column.
pub open spec fn column_shape(len: nat) -> Dimensions {
    Dimensions { rows: len as usize, cols: 1 }
}

/// The shape that describes a vector of length `len`: a single column.
pub fn column(len: usize) -> (d: Dimensions)
    ensures
        d == column_shape(len as nat),
{
    Dimensions { rows: len, cols: 1 }
}

} // verus!
