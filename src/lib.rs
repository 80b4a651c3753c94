//! Dense vectors and row-major matrices over a generic numeric element type,
//! with shape-checked construction, indexing, transpose, products and
//! elementwise arithmetic.
//!
//! Every operation states its result over a mathematical model: a vector is
//! a sequence of scalars, a matrix a shape with its cells in row-major order,
//! and scalars form a commutative ring (`Scalar`). Operands of the wrong
//! shape give a `ShapeError`, never a wrong-shaped result.
mod modular;

pub mod algebra;
pub mod dimensions;
pub mod error;
pub mod laws;
pub mod matrix;
pub mod ops;
pub mod scalar;
pub mod vector;

pub use dimensions::Dimensions;
pub use error::ShapeError;
pub use matrix::Matrix;
pub use scalar::Scalar;
pub use vector::Vector;
