//! A small dense-matrix library, generic over a verified element interface.
//!
//! A [`matrix::Matrix`] is an owned rectangular grid of elements. Element
//! types declare their arithmetic through the [`elem::ToMatrix`] trait
//! and, for the division-based algorithms in [`reduction`], through
//! [`elem::FieldToMatrix`]. Two element types are provided: [`i64`] with
//! wrapping arithmetic, and the prime-field type [`fp::Fp`]. The
//! algebraic laws of the operations are proved in [`laws`].

pub mod elem;
pub mod errors;
pub mod fp;
pub mod int64;
pub mod laws;
pub mod matrix;
pub mod reduction;

pub use elem::FieldToMatrix;
pub use elem::FromElem;
pub use elem::ToMatrix;
pub use errors::MatrixError;
pub use fp::Fp;
pub use matrix::Matrix;
pub use matrix::MatrixFrom;
pub use matrix::MatrixInto;
