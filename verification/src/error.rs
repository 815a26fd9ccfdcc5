//! Errors surfaced by shape, view and broadcasting operations.
//!
//! All of these are recoverable caller errors: the operation that reports
//! one aborts without partial mutation.

use crate::shape::Shape;
use vstd::prelude::*;

verus! {

#[derive(Clone, Copy, Debug)]
pub enum GError {
    /// Broadcasting could not unify two shapes.
    IncompatibleShape,
    /// An axis index at or beyond the rank was given to a view operation.
    DimOutOfRange { shape: Shape, dim: usize, op: &'static str },
    /// A `narrow` sub-range does not fit inside the narrowed axis.
    NarrowInvalidArgs { shape: Shape, dim: usize, start: usize, len: usize, msg: &'static str },
    /// A rank or axis count exceeded what the operation can accept.
    UnexpectedNumberOfDims { expected: usize, got: usize },
}

pub type GResult<T> = Result<T, GError>;

} // verus!
