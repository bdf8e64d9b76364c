//! The ways in which an operation can refuse its input.

use vstd::prelude::*;

verus! {

/// Why an operation did not produce a result. A failed operation leaves its
/// inputs untouched and produces nothing.
#[derive(Clone, Copy, Debug, PartialEq, Eq, Structural)]
pub enum Error {
    /// A numeric parameter is out of range: a dimension that is not positive,
    /// too few segments, a plane whose normal is the zero vector.
    InvalidParameter,
    /// The input does not describe an acceptable shape: a buffer that breaks
    /// its own structure, or a surface that is not closed and consistently
    /// wound.
    InvalidGeometry,
}

} // verus!
