//! The boolean combinations of two solids.

use vstd::prelude::*;

verus! {

/// Boolean operation on manifolds.
#[derive(Clone, Copy, Debug, PartialEq, Eq, Structural)]
pub enum BooleanOp {
    /// Union of two manifolds.
    Union,
    /// Intersection of two manifolds.
    Intersection,
    /// Difference of two manifolds.
    Difference,
}

} // verus!
