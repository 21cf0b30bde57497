//! CSG operation kinds for signed-distance combination.

use vstd::prelude::*;

verus! {

/// CSG operation type.
#[derive(Debug, Clone, Copy, PartialEq, Eq)]
pub enum CsgOp {
    Union,
    Intersect,
    Subtract,
}

} // verus!
