//! Procedural wrinkle pattern kinds.

use vstd::prelude::*;

verus! {

/// Spatial pattern of a wrinkle region.
#[derive(Debug, Clone, Copy, PartialEq)]
pub enum WrinklePattern {
    Linear,
    Radial,
    Noise,
}

} // verus!
