//! Fluid surface grid bookkeeping.

use vstd::prelude::*;

verus! {

/// Estimate the memory footprint (bytes) of a fluid surface grid of `f32`
/// samples.
pub fn grid_memory_bytes(dims: [usize; 3]) -> (r: usize)
    requires
        dims[0] * dims[1] <= usize::MAX,
        dims[0] * dims[1] * dims[2] <= usize::MAX,
        dims[0] * dims[1] * dims[2] * 4 <= usize::MAX,
    ensures
        r == dims[0] * dims[1] * dims[2] * 4,
{
    dims[0] * dims[1] * dims[2] * 4
}

/// Validate that dims are non-zero.
pub fn validate_dims(dims: [usize; 3]) -> (r: bool)
    ensures
        r == (dims[0] > 0 && dims[1] > 0 && dims[2] > 0),
{
    dims[0] > 0 && dims[1] > 0 && dims[2] > 0
}

/// Estimate the number of surface triangles from voxel count.
pub fn estimate_surface_triangles(active_voxels: usize) -> (r: usize)
    requires
        active_voxels * 2 <= usize::MAX,
    ensures
        r == active_voxels * 2,
{
    active_voxels * 2
}

} // verus!
