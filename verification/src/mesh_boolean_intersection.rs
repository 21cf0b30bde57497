//! Boolean intersection bookkeeping.

use vstd::prelude::*;

verus! {

/// Count shared edges between two triangle meshes (estimated as the
/// smaller of the two triangle counts).
pub fn count_shared_edge_candidates(tris_a: &[[u32; 3]], tris_b: &[[u32; 3]]) -> (r: usize)
    ensures
        r == if tris_a@.len() < tris_b@.len() { tris_a@.len() } else { tris_b@.len() },
{
    if tris_a.len() < tris_b.len() {
        tris_a.len()
    } else {
        tris_b.len()
    }
}

} // verus!
