//! Platonic solid topology (tetrahedron, cube, octahedron, dodecahedron,
//! icosahedron): vertex counts and triangle index lists.

use vstd::prelude::*;
use crate::mesh_boolean_union::indices_below;

verus! {

/// The five Platonic solid types.
#[derive(Debug, Clone, Copy, PartialEq, Eq)]
pub enum PlatonicKind {
    Tetrahedron,
    Cube,
    Octahedron,
    Dodecahedron,
    Icosahedron,
}

/// Number of vertices each solid is built with.
pub open spec fn spec_platonic_vertex_count(kind: PlatonicKind) -> nat {
    match kind {
        PlatonicKind::Tetrahedron => 4,
        PlatonicKind::Cube => 8,
        PlatonicKind::Octahedron => 6,
        PlatonicKind::Dodecahedron => 21,
        PlatonicKind::Icosahedron => 12,
    }
}

/// The triangles each solid is built with.
pub open spec fn spec_platonic_tris(kind: PlatonicKind) -> Seq<[u32; 3]> {
    match kind {
        PlatonicKind::Tetrahedron => seq![[0u32, 1, 2], [0, 2, 3], [0, 3, 1], [1, 3, 2]],
        PlatonicKind::Cube => seq![
            [0u32, 2, 1], [0, 3, 2], [4, 5, 6], [4, 6, 7], [0, 1, 5], [0, 5, 4],
            [2, 3, 7], [2, 7, 6], [0, 4, 7], [0, 7, 3], [1, 2, 6], [1, 6, 5],
        ],
        PlatonicKind::Octahedron => seq![
            [0u32, 2, 4], [2, 1, 4], [1, 3, 4], [3, 0, 4], [0, 5, 2], [2, 5, 1], [1, 5, 3], [3, 5, 0],
        ],
        PlatonicKind::Dodecahedron => seq![
            [0u32, 16, 1], [0, 8, 4], [0, 12, 2], [1, 10, 5], [2, 18, 6], [3, 11, 7], [4, 17, 5],
            [6, 19, 7], [8, 9, 4], [9, 6, 2], [10, 11, 3], [12, 13, 1], [13, 3, 3], [14, 15, 5],
            [15, 7, 7], [16, 17, 4], [18, 19, 6], [19, 15, 7], [0, 1, 12], [4, 5, 14],
        ],
        PlatonicKind::Icosahedron => seq![
            [0u32, 11, 5], [0, 5, 1], [0, 1, 7], [0, 7, 10], [0, 10, 11], [1, 5, 9], [5, 11, 4],
            [11, 10, 2], [10, 7, 6], [7, 1, 8], [3, 9, 4], [3, 4, 2], [3, 2, 6], [3, 6, 8],
            [3, 8, 9], [4, 9, 5], [2, 4, 11], [6, 2, 10], [8, 6, 7], [9, 8, 1],
        ],
    }
}

/// Number of vertices the requested solid is built with.
pub fn platonic_kind_vertex_count(kind: PlatonicKind) -> (r: usize)
    ensures
        r == spec_platonic_vertex_count(kind),
{
    match kind {
        PlatonicKind::Tetrahedron => 4,
        PlatonicKind::Cube => 8,
        PlatonicKind::Octahedron => 6,
        PlatonicKind::Dodecahedron => 21,
        PlatonicKind::Icosahedron => 12,
    }
}

/// The triangle list of the requested solid.
pub fn platonic_tris(kind: PlatonicKind) -> (r: Vec<[u32; 3]>)
    ensures
        r@ == spec_platonic_tris(kind),
{
    let v = match kind {
        PlatonicKind::Tetrahedron => vec![[0u32, 1, 2], [0, 2, 3], [0, 3, 1], [1, 3, 2]],
        PlatonicKind::Cube => vec![
            [0u32, 2, 1], [0, 3, 2], [4, 5, 6], [4, 6, 7], [0, 1, 5], [0, 5, 4],
            [2, 3, 7], [2, 7, 6], [0, 4, 7], [0, 7, 3], [1, 2, 6], [1, 6, 5],
        ],
        PlatonicKind::Octahedron => vec![
            [0u32, 2, 4], [2, 1, 4], [1, 3, 4], [3, 0, 4], [0, 5, 2], [2, 5, 1], [1, 5, 3], [3, 5, 0],
        ],
        PlatonicKind::Dodecahedron => vec![
            [0u32, 16, 1], [0, 8, 4], [0, 12, 2], [1, 10, 5], [2, 18, 6], [3, 11, 7], [4, 17, 5],
            [6, 19, 7], [8, 9, 4], [9, 6, 2], [10, 11, 3], [12, 13, 1], [13, 3, 3], [14, 15, 5],
            [15, 7, 7], [16, 17, 4], [18, 19, 6], [19, 15, 7], [0, 1, 12], [4, 5, 14],
        ],
        PlatonicKind::Icosahedron => vec![
            [0u32, 11, 5], [0, 5, 1], [0, 1, 7], [0, 7, 10], [0, 10, 11], [1, 5, 9], [5, 11, 4],
            [11, 10, 2], [10, 7, 6], [7, 1, 8], [3, 9, 4], [3, 4, 2], [3, 2, 6], [3, 6, 8],
            [3, 8, 9], [4, 9, 5], [2, 4, 11], [6, 2, 10], [8, 6, 7], [9, 8, 1],
        ],
    };
    assert(v@ =~= spec_platonic_tris(kind));
    v
}

/// Validate index bounds: every index is below `vert_count` taken as a
/// `u32`.
pub fn validate_platonic(vert_count: usize, tris: &[[u32; 3]]) -> (r: bool)
    ensures
        r == indices_below(tris@, (vert_count as u32) as int),
{
    crate::mesh_boolean_union::validate_mesh_for_boolean(vert_count, tris)
}

/// Every solid's triangles index only its own vertices, and the solids have
/// 4, 12, 8, 20 and 20 triangles.
pub proof fn lemma_platonic_valid(kind: PlatonicKind)
    ensures
        indices_below(spec_platonic_tris(kind), spec_platonic_vertex_count(kind) as int),
        spec_platonic_tris(kind).len() == match kind {
            PlatonicKind::Tetrahedron => 4nat,
            PlatonicKind::Cube => 12,
            PlatonicKind::Octahedron => 8,
            PlatonicKind::Dodecahedron => 20,
            PlatonicKind::Icosahedron => 20,
        },
{
    let t = spec_platonic_tris(kind);
    let n = spec_platonic_vertex_count(kind) as int;
    assert forall|i: int| 0 <= i < t.len() implies #[trigger] t[i][0] < n && t[i][1] < n && t[i][2] < n by {
        match kind {
            PlatonicKind::Tetrahedron => {},
            PlatonicKind::Cube => {},
            PlatonicKind::Octahedron => {},
            PlatonicKind::Dodecahedron => {},
            PlatonicKind::Icosahedron => {},
        }
    }
}

} // verus!
