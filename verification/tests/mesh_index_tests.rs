use oxihuman::mesh_boolean_difference::{apply_keep_mask, flip_triangle_winding};
use oxihuman::mesh_boolean_intersection::count_shared_edge_candidates;
use oxihuman::mesh_boolean_ops::{boolean_op_name, boolean_op_topology, check_manifold, BooleanOpType};
use oxihuman::mesh_boolean_union::{estimate_union_vertex_count, union_triangles, validate_mesh_for_boolean};
use oxihuman::mesh_face_flip::{
    consistent_winding, flip_all_faces_ff, flip_count, flip_face_ff, flip_selected_faces, FaceFlip,
};

#[test]
fn test_flip_winding() {
    let tris = vec![[0u32, 1, 2]];
    let flipped = flip_triangle_winding(&tris);
    assert_eq!(flipped[0], [2, 1, 0]);
}

#[test]
fn test_flip_winding_multiple() {
    let tris = vec![[0u32, 1, 2], [3, 4, 5]];
    let flipped = flip_triangle_winding(&tris);
    assert_eq!(flipped.len(), 2);
    assert_eq!(flipped[1], [5, 4, 3]);
}

#[test]
fn test_apply_keep_mask_all_true() {
    let tris = vec![[0u32, 1, 2], [3, 4, 5]];
    let mask = vec![true, true];
    let result = apply_keep_mask(&tris, &mask);
    assert_eq!(result.len(), 2);
}

#[test]
fn test_apply_keep_mask_mixed() {
    let tris = vec![[0u32, 1, 2], [3, 4, 5]];
    let mask = vec![true, false];
    let result = apply_keep_mask(&tris, &mask);
    assert_eq!(result.len(), 1);
}

#[test]
fn apply_keep_mask_uses_shorter_length() {
    let tris = vec![[0u32, 1, 2], [3, 4, 5], [6, 7, 8]];
    let mask = vec![false, true];
    assert_eq!(apply_keep_mask(&tris, &mask), vec![[3, 4, 5]]);
    let long_mask = vec![true, false, true, true, true];
    assert_eq!(apply_keep_mask(&tris, &long_mask), vec![[0, 1, 2], [6, 7, 8]]);
}

#[test]
fn flip_winding_twice_is_identity() {
    let tris = vec![[7u32, 8, 9], [1, 0, 5]];
    assert_eq!(flip_triangle_winding(&flip_triangle_winding(&tris)), tris);
}

#[test]
fn test_count_shared_edge_candidates() {
    let ta = vec![[0u32, 1, 2], [1, 2, 3]];
    let tb = vec![[0u32, 1, 2]];
    assert_eq!(count_shared_edge_candidates(&ta, &tb), 1);
}

#[test]
fn test_boolean_op_name() {
    assert_eq!(boolean_op_name(BooleanOpType::Union), "union");
    assert_eq!(boolean_op_name(BooleanOpType::Intersect), "intersect");
    assert_eq!(boolean_op_name(BooleanOpType::Subtract), "subtract");
}

#[test]
fn test_estimate_vertex_count() {
    assert_eq!(estimate_union_vertex_count(10, 20), 30);
}

#[test]
fn test_validate_mesh_valid() {
    let tris = vec![[0u32, 1, 2]];
    assert!(validate_mesh_for_boolean(3, &tris));
}

#[test]
fn test_validate_mesh_invalid_index() {
    let tris = vec![[0u32, 1, 5]];
    assert!(!validate_mesh_for_boolean(2, &tris));
}

#[test]
fn test_union_index_offset() {
    let ta = vec![[0u32, 1, 2]];
    let tb = vec![[0u32, 1, 2]];
    let tris = union_triangles(3, &ta, &tb);
    assert_eq!(tris.len(), 2);
    assert_eq!(tris[0], [0, 1, 2]);
    assert_eq!(tris[1], [3, 4, 5]);
}

#[test]
fn union_with_empty_b_is_a() {
    let ta = vec![[0u32, 1, 2], [2, 1, 3]];
    assert_eq!(union_triangles(4, &ta, &[]), ta);
}

#[test]
fn check_manifold_counts_edges() {
    // Two triangles sharing edge (0,2): every edge used at most twice.
    assert!(check_manifold(&[[0, 1, 2], [0, 2, 3]], 4));
    // Three triangles on edge (0,1): not manifold.
    assert!(!check_manifold(&[[0, 1, 2], [1, 0, 3], [0, 1, 4]], 5));
    assert!(check_manifold(&[], 0));
}

#[test]
fn boolean_subtract_keeps_outside_faces_and_compacts() {
    // A: two faces; the second lies inside B.
    let faces_a = vec![[0u32, 1, 2], [0, 2, 3]];
    let inside = vec![false, true];
    let faces_b = vec![[0u32, 1, 2]];
    let r = boolean_op_topology(4, &faces_a, &inside, &faces_b, BooleanOpType::Subtract);
    assert_eq!(r.a_sources, vec![0, 1, 2]);
    assert_eq!(r.faces, vec![[0, 1, 2]]);
    assert!(r.is_manifold);
}

#[test]
fn boolean_intersect_renumbers_vertices() {
    let faces_a = vec![[0u32, 1, 2], [3, 2, 4]];
    let inside = vec![false, true];
    let r = boolean_op_topology(5, &faces_a, &inside, &[], BooleanOpType::Intersect);
    assert_eq!(r.a_sources, vec![3, 2, 4]);
    assert_eq!(r.faces, vec![[0, 1, 2]]);
}

#[test]
fn boolean_intersect_empty_when_nothing_inside() {
    let faces_a = vec![[0u32, 1, 2], [0, 2, 3]];
    let inside = vec![false, false];
    let r = boolean_op_topology(4, &faces_a, &inside, &[[0, 1, 2]], BooleanOpType::Intersect);
    assert!(r.faces.is_empty());
    assert!(r.a_sources.is_empty());
}

#[test]
fn boolean_union_appends_b_after_a_vertices() {
    let faces_a = vec![[0u32, 1, 2], [0, 2, 3]];
    let inside = vec![false, true];
    let faces_b = vec![[0u32, 1, 2], [0, 2, 3]];
    let r = boolean_op_topology(4, &faces_a, &inside, &faces_b, BooleanOpType::Union);
    assert_eq!(r.a_sources, vec![0, 1, 2]);
    assert_eq!(r.faces, vec![[0, 1, 2], [3, 4, 5], [3, 5, 6]]);
    assert!(r.faces.len() >= faces_b.len());
}

#[test]
fn test_flip_face() {
    assert_eq!(flip_face_ff([0, 1, 2]), [0, 2, 1]);
}

#[test]
fn test_flip_all() {
    let r = flip_all_faces_ff(&[[0, 1, 2], [3, 4, 5]]);
    assert_eq!(r, vec![[0, 2, 1], [3, 5, 4]]);
}

#[test]
fn test_flip_selected() {
    let mut tris = [[0, 1, 2], [3, 4, 5]];
    flip_selected_faces(&mut tris, &[1]);
    assert_eq!(tris[1], [3, 5, 4]);
    assert_eq!(tris[0], [0, 1, 2]);
}

#[test]
fn flip_selected_twice_restores_and_ignores_out_of_range() {
    let mut tris = [[0, 1, 2], [3, 4, 5]];
    flip_selected_faces(&mut tris, &[0, 7, 0, 1]);
    assert_eq!(tris, [[0, 1, 2], [3, 5, 4]]);
}

#[test]
fn test_flip_count() {
    let ff = FaceFlip { flipped_indices: vec![0, 2] };
    assert_eq!(flip_count(&ff), 2);
}

#[test]
fn test_consistent_winding() {
    let tris = vec![[0, 1, 2]];
    assert_eq!(consistent_winding(&tris), tris);
}

#[test]
fn test_flip_face_identity() {
    let t = [5, 6, 7];
    let flipped = flip_face_ff(flip_face_ff(t));
    assert_eq!(flipped, t);
}

#[test]
fn contains_range() {
    let v = 0.5_f32;
    assert!((0.0..=1.0).contains(&v));
}

#[test]
fn flip_all_faces_twice_is_identity() {
    let tris = vec![[0, 1, 2], [3, 4, 5], [9, 7, 8]];
    assert_eq!(flip_all_faces_ff(&flip_all_faces_ff(&tris)), tris);
}

#[test]
fn consistent_winding_flips_neighbours_against_face_zero() {
    assert_eq!(consistent_winding(&[[0, 1, 2], [1, 2, 3]]), vec![[0, 1, 2], [1, 3, 2]]);
    assert_eq!(consistent_winding(&[[0, 1, 2], [2, 1, 3]]), vec![[0, 1, 2], [2, 1, 3]]);
    assert_eq!(
        consistent_winding(&[[0, 1, 2], [1, 2, 3], [2, 3, 4], [7, 8, 9]]),
        vec![[0, 1, 2], [1, 3, 2], [2, 3, 4], [7, 8, 9]]
    );
    assert!(consistent_winding(&[]).is_empty());
}

#[test]
fn consistent_winding_on_flipped_quad_strip() {
    // A 2x1 quad strip whose second triangle and third triangle are wound
    // the wrong way round; face 0 decides.
    let tris = [[0, 1, 4], [1, 4, 5], [1, 2, 5], [2, 6, 5]];
    let out = consistent_winding(&tris);
    assert_eq!(out, vec![[0, 1, 4], [1, 5, 4], [1, 2, 5], [2, 6, 5]]);
}

fn runs_with(a: [u32; 3], b: [u32; 3]) -> bool {
    let edges_a = [(a[0], a[1]), (a[1], a[2]), (a[2], a[0])];
    let edges_b = [(b[0], b[1]), (b[1], b[2]), (b[2], b[0])];
    edges_a.iter().any(|e| edges_b.contains(e))
}

#[test]
fn consistent_winding_makes_closed_tetrahedron_coherent() {
    // Every face of a tetrahedron shares an edge with every other; the input
    // windings are mixed.
    let tris = [[0, 1, 2], [0, 1, 3], [0, 2, 3], [1, 2, 3]];
    let out = consistent_winding(&tris);
    assert_eq!(out[0], [0, 1, 2]);
    for i in 0..4 {
        for j in 0..4 {
            if i != j {
                assert!(!runs_with(out[i], out[j]), "faces {} and {} share a directed edge", i, j);
            }
        }
    }
    assert_eq!(out, vec![[0, 1, 2], [0, 3, 1], [0, 2, 3], [1, 3, 2]]);
}
