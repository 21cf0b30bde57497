use oxihuman::mesh_fluid_surface::{estimate_surface_triangles, grid_memory_bytes, validate_dims};
use oxihuman::mesh_platonic_solid::{platonic_kind_vertex_count, platonic_tris, validate_platonic, PlatonicKind};
use oxihuman::mesh_spin_duplicate::{spin_face_count, spin_profile_indices, spin_to_json, spin_vertex_count, SpinResult};
use oxihuman::mesh_triangulate::{
    default_triangulate_config, triangulate_fan, triangulate_polygon, triangulate_to_json,
    triangulate_triangle_count, triangulate_validate, TriangulateConfig, TriangulateMethod,
};
use oxihuman::mesh_voxel_remesh::{
    filled_voxel_count, new_voxel_remesh_grid, remesh_from_voxels, set_voxel_remesh, voxel_at_remesh,
    voxel_remesh_result_to_json, VoxelRemeshResult,
};

#[test]
fn grid_memory_nonzero() {
    assert!(grid_memory_bytes([4, 4, 4]) > 0);
}

#[test]
fn grid_memory_exact() {
    assert_eq!(grid_memory_bytes([4, 5, 6]), 480);
    assert_eq!(grid_memory_bytes([0, 5, 6]), 0);
}

#[test]
fn validate_dims_ok() {
    assert!(validate_dims([8, 8, 8]));
}

#[test]
fn validate_dims_zero() {
    assert!(!validate_dims([0, 8, 8]));
}

#[test]
fn estimate_triangles() {
    assert_eq!(estimate_surface_triangles(100), 200);
}

#[test]
fn fan_triangle_from_quad() {
    let quad = vec![0u32, 1, 2, 3];
    let res = triangulate_fan(&quad);
    assert_eq!(res.triangle_count, 2);
    assert_eq!(res.indices.len(), 6);
}

#[test]
fn fan_triangle_from_pentagon() {
    let pent = vec![0u32, 1, 2, 3, 4];
    let res = triangulate_fan(&pent);
    assert_eq!(res.triangle_count, 3);
}

#[test]
fn triangle_unchanged() {
    let tri = vec![0u32, 1, 2];
    let res = triangulate_fan(&tri);
    assert_eq!(res.triangle_count, 1);
}

#[test]
fn less_than_three_returns_empty() {
    let poly = vec![0u32, 1];
    let res = triangulate_fan(&poly);
    assert_eq!(res.triangle_count, 0);
    assert!(res.indices.is_empty());
}

#[test]
fn validate_rejects_small_polygon() {
    assert!(!triangulate_validate(&[0u32, 1]));
    assert!(triangulate_validate(&[0u32, 1, 2]));
}

#[test]
fn default_method_is_fan() {
    let cfg = default_triangulate_config();
    assert_eq!(cfg.method, TriangulateMethod::Fan);
}

#[test]
fn earclip_method_produces_triangles() {
    let cfg = TriangulateConfig { method: TriangulateMethod::EarClip };
    let quad = vec![0u32, 1, 2, 3];
    let res = triangulate_polygon(&quad, &cfg);
    assert_eq!(res.triangle_count, 2);
}

#[test]
fn to_json_correct_format() {
    let quad = vec![0u32, 1, 2, 3];
    let res = triangulate_fan(&quad);
    let json = triangulate_to_json(&res);
    assert!(json.contains("triangle_count"));
    assert!(json.contains("index_count"));
}

#[test]
fn fan_indices_exact() {
    let res = triangulate_fan(&[10u32, 11, 12, 13, 14]);
    assert_eq!(res.indices, vec![10, 11, 12, 10, 12, 13, 10, 13, 14]);
    assert_eq!(triangulate_triangle_count(&res), 3);
    assert_eq!(triangulate_to_json(&res), r#"{"triangle_count":3,"index_count":9}"#);
}

#[test]
fn result_json_round_trip() {
    let r = VoxelRemeshResult { vertex_count: 100, triangle_count: 50, success: true, iterations: 3 };
    let j = voxel_remesh_result_to_json(&r);
    assert!(j.contains("\"success\":true"));
    assert!(j.contains("\"iterations\":3"));
}

#[test]
fn result_json_exact_text() {
    let r = VoxelRemeshResult { vertex_count: 1024, triangle_count: 0, success: false, iterations: 17 };
    assert_eq!(
        voxel_remesh_result_to_json(&r),
        r#"{"vertex_count":1024,"triangle_count":0,"success":false,"iterations":17}"#
    );
}

#[test]
fn new_grid_all_false() {
    let g = new_voxel_remesh_grid(4, 4, 4);
    assert_eq!(filled_voxel_count(&g), 0);
    assert_eq!(g.data.len(), 64);
}

#[test]
fn set_and_get_voxel() {
    let mut g = new_voxel_remesh_grid(4, 4, 4);
    set_voxel_remesh(&mut g, 1, 2, 3, true);
    assert!(voxel_at_remesh(&g, 1, 2, 3));
    assert!(!voxel_at_remesh(&g, 0, 0, 0));
    assert_eq!(g.data[1 + 2 * 4 + 3 * 16], true);
}

#[test]
fn out_of_bounds_is_false() {
    let mut g = new_voxel_remesh_grid(2, 2, 2);
    assert!(!voxel_at_remesh(&g, 10, 10, 10));
    set_voxel_remesh(&mut g, 2, 0, 0, true);
    assert_eq!(filled_voxel_count(&g), 0);
}

#[test]
fn remesh_from_empty_grid_not_success() {
    let g = new_voxel_remesh_grid(4, 4, 4);
    let r = remesh_from_voxels(&g, 3);
    assert!(!r.success);
}

#[test]
fn remesh_from_filled_grid_success() {
    let mut g = new_voxel_remesh_grid(4, 4, 4);
    set_voxel_remesh(&mut g, 0, 0, 0, true);
    set_voxel_remesh(&mut g, 1, 1, 1, true);
    let r = remesh_from_voxels(&g, 3);
    assert!(r.success);
    assert_eq!(r.triangle_count, 4);
    assert_eq!(r.vertex_count, 8);
    assert_eq!(r.iterations, 3);
}

#[test]
fn spin_counts_match_profile_and_steps() {
    // A two-point profile spun in eight steps.
    let idx = spin_profile_indices(2, 8);
    assert_eq!(idx.len() / 3, 8 * 2 * 2);
    assert!(idx.iter().all(|&i| i < 9 * 2));
    assert_eq!(&idx[0..6], &[0, 1, 2, 1, 3, 2]);
    assert_eq!(&idx[6..12], &[1, 0, 3, 0, 2, 3]);
    assert!(spin_profile_indices(0, 8).is_empty());
    assert!(spin_profile_indices(2, 0).is_empty());
}

#[test]
fn platonic_counts_and_validity() {
    let expect = [
        (PlatonicKind::Tetrahedron, 4, 4),
        (PlatonicKind::Cube, 8, 12),
        (PlatonicKind::Octahedron, 6, 8),
        (PlatonicKind::Icosahedron, 12, 20),
        (PlatonicKind::Dodecahedron, 21, 20),
    ];
    for (kind, verts, tris) in expect {
        let t = platonic_tris(kind);
        assert_eq!(platonic_kind_vertex_count(kind), verts);
        assert_eq!(t.len(), tris);
        assert!(validate_platonic(verts, &t), "{kind:?} failed");
    }
    assert!(!validate_platonic(3, &platonic_tris(PlatonicKind::Tetrahedron)));
}

fn spun(n_profile: usize, n_steps: usize) -> SpinResult<[f32; 3]> {
    if n_profile == 0 || n_steps == 0 {
        return SpinResult { positions: Vec::new(), indices: Vec::new(), step_count: 0 };
    }
    SpinResult {
        positions: vec![[0.0; 3]; (n_steps + 1) * n_profile],
        indices: spin_profile_indices(n_profile, n_steps),
        step_count: n_steps,
    }
}

#[test]
fn test_spin_vertex_count() {
    let res = spun(2, 8);
    assert_eq!(spin_vertex_count(&res), 9 * 2);
}

#[test]
fn test_spin_face_count() {
    let res = spun(2, 8);
    assert_eq!(spin_face_count(&res), 8 * 2 * 2);
}

#[test]
fn test_empty_profile() {
    let res = spun(0, 8);
    assert_eq!(spin_vertex_count(&res), 0);
    assert_eq!(spin_face_count(&res), 0);
}

#[test]
fn mesh_spin_duplicate_test_to_json() {
    let res = spun(2, 8);
    let j = spin_to_json(&res);
    assert!(j.contains("vertex_count"));
    assert!(j.contains("step_count"));
    assert_eq!(j, "{\"vertex_count\":18,\"face_count\":32,\"step_count\":8}");
}
