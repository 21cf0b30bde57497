use oxihuman::mesh_dual_contour::dual_contour_cells;
use oxihuman::mesh_gordon_surface::{gordon_u_curve_count, gordon_v_curve_count, new_gordon_surface, validate_gordon};
use oxihuman::mesh_nurbs_surface::{grid_triangles, nurbs_control_point_count, validate_nurbs, NurbsSurface};
use oxihuman::mesh_slice_plane::slice_partition;
use oxihuman::param_randomizer::{
    advance_randomizer, new_randomizer_state, randomized_count, seed_randomizer, RandomizerState,
};

fn masks(grid: &[f32], iso: f32) -> (Vec<bool>, Vec<bool>) {
    (grid.iter().map(|&v| v < iso).collect(), grid.iter().map(|&v| v >= iso).collect())
}

#[test]
fn dual_contour_sphere_has_vertices() {
    let n = 10usize;
    let mut grid = vec![0.0_f32; n * n * n];
    let cx = 5.0_f32;
    let cy = 5.0_f32;
    let cz = 5.0_f32;
    for z in 0..n {
        for y in 0..n {
            for x in 0..n {
                let dx = x as f32 - cx;
                let dy = y as f32 - cy;
                let dz = z as f32 - cz;
                grid[x + n * (y + n * z)] = (dx * dx + dy * dy + dz * dz).sqrt() - 3.0;
            }
        }
    }
    let (lt, ge) = masks(&grid, 0.0);
    let cells = dual_contour_cells(&lt, &ge, n, n, n);
    assert!(cells.len() > 0);
}

#[test]
fn dual_contour_all_same_sign_no_vertices() {
    let grid = vec![1.0_f32; 8];
    let (lt, ge) = masks(&grid, 0.0);
    let cells = dual_contour_cells(&lt, &ge, 2, 2, 2);
    assert_eq!(cells.len(), 0);
}

#[test]
fn dc_small_grid_no_panic() {
    let cells = dual_contour_cells(&[], &[], 0, 0, 0);
    assert_eq!(cells.len(), 0);
}

#[test]
fn cell_count_matches_vertex_count() {
    let grid = vec![-1.0_f32, 1.0, 1.0, 1.0, 1.0, 1.0, 1.0, 1.0];
    let (lt, ge) = masks(&grid, 0.0);
    let cells = dual_contour_cells(&lt, &ge, 2, 2, 2);
    assert_eq!(cells, vec![[0, 0, 0]]);
}

#[test]
fn dual_contour_cells_in_z_major_order() {
    // 3 x 3 x 2 samples: 2 x 2 x 1 cells; only the sample at (2, 2, 1) is
    // below the level, so only cell (1, 1, 0) straddles it.
    let mut grid = vec![1.0_f32; 18];
    grid[2 + 3 * (2 + 3 * 1)] = -1.0;
    let (lt, ge) = masks(&grid, 0.0);
    assert_eq!(dual_contour_cells(&lt, &ge, 3, 3, 2), vec![[1, 1, 0]]);
    // The sample at (1, 1, 0) is a corner of all four cells.
    let mut grid = vec![1.0_f32; 18];
    grid[1 + 3 * 1] = -1.0;
    let (lt, ge) = masks(&grid, 0.0);
    assert_eq!(dual_contour_cells(&lt, &ge, 3, 3, 2), vec![[0, 0, 0], [1, 0, 0], [0, 1, 0], [1, 1, 0]]);
}

#[test]
fn dual_contour_nan_counts_neither_way() {
    // A NaN sample compares neither below nor at-or-above the level.
    let mut grid = vec![f32::NAN; 8];
    grid[0] = -1.0;
    let (lt, ge) = masks(&grid, 0.0);
    assert!(dual_contour_cells(&lt, &ge, 2, 2, 2).is_empty());
    grid[7] = 2.0;
    let (lt, ge) = masks(&grid, 0.0);
    assert_eq!(dual_contour_cells(&lt, &ge, 2, 2, 2), vec![[0, 0, 0]]);
}

#[test]
fn test_slice_separates_triangles() {
    let tris = vec![[0u32, 1, 2], [3, 4, 5]];
    let result = slice_partition(6, &tris, &[true, false]);
    assert!(!result.above_tris.is_empty());
    assert!(!result.below_tris.is_empty());
    assert_eq!(result.above_sources, vec![0, 1, 2]);
    assert_eq!(result.above_tris, vec![[0, 1, 2]]);
    assert_eq!(result.below_sources, vec![3, 4, 5]);
    assert_eq!(result.below_tris, vec![[0, 1, 2]]);
}

#[test]
fn test_slice_empty_mesh() {
    let result = slice_partition(0, &[], &[]);
    assert!(result.above_tris.is_empty());
    assert!(result.below_tris.is_empty());
}

#[test]
fn slice_skips_missing_vertices_and_offsets_triangles() {
    let tris = vec![[0u32, 5, 1], [2, 1, 0], [1, 1, 1]];
    let result = slice_partition(3, &tris, &[true, true, false]);
    assert_eq!(result.above_sources, vec![0, 1, 2, 1, 0]);
    assert_eq!(result.above_tris, vec![[0, 1, 2], [2, 3, 4]]);
    assert_eq!(result.below_sources, vec![1, 1, 1]);
    assert_eq!(result.below_tris, vec![[0, 1, 2]]);
    assert_eq!(result.above_tris.len() + result.below_tris.len(), tris.len());
}

#[test]
fn test_seed_randomizer() {
    let mut r = new_randomizer_state();
    seed_randomizer(&mut r, 123);
    let v1 = advance_randomizer(&mut r);
    seed_randomizer(&mut r, 123);
    let v2 = advance_randomizer(&mut r);
    assert_eq!(v1, v2);
}

#[test]
fn test_randomized_count() {
    let mut r = new_randomizer_state();
    assert_eq!(randomized_count(&r), 0);
    advance_randomizer(&mut r);
    assert_eq!(randomized_count(&r), 1);
}

#[test]
fn test_deterministic() {
    let mut r1 = new_randomizer_state();
    let mut r2 = new_randomizer_state();
    for _ in 0..10 {
        assert_eq!(advance_randomizer(&mut r1), advance_randomizer(&mut r2));
    }
}

#[test]
fn randomizer_exact_draws_from_default_seed() {
    let mut r = new_randomizer_state();
    assert_eq!(r, RandomizerState { seed: 42, count: 0 });
    assert_eq!(advance_randomizer(&mut r), 1220265334);
    assert_eq!(r.seed, 10481999410520546993);
    assert_eq!(advance_randomizer(&mut r), 484179026);
    assert_eq!(r.seed, 4159066171780167020);
    assert_eq!(randomized_count(&r), 2);
    seed_randomizer(&mut r, 42);
    assert_eq!(randomized_count(&r), 0);
    assert_eq!(advance_randomizer(&mut r), 1220265334);
}

#[test]
fn test_tessellate_nurbs_tri_count() {
    assert_eq!(grid_triangles(5, 5).len(), 32);
}

#[test]
fn test_tessellate_gordon_tri_count() {
    assert_eq!(grid_triangles(4, 4).len(), 18);
}

#[test]
fn grid_triangles_exact_indices() {
    assert_eq!(grid_triangles(2, 3), vec![[0, 3, 1], [1, 3, 4], [1, 4, 2], [2, 4, 5]]);
    assert!(grid_triangles(1, 5).is_empty());
    assert!(grid_triangles(5, 1).is_empty());
}

fn make_u_curves(n: usize) -> Vec<Vec<[f32; 3]>> {
    (0..n).map(|i| vec![[i as f32, 0.0, 0.0], [i as f32, 1.0, 0.0]]).collect()
}

fn make_v_curves(n: usize) -> Vec<Vec<[f32; 3]>> {
    (0..n).map(|j| vec![[0.0, j as f32, 0.0], [1.0, j as f32, 0.0]]).collect()
}

#[test]
fn test_gordon_u_curve_count() {
    let s = new_gordon_surface(make_u_curves(4), make_v_curves(3), [0.0; 3]);
    assert_eq!(gordon_u_curve_count(&s), 4);
}

#[test]
fn test_gordon_v_curve_count() {
    let s = new_gordon_surface(make_u_curves(4), make_v_curves(3), [0.0; 3]);
    assert_eq!(gordon_v_curve_count(&s), 3);
}

#[test]
fn test_validate_gordon() {
    let s = new_gordon_surface(make_u_curves(3), make_v_curves(5), [0.0; 3]);
    assert!(validate_gordon(&s));
}

#[test]
fn test_validate_gordon_empty() {
    let s = new_gordon_surface(vec![], vec![], [0.0f32; 3]);
    assert!(validate_gordon(&s));
}

#[test]
fn gordon_intersections_and_shape() {
    let mut u = make_u_curves(2);
    u.push(vec![]);
    let mut s = new_gordon_surface(u, make_v_curves(2), [9.0; 3]);
    assert_eq!(s.intersections, vec![
        vec![[0.0, 0.0, 0.0], [0.0, 0.0, 0.0]],
        vec![[1.0, 0.0, 0.0], [1.0, 0.0, 0.0]],
        vec![[9.0; 3], [9.0; 3]],
    ]);
    s.intersections[1].pop();
    assert!(!validate_gordon(&s));
    s.intersections.pop();
    assert!(!validate_gordon(&s));
}

fn flat_grid(u: usize, v: usize) -> Vec<[f32; 3]> {
    let mut pts = Vec::new();
    for i in 0..u {
        for j in 0..v {
            pts.push([i as f32, j as f32, 0.0]);
        }
    }
    pts
}

fn nurbs(points: Vec<[f32; 3]>, u: usize, v: usize, du: usize, dv: usize) -> NurbsSurface<[f32; 3], f32> {
    let n = points.len();
    NurbsSurface {
        control_points: points,
        weights: vec![1.0; n],
        u_count: u,
        v_count: v,
        u_degree: du,
        v_degree: dv,
        u_knots: vec![0.0; u + du + 1],
        v_knots: vec![0.0; v + dv + 1],
    }
}

#[test]
fn test_new_nurbs_surface_valid() {
    let surf = nurbs(flat_grid(4, 4), 4, 4, 3, 3);
    assert!(validate_nurbs(&surf));
}

#[test]
fn test_nurbs_control_point_count() {
    let surf = nurbs(flat_grid(3, 4), 3, 4, 2, 2);
    assert_eq!(nurbs_control_point_count(&surf), 12);
}

#[test]
fn validate_nurbs_rejects_each_mismatch() {
    let mut s = nurbs(flat_grid(3, 4), 3, 4, 2, 2);
    assert!(validate_nurbs(&s));
    s.weights.pop();
    assert!(!validate_nurbs(&s));
    let mut s = nurbs(flat_grid(3, 4), 3, 4, 2, 2);
    s.u_knots.push(1.0);
    assert!(!validate_nurbs(&s));
    let mut s = nurbs(flat_grid(3, 4), 3, 4, 2, 2);
    s.v_knots.pop();
    assert!(!validate_nurbs(&s));
    let mut s = nurbs(flat_grid(3, 4), 3, 4, 2, 2);
    s.v_count = 5;
    s.v_knots.push(0.0);
    assert!(!validate_nurbs(&s));
    let mut s = nurbs(vec![], 0, 0, 0, 0);
    assert!(validate_nurbs(&s));
    s.u_count = usize::MAX;
    s.v_count = 2;
    assert!(!validate_nurbs(&s));
}
