//! Tessellation topology of a surface patch sampled on a `rows` × `cols`
//! grid of vertices (row-major): two triangles per grid cell. NURBS and
//! Gordon surfaces are tessellated this way. Also the NURBS surface record
//! and its consistency check.

use vstd::prelude::*;

verus! {

/// A NURBS surface: a `u_count` × `v_count` grid of control points
/// (row-major) with one weight each, degrees and knot vectors. Generic in
/// the point type `P` and the scalar type `W` of weights and knots.
#[derive(Debug, Clone)]
pub struct NurbsSurface<P, W> {
    pub control_points: Vec<P>,
    pub weights: Vec<W>,
    pub u_count: usize,
    pub v_count: usize,
    pub u_degree: usize,
    pub v_degree: usize,
    pub u_knots: Vec<W>,
    pub v_knots: Vec<W>,
}

/// The dimensions of a NURBS surface agree: `u_count * v_count` control
/// points, one weight per point, and `count + degree + 1` knots in each
/// direction (in exact arithmetic).
pub open spec fn nurbs_consistent<P, W>(s: NurbsSurface<P, W>) -> bool {
    &&& s.control_points@.len() == s.u_count * s.v_count
    &&& s.weights@.len() == s.control_points@.len()
    &&& s.u_knots@.len() == s.u_count + s.u_degree + 1
    &&& s.v_knots@.len() == s.v_count + s.v_degree + 1
}

/// Whether the surface's dimensions agree; sizes whose product or sum
/// exceeds `usize` never match a length.
pub fn validate_nurbs<P, W>(surf: &NurbsSurface<P, W>) -> (r: bool)
    ensures
        r == nurbs_consistent(*surf),
{
    let n_points = surf.control_points.len();
    let n_weights = surf.weights.len();
    let n_uk = surf.u_knots.len();
    let n_vk = surf.v_knots.len();
    let cp = match surf.u_count.checked_mul(surf.v_count) {
        Some(n) => n == n_points,
        None => false,
    };
    let uk = match surf.u_count.checked_add(surf.u_degree) {
        Some(n) => n < usize::MAX && n + 1 == n_uk,
        None => false,
    };
    let vk = match surf.v_count.checked_add(surf.v_degree) {
        Some(n) => n < usize::MAX && n + 1 == n_vk,
        None => false,
    };
    cp && n_weights == n_points && uk && vk
}

/// Number of control points.
pub fn nurbs_control_point_count<P, W>(surf: &NurbsSurface<P, W>) -> (n: usize)
    ensures
        n == surf.control_points@.len(),
{
    surf.control_points.len()
}

/// Index of grid vertex (i, j), as a `u32` (truncated like an `as` cast).
pub open spec fn grid_vertex(i: int, j: int, cols: int) -> u32 {
    (i * cols + j) as u32
}

/// The two triangles of grid cell (i, j): `[a, c, b]` and `[b, c, d]`, with
/// `a`, `b` the cell's corners in row `i` and `c`, `d` those in row `i + 1`.
pub open spec fn grid_cell_tris(i: int, j: int, cols: int) -> Seq<[u32; 3]> {
    let a = grid_vertex(i, j, cols);
    let b = grid_vertex(i, j + 1, cols);
    let c = grid_vertex(i + 1, j, cols);
    let d = grid_vertex(i + 1, j + 1, cols);
    seq![[a, c, b], [b, c, d]]
}

/// The two triangles stored for cell number `q` (cells row after row).
pub open spec fn tri_pair(tris: Seq<[u32; 3]>, q: int) -> Seq<[u32; 3]> {
    tris.subrange(2 * q, 2 * q + 2)
}

/// `tris` holds the two triangles of every cell of a `rows` × `cols`
/// vertex grid, cell row after cell row.
pub open spec fn is_grid_topology(tris: Seq<[u32; 3]>, rows: int, cols: int) -> bool {
    &&& tris.len() == 2 * ((rows - 1) * (cols - 1))
    &&& forall|i: int, j: int|
        0 <= i < rows - 1 && 0 <= j < cols - 1 ==> #[trigger] tri_pair(tris, i * (cols - 1) + j) == grid_cell_tris(
            i,
            j,
            cols,
        )
}

/// The triangles of a `rows` × `cols` vertex grid, two per cell, cell row
/// after cell row.
pub fn grid_triangles(rows: usize, cols: usize) -> (r: Vec<[u32; 3]>)
    requires
        rows >= 1,
        cols >= 1,
        rows * cols <= usize::MAX,
    ensures
        is_grid_topology(r@, rows as int, cols as int),
{
    let mut tris: Vec<[u32; 3]> = Vec::new();
    let n = cols - 1;
    let mut i: usize = 0;
    while i < rows - 1
        invariant
            rows >= 1,
            cols >= 1,
            n == cols - 1,
            rows * cols <= usize::MAX,
            i <= rows - 1,
            tris@.len() == 2 * (i * n),
            forall|i2: int, j2: int|
                0 <= i2 < i && 0 <= j2 < n ==> #[trigger] tri_pair(tris@, i2 * n + j2) == grid_cell_tris(
                    i2,
                    j2,
                    cols as int,
                ),
        decreases rows - 1 - i,
    {
        proof {
            assert((i + 2) * cols <= rows * cols) by (nonlinear_arith)
                requires
                    i + 2 <= rows,
                    1 <= cols,
            ;
            assert((i + 1) * cols == i * cols + cols) by (nonlinear_arith);
            assert((i + 2) * cols == i * cols + 2 * cols) by (nonlinear_arith);
            assert((i + 1) * n == i * n + n) by (nonlinear_arith);
        }
        let mut j: usize = 0;
        while j < n
            invariant
                rows >= 1,
                cols >= 1,
                n == cols - 1,
                rows * cols <= usize::MAX,
                i < rows - 1,
                (i + 2) * cols <= rows * cols,
                (i + 1) * cols == i * cols + cols,
                (i + 2) * cols == i * cols + 2 * cols,
                (i + 1) * n == i * n + n,
                j <= n,
                tris@.len() == 2 * (i * n + j),
                forall|i2: int, j2: int|
                    0 <= i2 < i && 0 <= j2 < n ==> #[trigger] tri_pair(tris@, i2 * n + j2) == grid_cell_tris(
                        i2,
                        j2,
                        cols as int,
                    ),
                forall|j2: int| 0 <= j2 < j ==> #[trigger] tri_pair(tris@, i * n + j2) == grid_cell_tris(
                    i as int,
                    j2,
                    cols as int,
                ),
            decreases n - j,
        {
            let ghost before = tris@;
            let a = (i * cols + j) as u32;
            let b = (i * cols + j + 1) as u32;
            let c = ((i + 1) * cols + j) as u32;
            let d = ((i + 1) * cols + j + 1) as u32;
            tris.push([a, c, b]);
            tris.push([b, c, d]);
            proof {
                let q = i * n + j;
                assert(tri_pair(tris@, q as int) =~= grid_cell_tris(i as int, j as int, cols as int));
                assert forall|i2: int, j2: int|
                    0 <= i2 < i && 0 <= j2 < n implies #[trigger] tri_pair(tris@, i2 * n + j2) == grid_cell_tris(
                        i2,
                        j2,
                        cols as int,
                    ) by {
                    assert(i2 * n + j2 < i * n) by (nonlinear_arith)
                        requires
                            0 <= i2 < i,
                            0 <= j2 < n,
                    ;
                    assert(tri_pair(tris@, i2 * n + j2) =~= tri_pair(before, i2 * n + j2));
                }
                assert forall|j2: int| 0 <= j2 < j + 1 implies #[trigger] tri_pair(tris@, i * n + j2) == grid_cell_tris(
                    i as int,
                    j2,
                    cols as int,
                ) by {
                    if j2 < j {
                        assert(tri_pair(tris@, i * n + j2) =~= tri_pair(before, i * n + j2));
                    }
                }
            }
            j += 1;
        }
        proof {
            assert forall|i2: int, j2: int|
                0 <= i2 < i + 1 && 0 <= j2 < n implies #[trigger] tri_pair(tris@, i2 * n + j2) == grid_cell_tris(
                    i2,
                    j2,
                    cols as int,
                ) by {
                if i2 == i {
                    assert(tri_pair(tris@, i * n + j2) == grid_cell_tris(i as int, j2, cols as int));
                }
            }
        }
        i += 1;
    }
    tris
}

/// While the grid has at most `2^32` vertices, every triangle index names
/// one of its `rows * cols` vertices.
pub proof fn lemma_grid_indices_in_range(tris: Seq<[u32; 3]>, rows: int, cols: int)
    requires
        rows >= 1,
        cols >= 1,
        rows * cols <= 0x1_0000_0000,
        is_grid_topology(tris, rows, cols),
    ensures
        forall|k: int, m: int| 0 <= k < tris.len() && 0 <= m < 3 ==> #[trigger] tris[k][m] < rows * cols,
{
    let n = cols - 1;
    assert forall|k: int, m: int| 0 <= k < tris.len() && 0 <= m < 3 implies #[trigger] tris[k][m] < rows * cols by {
        let q = k / 2;
        let i = q / n;
        let j = q % n;
        assert(n > 0) by {
            if n == 0 {
                assert(tris.len() == 2 * ((rows - 1) * 0));
            }
        }
        assert(0 <= q < (rows - 1) * n);
        assert(q == i * n + j) by (nonlinear_arith)
            requires
                i == q / n,
                j == q % n,
                0 < n,
        ;
        assert(0 <= i < rows - 1) by (nonlinear_arith)
            requires
                i == q / n,
                0 <= q < (rows - 1) * n,
                0 < n,
        ;
        assert(0 <= j < n);
        assert(tri_pair(tris, i * n + j) == grid_cell_tris(i, j, cols));
        assert(tris[k] == tri_pair(tris, q)[k - 2 * q]);
        assert((i + 1) * cols + j + 1 < rows * cols) by (nonlinear_arith)
            requires
                0 <= i < rows - 1,
                0 <= j < cols - 1,
        ;
        assert(0 <= i * cols + j && i * cols + j < (i + 1) * cols + j) by (nonlinear_arith)
            requires
                0 <= i,
                0 <= j,
                1 <= cols,
        ;
        let va = i * cols + j;
        let vc = (i + 1) * cols + j;
        assert(grid_vertex(i, j, cols) == va);
        assert(grid_vertex(i, j + 1, cols) == va + 1);
        assert(grid_vertex(i + 1, j, cols) == vc);
        assert(grid_vertex(i + 1, j + 1, cols) == vc + 1);
        let t = tris[k];
        assert(t[0] < rows * cols && t[1] < rows * cols && t[2] < rows * cols);
    }
}

} // verus!
