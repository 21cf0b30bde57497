//! Boolean voxel grids for voxel-based remeshing, and remesh results.

use vstd::prelude::*;
use vstd::arithmetic::div_mod::lemma_fundamental_div_mod_converse;
use crate::text::{push_decimal, push_bool, spec_decimal, spec_bool_text};

verus! {

/// A 3-D boolean occupancy grid stored x-fastest, then y, then z.
#[derive(Debug, Clone)]
pub struct VoxelRemeshGrid {
    pub data: Vec<bool>,
    pub width: u32,
    pub height: u32,
    pub depth: u32,
}

/// Result of a voxel remesh operation.
#[derive(Debug, Clone)]
pub struct VoxelRemeshResult {
    pub vertex_count: usize,
    pub triangle_count: usize,
    pub success: bool,
    pub iterations: u32,
}

/// Position of cell (x, y, z) in a grid `w` wide and `h` high.
pub open spec fn cell_index(x: int, y: int, z: int, w: int, h: int) -> int {
    x + y * w + z * w * h
}

/// Number of `true` entries.
pub open spec fn count_true(s: Seq<bool>) -> nat
    decreases s.len(),
{
    if s.len() == 0 {
        0
    } else {
        count_true(s.drop_last()) + if s.last() { 1nat } else { 0nat }
    }
}

impl VoxelRemeshGrid {
    /// The grid's dimensions fit `u32` and it holds one entry per cell.
    pub open spec fn wf(&self) -> bool {
        &&& self.width * self.height <= u32::MAX
        &&& self.width * self.height * self.depth <= u32::MAX
        &&& self.data@.len() == self.width * self.height * self.depth
    }

    pub open spec fn in_bounds(&self, x: u32, y: u32, z: u32) -> bool {
        x < self.width && y < self.height && z < self.depth
    }

    /// The occupancy of cell (x, y, z); cells outside the grid are empty.
    pub open spec fn voxel(&self, x: u32, y: u32, z: u32) -> bool {
        if self.in_bounds(x, y, z) {
            self.data@[cell_index(x as int, y as int, z as int, self.width as int, self.height as int)]
        } else {
            false
        }
    }
}

/// Cells inside a grid map to distinct positions below the cell count, and
/// computing a position in `u32` never overflows.
pub proof fn lemma_cell_index_bounds(x: int, y: int, z: int, w: int, h: int, d: int)
    requires
        0 <= x < w,
        0 <= y < h,
        0 <= z < d,
        w * h <= u32::MAX,
        w * h * d <= u32::MAX,
    ensures
        0 <= y * w < w * h,
        0 <= z * w <= z * w * h,
        0 <= z * w * h <= w * h * (d - 1),
        0 <= cell_index(x, y, z, w, h) < w * h * d,
{
    assert(0 <= y * w < w * h) by (nonlinear_arith)
        requires
            0 <= y < h,
            0 < w,
    ;
    assert(0 <= z * w <= z * w * h) by (nonlinear_arith)
        requires
            0 <= z,
            0 < w,
            1 <= h,
    ;
    assert(0 <= z * w * h <= w * h * (d - 1)) by (nonlinear_arith)
        requires
            0 <= z < d,
            0 < w,
            0 < h,
    ;
    assert(x + y * w <= w * h - 1) by (nonlinear_arith)
        requires
            0 <= x < w,
            0 <= y < h,
    ;
    assert(w * h * (d - 1) + w * h == w * h * d) by (nonlinear_arith);
}

/// Distinct cells of a grid have distinct positions.
pub proof fn lemma_cell_index_injective(x1: int, y1: int, z1: int, x2: int, y2: int, z2: int, w: int, h: int)
    requires
        0 <= x1 < w,
        0 <= y1 < h,
        0 <= z1,
        0 <= x2 < w,
        0 <= y2 < h,
        0 <= z2,
        cell_index(x1, y1, z1, w, h) == cell_index(x2, y2, z2, w, h),
    ensures
        x1 == x2 && y1 == y2 && z1 == z2,
{
    let a = cell_index(x1, y1, z1, w, h);
    let q1 = y1 + z1 * h;
    let q2 = y2 + z2 * h;
    assert(a == q1 * w + x1) by (nonlinear_arith)
        requires
            a == x1 + y1 * w + z1 * w * h,
            q1 == y1 + z1 * h,
    ;
    assert(a == q2 * w + x2) by (nonlinear_arith)
        requires
            a == x2 + y2 * w + z2 * w * h,
            q2 == y2 + z2 * h,
    ;
    lemma_fundamental_div_mod_converse(a, w, q1, x1);
    lemma_fundamental_div_mod_converse(a, w, q2, x2);
    assert(q1 == z1 * h + y1);
    assert(q2 == z2 * h + y2);
    lemma_fundamental_div_mod_converse(q1, h, z1, y1);
    lemma_fundamental_div_mod_converse(q1, h, z2, y2);
}

/// Allocate a new grid with all voxels empty.
pub fn new_voxel_remesh_grid(w: u32, h: u32, d: u32) -> (r: VoxelRemeshGrid)
    requires
        w * h <= u32::MAX,
        w * h * d <= u32::MAX,
    ensures
        r.wf(),
        r.width == w && r.height == h && r.depth == d,
        forall|i: int| 0 <= i < r.data@.len() ==> !#[trigger] r.data@[i],
{
    let n = (w * h * d) as usize;
    let mut data: Vec<bool> = Vec::new();
    let mut i: usize = 0;
    while i < n
        invariant
            i <= n,
            data@.len() == i,
            forall|j: int| 0 <= j < i ==> !#[trigger] data@[j],
        decreases n - i,
    {
        data.push(false);
        i += 1;
    }
    VoxelRemeshGrid { data, width: w, height: h, depth: d }
}

fn cell_offset(grid: &VoxelRemeshGrid, x: u32, y: u32, z: u32) -> (r: usize)
    requires
        grid.wf(),
        grid.in_bounds(x, y, z),
    ensures
        r == cell_index(x as int, y as int, z as int, grid.width as int, grid.height as int),
        r < grid.data@.len(),
{
    proof {
        lemma_cell_index_bounds(
            x as int,
            y as int,
            z as int,
            grid.width as int,
            grid.height as int,
            grid.depth as int,
        );
    }
    (x + y * grid.width + z * grid.width * grid.height) as usize
}

/// Return the value of the voxel at `(x, y, z)`.
pub fn voxel_at_remesh(grid: &VoxelRemeshGrid, x: u32, y: u32, z: u32) -> (r: bool)
    requires
        grid.wf(),
    ensures
        r == grid.voxel(x, y, z),
{
    if x >= grid.width || y >= grid.height || z >= grid.depth {
        return false;
    }
    let idx = cell_offset(grid, x, y, z);
    grid.data[idx]
}

/// Set the value of the voxel at `(x, y, z)`; outside the grid nothing
/// changes.
pub fn set_voxel_remesh(grid: &mut VoxelRemeshGrid, x: u32, y: u32, z: u32, val: bool)
    requires
        old(grid).wf(),
    ensures
        final(grid).wf(),
        final(grid).width == old(grid).width,
        final(grid).height == old(grid).height,
        final(grid).depth == old(grid).depth,
        final(grid).data@ == if old(grid).in_bounds(x, y, z) {
            old(grid).data@.update(
                cell_index(x as int, y as int, z as int, old(grid).width as int, old(grid).height as int),
                val,
            )
        } else {
            old(grid).data@
        },
{
    if x >= grid.width || y >= grid.height || z >= grid.depth {
        return;
    }
    let idx = cell_offset(grid, x, y, z);
    grid.data.set(idx, val);
}

/// Return the number of occupied (true) voxels.
pub fn filled_voxel_count(grid: &VoxelRemeshGrid) -> (r: usize)
    ensures
        r == count_true(grid.data@),
{
    let mut cnt: usize = 0;
    let mut i: usize = 0;
    while i < grid.data.len()
        invariant
            i <= grid.data@.len(),
            cnt == count_true(grid.data@.subrange(0, i as int)),
            cnt <= i,
        decreases grid.data@.len() - i,
    {
        assert(grid.data@.subrange(0, i as int + 1).drop_last() =~= grid.data@.subrange(0, i as int));
        if grid.data[i] {
            cnt += 1;
        }
        i += 1;
    }
    assert(grid.data@.subrange(0, grid.data@.len() as int) =~= grid.data@);
    cnt
}

/// Reconstruct a mesh from a grid (estimate): each filled voxel contributes
/// two triangles and four vertices; `smooth_iterations` is carried over.
pub fn remesh_from_voxels(grid: &VoxelRemeshGrid, smooth_iterations: u32) -> (r: VoxelRemeshResult)
    requires
        count_true(grid.data@) * 4 <= usize::MAX,
    ensures
        r.triangle_count == count_true(grid.data@) * 2,
        r.vertex_count == count_true(grid.data@) * 4,
        r.success == (count_true(grid.data@) > 0),
        r.iterations == smooth_iterations,
{
    let filled = filled_voxel_count(grid);
    VoxelRemeshResult {
        vertex_count: filled * 4,
        triangle_count: filled * 2,
        success: filled > 0,
        iterations: smooth_iterations,
    }
}

/// The text of `voxel_remesh_result_to_json`.
pub open spec fn spec_result_json(r: VoxelRemeshResult) -> Seq<char> {
    "{\"vertex_count\":"@ + spec_decimal(r.vertex_count as nat) + ",\"triangle_count\":"@ + spec_decimal(
        r.triangle_count as nat,
    ) + ",\"success\":"@ + spec_bool_text(r.success) + ",\"iterations\":"@ + spec_decimal(r.iterations as nat)
        + "}"@
}

/// Serialize a `VoxelRemeshResult` to a JSON string.
pub fn voxel_remesh_result_to_json(r: &VoxelRemeshResult) -> (s: String)
    ensures
        s@ == spec_result_json(*r),
{
    let mut s = String::new();
    s.append("{\"vertex_count\":");
    push_decimal(&mut s, r.vertex_count as u64);
    s.append(",\"triangle_count\":");
    push_decimal(&mut s, r.triangle_count as u64);
    s.append(",\"success\":");
    push_bool(&mut s, r.success);
    s.append(",\"iterations\":");
    push_decimal(&mut s, r.iterations as u64);
    s.append("}");
    s
}

/// Reading a cell gives back what was last written there, and writing a
/// cell leaves every other cell as it was.
pub proof fn lemma_set_then_get(
    before: VoxelRemeshGrid,
    after: VoxelRemeshGrid,
    x: u32,
    y: u32,
    z: u32,
    val: bool,
    x2: u32,
    y2: u32,
    z2: u32,
)
    requires
        before.wf(),
        after.width == before.width,
        after.height == before.height,
        after.depth == before.depth,
        after.data@ == if before.in_bounds(x, y, z) {
            before.data@.update(
                cell_index(x as int, y as int, z as int, before.width as int, before.height as int),
                val,
            )
        } else {
            before.data@
        },
    ensures
        after.wf(),
        before.in_bounds(x, y, z) ==> after.voxel(x, y, z) == val,
        (x2 != x || y2 != y || z2 != z) ==> after.voxel(x2, y2, z2) == before.voxel(x2, y2, z2),
{
    let w = before.width as int;
    let h = before.height as int;
    if before.in_bounds(x, y, z) {
        lemma_cell_index_bounds(x as int, y as int, z as int, w, h, before.depth as int);
        if before.in_bounds(x2, y2, z2) && (x2 != x || y2 != y || z2 != z) {
            lemma_cell_index_bounds(x2 as int, y2 as int, z2 as int, w, h, before.depth as int);
            if cell_index(x as int, y as int, z as int, w, h) == cell_index(x2 as int, y2 as int, z2 as int, w, h) {
                lemma_cell_index_injective(x as int, y as int, z as int, x2 as int, y2 as int, z2 as int, w, h);
            }
        }
    }
}

/// A fresh grid has no filled voxel.
pub proof fn lemma_new_grid_empty(s: Seq<bool>)
    requires
        forall|i: int| 0 <= i < s.len() ==> !#[trigger] s[i],
    ensures
        count_true(s) == 0,
    decreases s.len(),
{
    if s.len() > 0 {
        assert(!s[s.len() - 1]);
        lemma_new_grid_empty(s.drop_last());
    }
}

/// Cell (x, y, z) lies in the box [x0, x1] × [y0, y1] × [z0, z1].
pub open spec fn in_box(x: u32, y: u32, z: u32, lo: [u32; 3], hi: [u32; 3]) -> bool {
    lo[0] <= x <= hi[0] && lo[1] <= y <= hi[1] && lo[2] <= z <= hi[2]
}

/// Marks every voxel of the box `lo`..=`hi` (corners included) as
/// occupied; cells of the box outside the grid are ignored and every
/// other cell keeps its value.
pub fn fill_voxel_box(grid: &mut VoxelRemeshGrid, lo: [u32; 3], hi: [u32; 3])
    requires
        old(grid).wf(),
    ensures
        final(grid).wf(),
        final(grid).width == old(grid).width,
        final(grid).height == old(grid).height,
        final(grid).depth == old(grid).depth,
        forall|x: u32, y: u32, z: u32|
            #[trigger] final(grid).voxel(x, y, z) == (old(grid).voxel(x, y, z) || (old(grid).in_bounds(x, y, z)
                && in_box(x, y, z, lo, hi))),
{
    let ghost g0 = *grid;
    if lo[0] > hi[0] || lo[1] > hi[1] || lo[2] > hi[2] {
        return;
    }
    let mut vx: u64 = lo[0] as u64;
    while vx <= hi[0] as u64
        invariant
            grid.wf(),
            grid.width == g0.width && grid.height == g0.height && grid.depth == g0.depth,
            lo[0] <= vx <= hi[0] as u64 + 1,
            lo[1] <= hi[1],
            lo[2] <= hi[2],
            forall|x: u32, y: u32, z: u32|
                #[trigger] grid.voxel(x, y, z) == (g0.voxel(x, y, z) || (g0.in_bounds(x, y, z) && in_box(x, y, z, lo, hi)
                    && (x as u64) < vx)),
        decreases hi[0] as u64 + 1 - vx,
    {
        let mut vy: u64 = lo[1] as u64;
        while vy <= hi[1] as u64
            invariant
                grid.wf(),
                grid.width == g0.width && grid.height == g0.height && grid.depth == g0.depth,
                lo[0] <= vx <= hi[0],
                lo[1] <= vy <= hi[1] as u64 + 1,
                lo[2] <= hi[2],
                forall|x: u32, y: u32, z: u32|
                    #[trigger] grid.voxel(x, y, z) == (g0.voxel(x, y, z) || (g0.in_bounds(x, y, z) && in_box(
                        x,
                        y,
                        z,
                        lo,
                        hi,
                    ) && ((x as u64) < vx || (x as u64 == vx && (y as u64) < vy)))),
            decreases hi[1] as u64 + 1 - vy,
        {
            let mut vz: u64 = lo[2] as u64;
            while vz <= hi[2] as u64
                invariant
                    grid.wf(),
                    grid.width == g0.width && grid.height == g0.height && grid.depth == g0.depth,
                    lo[0] <= vx <= hi[0],
                    lo[1] <= vy <= hi[1],
                    lo[2] <= vz <= hi[2] as u64 + 1,
                    forall|x: u32, y: u32, z: u32|
                        #[trigger] grid.voxel(x, y, z) == (g0.voxel(x, y, z) || (g0.in_bounds(x, y, z) && in_box(
                            x,
                            y,
                            z,
                            lo,
                            hi,
                        ) && ((x as u64) < vx || (x as u64 == vx && (y as u64) < vy) || (x as u64 == vx && y as u64
                            == vy && (z as u64) < vz)))),
                decreases hi[2] as u64 + 1 - vz,
            {
                let ghost before = *grid;
                let (cx, cy, cz) = (vx as u32, vy as u32, vz as u32);
                set_voxel_remesh(grid, cx, cy, cz, true);
                proof {
                    assert forall|x: u32, y: u32, z: u32|
                        #[trigger] grid.voxel(x, y, z) == (g0.voxel(x, y, z) || (g0.in_bounds(x, y, z) && in_box(
                            x,
                            y,
                            z,
                            lo,
                            hi,
                        ) && ((x as u64) < vx || (x as u64 == vx && (y as u64) < vy) || (x as u64 == vx && y as u64
                            == vy && (z as u64) < vz + 1)))) by {
                        lemma_set_then_get(before, *grid, cx, cy, cz, true, x, y, z);
                    }
                }
                vz += 1;
            }
            vy += 1;
        }
        vx += 1;
    }
}

} // verus!
