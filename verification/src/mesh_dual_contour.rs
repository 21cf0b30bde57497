//! Dual contouring: the grid cells whose corner samples straddle the iso
//! level. The comparisons of the samples with the level are taken as two
//! masks, one entry per sample: `lt` (sample < level) and `ge`
//! (sample >= level); a sample that compares neither way counts for neither.

use vstd::prelude::*;

verus! {

/// Position of sample (x, y, z) in a grid `nx` wide and `ny` high, x fastest.
pub open spec fn sample_index(x: int, y: int, z: int, nx: int, ny: int) -> int {
    x + nx * (y + ny * z)
}

/// The mask entries of the eight corners of cell (x, y, z).
pub open spec fn cell_corners(m: Seq<bool>, nx: int, ny: int, x: int, y: int, z: int) -> Seq<bool> {
    seq![
        m[sample_index(x, y, z, nx, ny)],
        m[sample_index(x + 1, y, z, nx, ny)],
        m[sample_index(x, y + 1, z, nx, ny)],
        m[sample_index(x + 1, y + 1, z, nx, ny)],
        m[sample_index(x, y, z + 1, nx, ny)],
        m[sample_index(x + 1, y, z + 1, nx, ny)],
        m[sample_index(x, y + 1, z + 1, nx, ny)],
        m[sample_index(x + 1, y + 1, z + 1, nx, ny)],
    ]
}

/// Some entry of a sequence is set.
pub open spec fn any_set(s: Seq<bool>) -> bool {
    exists|i: int| 0 <= i < s.len() && #[trigger] s[i]
}

/// Cell (x, y, z) has a corner below the level and a corner at or above it.
pub open spec fn cell_straddles(lt: Seq<bool>, ge: Seq<bool>, nx: int, ny: int, x: int, y: int, z: int) -> bool {
    any_set(cell_corners(lt, nx, ny, x, y, z)) && any_set(cell_corners(ge, nx, ny, x, y, z))
}

/// Straddling cells (x', y, z) with x' < x, in increasing x'.
pub open spec fn row_cells(lt: Seq<bool>, ge: Seq<bool>, nx: int, ny: int, y: int, z: int, x: nat) -> Seq<
    [usize; 3],
>
    decreases x,
{
    if x == 0 {
        Seq::empty()
    } else {
        let p = row_cells(lt, ge, nx, ny, y, z, (x - 1) as nat);
        if cell_straddles(lt, ge, nx, ny, x - 1, y, z) {
            p.push([(x - 1) as usize, y as usize, z as usize])
        } else {
            p
        }
    }
}

/// Straddling cells of slice z with y' < y, row after row.
pub open spec fn slice_cells(lt: Seq<bool>, ge: Seq<bool>, nx: int, ny: int, cx: nat, z: int, y: nat) -> Seq<
    [usize; 3],
>
    decreases y,
{
    if y == 0 {
        Seq::empty()
    } else {
        slice_cells(lt, ge, nx, ny, cx, z, (y - 1) as nat) + row_cells(lt, ge, nx, ny, y - 1, z, cx)
    }
}

/// Straddling cells of the slices z' < z, slice after slice.
pub open spec fn block_cells(lt: Seq<bool>, ge: Seq<bool>, nx: int, ny: int, cx: nat, cy: nat, z: nat) -> Seq<
    [usize; 3],
>
    decreases z,
{
    if z == 0 {
        Seq::empty()
    } else {
        block_cells(lt, ge, nx, ny, cx, cy, (z - 1) as nat) + slice_cells(lt, ge, nx, ny, cx, z - 1, cy)
    }
}

/// All straddling cells of an `nx` × `ny` × `nz` sample grid, z-major,
/// then y, then x.
pub open spec fn straddling_cells(lt: Seq<bool>, ge: Seq<bool>, nx: int, ny: int, nz: int) -> Seq<[usize; 3]> {
    if nx < 2 || ny < 2 || nz < 2 {
        Seq::empty()
    } else {
        block_cells(lt, ge, nx, ny, (nx - 1) as nat, (ny - 1) as nat, (nz - 1) as nat)
    }
}

/// Samples inside the grid have positions below the sample count, and the
/// partial products of a position do not exceed it.
pub proof fn lemma_sample_index_bounds(x: int, y: int, z: int, nx: int, ny: int, nz: int)
    requires
        0 <= x < nx,
        0 <= y < ny,
        0 <= z < nz,
    ensures
        0 <= ny * z,
        ny * z < ny * nz,
        ny * nz <= nx * ny * nz,
        0 <= y + ny * z < ny * nz,
        0 <= nx * (y + ny * z) <= nx * (ny * nz - 1),
        0 <= sample_index(x, y, z, nx, ny) < nx * ny * nz,
{
    assert(0 <= ny * z < ny * nz) by (nonlinear_arith)
        requires
            0 <= z < nz,
            0 < ny,
    ;
    assert(ny * nz <= nx * ny * nz) by (nonlinear_arith)
        requires
            1 <= nx,
            0 < ny,
            0 < nz,
    ;
    assert(y + ny * z <= ny * nz - 1) by (nonlinear_arith)
        requires
            0 <= y < ny,
            0 <= z < nz,
    ;
    let q = y + ny * z;
    assert(0 <= nx * q <= nx * (ny * nz - 1)) by (nonlinear_arith)
        requires
            0 <= q <= ny * nz - 1,
            0 < nx,
    ;
    assert(nx * (ny * nz - 1) + nx == nx * ny * nz) by (nonlinear_arith);
}

proof fn lemma_concat_contains(a: Seq<[usize; 3]>, b: Seq<[usize; 3]>, c: [usize; 3])
    ensures
        (a + b).contains(c) <==> a.contains(c) || b.contains(c),
{
    if (a + b).contains(c) {
        let i = choose|i: int| 0 <= i < (a + b).len() && (a + b)[i] == c;
        if i < a.len() {
            assert(a[i] == c);
        } else {
            assert(b[i - a.len()] == c);
        }
    }
    if a.contains(c) {
        let i = choose|i: int| 0 <= i < a.len() && a[i] == c;
        assert((a + b)[i] == c);
    }
    if b.contains(c) {
        let i = choose|i: int| 0 <= i < b.len() && b[i] == c;
        assert((a + b)[i + a.len()] == c);
    }
}

proof fn lemma_push_contains(a: Seq<[usize; 3]>, e: [usize; 3], c: [usize; 3])
    ensures
        a.push(e).contains(c) <==> a.contains(c) || c == e,
{
    if a.push(e).contains(c) {
        let i = choose|i: int| 0 <= i < a.push(e).len() && a.push(e)[i] == c;
        if i < a.len() {
            assert(a[i] == c);
        }
    }
    if a.contains(c) {
        let i = choose|i: int| 0 <= i < a.len() && a[i] == c;
        assert(a.push(e)[i] == c);
    }
    if c == e {
        assert(a.push(e)[a.len() as int] == c);
    }
}

proof fn lemma_row_members(lt: Seq<bool>, ge: Seq<bool>, nx: int, ny: int, y: usize, z: usize, x: usize, c: [usize; 3])
    ensures
        row_cells(lt, ge, nx, ny, y as int, z as int, x as nat).contains(c) <==> (c[0] < x && c[1] == y && c[2] == z
            && cell_straddles(lt, ge, nx, ny, c[0] as int, y as int, z as int)),
    decreases x,
{
    if x > 0 {
        let p = row_cells(lt, ge, nx, ny, y as int, z as int, (x - 1) as nat);
        let e: [usize; 3] = [(x - 1) as usize, y, z];
        lemma_row_members(lt, ge, nx, ny, y, z, (x - 1) as usize, c);
        if cell_straddles(lt, ge, nx, ny, x - 1, y as int, z as int) {
            lemma_push_contains(p, e, c);
            assert(c == e <==> (c[0] == x - 1 && c[1] == y && c[2] == z)) by {
                if c[0] == x - 1 && c[1] == y && c[2] == z {
                    broadcast use vstd::array::axiom_array_ext_equal;
                    assert(c =~= e);
                }
            }
        }
    }
}

proof fn lemma_slice_members(lt: Seq<bool>, ge: Seq<bool>, nx: int, ny: int, cx: usize, z: usize, y: usize, c: [usize; 3])
    ensures
        slice_cells(lt, ge, nx, ny, cx as nat, z as int, y as nat).contains(c) <==> (c[0] < cx && c[1] < y && c[2]
            == z && cell_straddles(lt, ge, nx, ny, c[0] as int, c[1] as int, z as int)),
    decreases y,
{
    if y > 0 {
        lemma_slice_members(lt, ge, nx, ny, cx, z, (y - 1) as usize, c);
        lemma_row_members(lt, ge, nx, ny, (y - 1) as usize, z, cx, c);
        lemma_concat_contains(
            slice_cells(lt, ge, nx, ny, cx as nat, z as int, (y - 1) as nat),
            row_cells(lt, ge, nx, ny, y - 1, z as int, cx as nat),
            c,
        );
    }
}

proof fn lemma_block_members(lt: Seq<bool>, ge: Seq<bool>, nx: int, ny: int, cx: usize, cy: usize, z: usize, c: [usize; 3])
    ensures
        block_cells(lt, ge, nx, ny, cx as nat, cy as nat, z as nat).contains(c) <==> (c[0] < cx && c[1] < cy && c[2]
            < z && cell_straddles(lt, ge, nx, ny, c[0] as int, c[1] as int, c[2] as int)),
    decreases z,
{
    if z > 0 {
        lemma_block_members(lt, ge, nx, ny, cx, cy, (z - 1) as usize, c);
        lemma_slice_members(lt, ge, nx, ny, cx, (z - 1) as usize, cy, c);
        lemma_concat_contains(
            block_cells(lt, ge, nx, ny, cx as nat, cy as nat, (z - 1) as nat),
            slice_cells(lt, ge, nx, ny, cx as nat, z - 1, cy as nat),
            c,
        );
    }
}

/// A cell is reported exactly when it lies inside the grid and has a corner
/// below the iso level and a corner at or above it.
pub proof fn lemma_straddling_cells_members(lt: Seq<bool>, ge: Seq<bool>, nx: usize, ny: usize, nz: usize, c: [usize; 3])
    requires
        nx >= 2,
        ny >= 2,
        nz >= 2,
    ensures
        straddling_cells(lt, ge, nx as int, ny as int, nz as int).contains(c) <==> (c[0] + 1 < nx && c[1] + 1 < ny
            && c[2] + 1 < nz && cell_straddles(lt, ge, nx as int, ny as int, c[0] as int, c[1] as int, c[2] as int)),
{
    lemma_block_members(lt, ge, nx as int, ny as int, (nx - 1) as usize, (ny - 1) as usize, (nz - 1) as usize, c);
}

/// Some corner `(x + dx, y + dy, z + dz)`, `dx, dy, dz` in {0, 1}, of cell
/// (x, y, z) is set in the mask of a sample grid `nx` wide and `ny` high,
/// stored x fastest, then y, then z.
pub open spec fn some_corner_set(m: Seq<bool>, nx: int, ny: int, x: int, y: int, z: int) -> bool {
    exists|dx: int, dy: int, dz: int|
        0 <= dx < 2 && 0 <= dy < 2 && 0 <= dz < 2 && #[trigger] m[(x + dx) + nx * ((y + dy) + ny * (z + dz))]
}

proof fn lemma_any_corner_iff(m: Seq<bool>, nx: int, ny: int, x: int, y: int, z: int)
    ensures
        any_set(cell_corners(m, nx, ny, x, y, z)) <==> some_corner_set(m, nx, ny, x, y, z),
{
    let c = cell_corners(m, nx, ny, x, y, z);
    let s = |dx: int, dy: int, dz: int| m[(x + dx) + nx * ((y + dy) + ny * (z + dz))];
    assert(c[0] == s(0, 0, 0));
    assert(c[1] == s(1, 0, 0));
    assert(c[2] == s(0, 1, 0));
    assert(c[3] == s(1, 1, 0));
    assert(c[4] == s(0, 0, 1));
    assert(c[5] == s(1, 0, 1));
    assert(c[6] == s(0, 1, 1));
    assert(c[7] == s(1, 1, 1));
    if any_set(c) {
        let i = choose|i: int| 0 <= i < c.len() && c[i];
        if i == 0 {
            assert(m[(x + 0) + nx * ((y + 0) + ny * (z + 0))]);
        } else if i == 1 {
            assert(m[(x + 1) + nx * ((y + 0) + ny * (z + 0))]);
        } else if i == 2 {
            assert(m[(x + 0) + nx * ((y + 1) + ny * (z + 0))]);
        } else if i == 3 {
            assert(m[(x + 1) + nx * ((y + 1) + ny * (z + 0))]);
        } else if i == 4 {
            assert(m[(x + 0) + nx * ((y + 0) + ny * (z + 1))]);
        } else if i == 5 {
            assert(m[(x + 1) + nx * ((y + 0) + ny * (z + 1))]);
        } else if i == 6 {
            assert(m[(x + 0) + nx * ((y + 1) + ny * (z + 1))]);
        } else {
            assert(m[(x + 1) + nx * ((y + 1) + ny * (z + 1))]);
        }
    }
    if some_corner_set(m, nx, ny, x, y, z) {
        let (dx, dy, dz) = choose|dx: int, dy: int, dz: int|
            0 <= dx < 2 && 0 <= dy < 2 && 0 <= dz < 2 && #[trigger] m[(x + dx) + nx * ((y + dy) + ny * (z + dz))];
        let i = dx + 2 * dy + 4 * dz;
        assert(c[i]);
    }
}

/// Dual contouring reports exactly the cells inside the grid with one of
/// their eight corner samples below the iso level (`lt`) and one at or
/// above it (`ge`), whichever corners those are.
pub proof fn lemma_dual_contour_reports_straddling_corners(
    lt: Seq<bool>,
    ge: Seq<bool>,
    nx: usize,
    ny: usize,
    nz: usize,
    c: [usize; 3],
)
    requires
        nx >= 2,
        ny >= 2,
        nz >= 2,
    ensures
        straddling_cells(lt, ge, nx as int, ny as int, nz as int).contains(c) <==> (c[0] + 1 < nx && c[1] + 1 < ny
            && c[2] + 1 < nz && some_corner_set(lt, nx as int, ny as int, c[0] as int, c[1] as int, c[2] as int)
            && some_corner_set(ge, nx as int, ny as int, c[0] as int, c[1] as int, c[2] as int)),
{
    lemma_straddling_cells_members(lt, ge, nx, ny, nz, c);
    lemma_any_corner_iff(lt, nx as int, ny as int, c[0] as int, c[1] as int, c[2] as int);
    lemma_any_corner_iff(ge, nx as int, ny as int, c[0] as int, c[1] as int, c[2] as int);
}

fn sample_at(m: &[bool], nx: usize, ny: usize, nz: usize, x: usize, y: usize, z: usize) -> (r: bool)
    requires
        x < nx,
        y < ny,
        z < nz,
        nx * ny * nz <= m@.len(),
    ensures
        r == m@[sample_index(x as int, y as int, z as int, nx as int, ny as int)],
{
    let len = m.len();
    proof {
        lemma_sample_index_bounds(x as int, y as int, z as int, nx as int, ny as int, nz as int);
        assert(nx * ny * nz <= len);
    }
    m[x + nx * (y + ny * z)]
}

fn any_corner(m: &[bool], nx: usize, ny: usize, nz: usize, x: usize, y: usize, z: usize) -> (r: bool)
    requires
        x + 1 < nx,
        y + 1 < ny,
        z + 1 < nz,
        nx * ny * nz <= m@.len(),
    ensures
        r == any_set(cell_corners(m@, nx as int, ny as int, x as int, y as int, z as int)),
{
    let ghost c = cell_corners(m@, nx as int, ny as int, x as int, y as int, z as int);
    let r = sample_at(m, nx, ny, nz, x, y, z) || sample_at(m, nx, ny, nz, x + 1, y, z) || sample_at(
        m,
        nx,
        ny,
        nz,
        x,
        y + 1,
        z,
    ) || sample_at(m, nx, ny, nz, x + 1, y + 1, z) || sample_at(m, nx, ny, nz, x, y, z + 1) || sample_at(
        m,
        nx,
        ny,
        nz,
        x + 1,
        y,
        z + 1,
    ) || sample_at(m, nx, ny, nz, x, y + 1, z + 1) || sample_at(m, nx, ny, nz, x + 1, y + 1, z + 1);
    proof {
        if r {
            assert(c[0] || c[1] || c[2] || c[3] || c[4] || c[5] || c[6] || c[7]);
        } else {
            assert forall|i: int| 0 <= i < c.len() implies !#[trigger] c[i] by {
                assert(!c[0] && !c[1] && !c[2] && !c[3] && !c[4] && !c[5] && !c[6] && !c[7]);
            }
        }
    }
    r
}

/// The grid cells of an `nx` × `ny` × `nz` sample grid (x fastest) that
/// have a corner below the iso level (`lt`) and a corner at or above it
/// (`ge`), as `[x, y, z]`, z-major, then y, then x; no cell when a
/// dimension is below 2.
pub fn dual_contour_cells(lt: &[bool], ge: &[bool], nx: usize, ny: usize, nz: usize) -> (r: Vec<[usize; 3]>)
    requires
        nx >= 2 && ny >= 2 && nz >= 2 ==> nx * ny * nz <= lt@.len() && nx * ny * nz <= ge@.len(),
    ensures
        r@ == straddling_cells(lt@, ge@, nx as int, ny as int, nz as int),
{
    let mut out: Vec<[usize; 3]> = Vec::new();
    if nx < 2 || ny < 2 || nz < 2 {
        return out;
    }
    let cx = nx - 1;
    let cy = ny - 1;
    let cz = nz - 1;
    let ghost (l, g, nxi, nyi) = (lt@, ge@, nx as int, ny as int);
    let mut z: usize = 0;
    while z < cz
        invariant
            l == lt@ && g == ge@ && nxi == nx && nyi == ny,
            cx == nx - 1 && cy == ny - 1 && cz == nz - 1,
            nx >= 2 && ny >= 2 && nz >= 2,
            nx * ny * nz <= lt@.len() && nx * ny * nz <= ge@.len(),
            z <= cz,
            out@ == block_cells(l, g, nxi, nyi, cx as nat, cy as nat, z as nat),
        decreases cz - z,
    {
        let mut y: usize = 0;
        while y < cy
            invariant
                l == lt@ && g == ge@ && nxi == nx && nyi == ny,
                cx == nx - 1 && cy == ny - 1 && cz == nz - 1,
                nx >= 2 && ny >= 2 && nz >= 2,
                nx * ny * nz <= lt@.len() && nx * ny * nz <= ge@.len(),
                z < cz,
                y <= cy,
                out@ == block_cells(l, g, nxi, nyi, cx as nat, cy as nat, z as nat) + slice_cells(
                    l,
                    g,
                    nxi,
                    nyi,
                    cx as nat,
                    z as int,
                    y as nat,
                ),
            decreases cy - y,
        {
            let ghost before = out@;
            let mut x: usize = 0;
            while x < cx
                invariant
                    l == lt@ && g == ge@ && nxi == nx && nyi == ny,
                    cx == nx - 1 && cy == ny - 1 && cz == nz - 1,
                    nx * ny * nz <= lt@.len() && nx * ny * nz <= ge@.len(),
                    z < cz,
                    y < cy,
                    x <= cx,
                    out@ == before + row_cells(l, g, nxi, nyi, y as int, z as int, x as nat),
                decreases cx - x,
            {
                let below = any_corner(lt, nx, ny, nz, x, y, z);
                let above = any_corner(ge, nx, ny, nz, x, y, z);
                if below && above {
                    out.push([x, y, z]);
                }
                proof {
                    assert(row_cells(l, g, nxi, nyi, y as int, z as int, (x + 1) as nat) == if cell_straddles(
                        l,
                        g,
                        nxi,
                        nyi,
                        x as int,
                        y as int,
                        z as int,
                    ) {
                        row_cells(l, g, nxi, nyi, y as int, z as int, x as nat).push([x, y, z])
                    } else {
                        row_cells(l, g, nxi, nyi, y as int, z as int, x as nat)
                    });
                }
                x += 1;
            }
            proof {
                let b = block_cells(l, g, nxi, nyi, cx as nat, cy as nat, z as nat);
                let s = slice_cells(l, g, nxi, nyi, cx as nat, z as int, y as nat);
                let rw = row_cells(l, g, nxi, nyi, y as int, z as int, cx as nat);
                assert(slice_cells(l, g, nxi, nyi, cx as nat, z as int, (y + 1) as nat) == s + rw);
                assert(b + s + rw =~= b + (s + rw));
            }
            y += 1;
        }
        proof {
            assert(block_cells(l, g, nxi, nyi, cx as nat, cy as nat, (z + 1) as nat) == block_cells(
                l,
                g,
                nxi,
                nyi,
                cx as nat,
                cy as nat,
                z as nat,
            ) + slice_cells(l, g, nxi, nyi, cx as nat, z as int, cy as nat));
        }
        z += 1;
    }
    out
}

/// Cell `p` comes before cell `q` in z-major order (then y, then x).
pub open spec fn cell_before(p: [usize; 3], q: [usize; 3]) -> bool {
    p[2] < q[2] || (p[2] == q[2] && (p[1] < q[1] || (p[1] == q[1] && p[0] < q[0])))
}

/// The cells of `r` lie in row (y, z), left of column `x`, by increasing x.
spec fn row_shaped(r: Seq<[usize; 3]>, y: usize, z: usize, x: usize) -> bool {
    &&& forall|a: int| 0 <= a < r.len() ==> #[trigger] r[a][1] == y && r[a][2] == z && r[a][0] < x
    &&& forall|a: int, b: int| 0 <= a < b < r.len() ==> #[trigger] r[a][0] < #[trigger] r[b][0]
}

/// The cells of `r` lie in slice z, below row `y`, left of column `cx`, in
/// z-major order.
spec fn slice_shaped(r: Seq<[usize; 3]>, z: usize, y: usize, cx: usize) -> bool {
    &&& forall|a: int| 0 <= a < r.len() ==> #[trigger] r[a][2] == z && r[a][1] < y && r[a][0] < cx
    &&& forall|a: int, b: int| 0 <= a < b < r.len() ==> cell_before(#[trigger] r[a], #[trigger] r[b])
}

/// The cells of `r` lie below slice `z`, row `cy`, column `cx`, in z-major
/// order.
spec fn block_shaped(r: Seq<[usize; 3]>, z: usize, cy: usize, cx: usize) -> bool {
    &&& forall|a: int| 0 <= a < r.len() ==> #[trigger] r[a][2] < z && r[a][1] < cy && r[a][0] < cx
    &&& forall|a: int, b: int| 0 <= a < b < r.len() ==> cell_before(#[trigger] r[a], #[trigger] r[b])
}

proof fn lemma_row_sorted(lt: Seq<bool>, ge: Seq<bool>, nx: int, ny: int, y: usize, z: usize, x: usize)
    ensures
        row_shaped(row_cells(lt, ge, nx, ny, y as int, z as int, x as nat), y, z, x),
    decreases x,
{
    if x > 0 {
        let x1 = (x - 1) as usize;
        lemma_row_sorted(lt, ge, nx, ny, y, z, x1);
        let p = row_cells(lt, ge, nx, ny, y as int, z as int, x1 as nat);
        assert(row_shaped(p, y, z, x1));
        if cell_straddles(lt, ge, nx, ny, x1 as int, y as int, z as int) {
            let e: [usize; 3] = [x1, y, z];
            assert(e[0] == x1 && e[1] == y && e[2] == z);
            let r = p.push(e);
            assert(row_cells(lt, ge, nx, ny, y as int, z as int, x as nat) == r);
            assert forall|a: int| 0 <= a < r.len() implies #[trigger] r[a][1] == y && r[a][2] == z && r[a][0] < x by {
                if a < p.len() {
                    assert(r[a] == p[a]);
                    assert(p[a][1] == y);
                } else {
                    assert(r[a] == e);
                }
            }
            assert forall|a: int, b: int| 0 <= a < b < r.len() implies #[trigger] r[a][0] < #[trigger] r[b][0] by {
                if b < p.len() {
                    assert(r[a] == p[a] && r[b] == p[b]);
                    assert(p[a][0] < p[b][0]);
                } else {
                    assert(r[a] == p[a] && r[b] == e);
                    assert(p[a][1] == y);
                }
            }
        } else {
            assert(row_cells(lt, ge, nx, ny, y as int, z as int, x as nat) == p);
            assert forall|a: int| 0 <= a < p.len() implies #[trigger] p[a][1] == y && p[a][2] == z && p[a][0] < x by {
                assert(p[a][1] == y);
            }
        }
    }
}

proof fn lemma_slice_sorted(lt: Seq<bool>, ge: Seq<bool>, nx: int, ny: int, cx: usize, z: usize, y: usize)
    ensures
        slice_shaped(slice_cells(lt, ge, nx, ny, cx as nat, z as int, y as nat), z, y, cx),
    decreases y,
{
    if y > 0 {
        let y1 = (y - 1) as usize;
        lemma_slice_sorted(lt, ge, nx, ny, cx, z, y1);
        lemma_row_sorted(lt, ge, nx, ny, y1, z, cx);
        let p = slice_cells(lt, ge, nx, ny, cx as nat, z as int, y1 as nat);
        let w = row_cells(lt, ge, nx, ny, y1 as int, z as int, cx as nat);
        assert(slice_shaped(p, z, y1, cx));
        assert(row_shaped(w, y1, z, cx));
        let r = p + w;
        assert(slice_cells(lt, ge, nx, ny, cx as nat, z as int, y as nat) == r);
        assert forall|a: int| 0 <= a < r.len() implies #[trigger] r[a][2] == z && r[a][1] < y && r[a][0] < cx by {
            if a < p.len() {
                assert(r[a] == p[a]);
                assert(p[a][2] == z);
            } else {
                assert(r[a] == w[a - p.len()]);
                assert(w[a - p.len()][1] == y1);
            }
        }
        assert forall|a: int, b: int| 0 <= a < b < r.len() implies cell_before(#[trigger] r[a], #[trigger] r[b]) by {
            if b < p.len() {
                assert(r[a] == p[a] && r[b] == p[b]);
                assert(cell_before(p[a], p[b]));
            } else if a < p.len() {
                assert(r[a] == p[a] && r[b] == w[b - p.len()]);
                assert(p[a][2] == z);
                assert(w[b - p.len()][1] == y1);
            } else {
                assert(r[a] == w[a - p.len()] && r[b] == w[b - p.len()]);
                assert(w[a - p.len()][0] < w[b - p.len()][0]);
                assert(w[a - p.len()][1] == y1);
                assert(w[b - p.len()][1] == y1);
            }
        }
    }
}

proof fn lemma_block_sorted(lt: Seq<bool>, ge: Seq<bool>, nx: int, ny: int, cx: usize, cy: usize, z: usize)
    ensures
        block_shaped(block_cells(lt, ge, nx, ny, cx as nat, cy as nat, z as nat), z, cy, cx),
    decreases z,
{
    if z > 0 {
        let z1 = (z - 1) as usize;
        lemma_block_sorted(lt, ge, nx, ny, cx, cy, z1);
        lemma_slice_sorted(lt, ge, nx, ny, cx, z1, cy);
        let p = block_cells(lt, ge, nx, ny, cx as nat, cy as nat, z1 as nat);
        let w = slice_cells(lt, ge, nx, ny, cx as nat, z1 as int, cy as nat);
        assert(block_shaped(p, z1, cy, cx));
        assert(slice_shaped(w, z1, cy, cx));
        let r = p + w;
        assert(block_cells(lt, ge, nx, ny, cx as nat, cy as nat, z as nat) == r);
        assert forall|a: int| 0 <= a < r.len() implies #[trigger] r[a][2] < z && r[a][1] < cy && r[a][0] < cx by {
            if a < p.len() {
                assert(r[a] == p[a]);
                assert(p[a][2] < z1);
            } else {
                assert(r[a] == w[a - p.len()]);
                assert(w[a - p.len()][2] == z1);
            }
        }
        assert forall|a: int, b: int| 0 <= a < b < r.len() implies cell_before(#[trigger] r[a], #[trigger] r[b]) by {
            if b < p.len() {
                assert(r[a] == p[a] && r[b] == p[b]);
                assert(cell_before(p[a], p[b]));
            } else if a < p.len() {
                assert(r[a] == p[a] && r[b] == w[b - p.len()]);
                assert(p[a][2] < z1);
                assert(w[b - p.len()][2] == z1);
            } else {
                assert(r[a] == w[a - p.len()] && r[b] == w[b - p.len()]);
                assert(cell_before(w[a - p.len()], w[b - p.len()]));
            }
        }
    }
}

/// The reported cells come in z-major order (then y, then x), each once:
/// every cell is strictly before the cells after it.
pub proof fn lemma_straddling_cells_ordered(lt: Seq<bool>, ge: Seq<bool>, nx: usize, ny: usize, nz: usize)
    ensures
        ({
            let r = straddling_cells(lt, ge, nx as int, ny as int, nz as int);
            forall|a: int, b: int| 0 <= a < b < r.len() ==> cell_before(#[trigger] r[a], #[trigger] r[b])
        }),
{
    if nx >= 2 && ny >= 2 && nz >= 2 {
        lemma_block_sorted(lt, ge, nx as int, ny as int, (nx - 1) as usize, (ny - 1) as usize, (nz - 1) as usize);
        assert(block_shaped(
            block_cells(lt, ge, nx as int, ny as int, (nx - 1) as nat, (ny - 1) as nat, (nz - 1) as nat),
            (nz - 1) as usize,
            (ny - 1) as usize,
            (nx - 1) as usize,
        ));
    }
}

} // verus!
