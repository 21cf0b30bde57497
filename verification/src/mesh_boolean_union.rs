//! Boolean union of two triangle meshes: index bookkeeping.

use vstd::prelude::*;

verus! {

/// `t` with `offset` added to each corner.
pub open spec fn spec_offset_tri(t: [u32; 3], offset: u32) -> [u32; 3] {
    [(t[0] + offset) as u32, (t[1] + offset) as u32, (t[2] + offset) as u32]
}

/// Every corner of `t` plus `offset` stays within `u32`.
pub open spec fn offset_fits(t: [u32; 3], offset: u32) -> bool {
    t[0] + offset <= u32::MAX && t[1] + offset <= u32::MAX && t[2] + offset <= u32::MAX
}

/// Every corner of every triangle is below `n`.
pub open spec fn indices_below(tris: Seq<[u32; 3]>, n: int) -> bool {
    forall|i: int| 0 <= i < tris.len() ==> #[trigger] tris[i][0] < n && tris[i][1] < n && tris[i][2] < n
}

/// `tris_a` followed by `tris_b` shifted by `offset`.
pub open spec fn spec_union_triangles(tris_a: Seq<[u32; 3]>, tris_b: Seq<[u32; 3]>, offset: u32) -> Seq<[u32; 3]> {
    tris_a + tris_b.map_values(|t: [u32; 3]| spec_offset_tri(t, offset))
}

/// Compute vertex count after union (sum of both counts).
pub fn estimate_union_vertex_count(a_count: usize, b_count: usize) -> (r: usize)
    requires
        a_count + b_count <= usize::MAX,
    ensures
        r == a_count + b_count,
{
    a_count + b_count
}

/// Validate that a mesh with `vert_count` vertices is suitable for boolean
/// operations: every index is below the vertex count taken as a `u32`.
pub fn validate_mesh_for_boolean(vert_count: usize, tris: &[[u32; 3]]) -> (r: bool)
    ensures
        r == indices_below(tris@, (vert_count as u32) as int),
{
    let n = vert_count as u32;
    let mut i: usize = 0;
    while i < tris.len()
        invariant
            i <= tris@.len(),
            n == vert_count as u32,
            indices_below(tris@.subrange(0, i as int), n as int),
        decreases tris@.len() - i,
    {
        let t = tris[i];
        if !(t[0] < n && t[1] < n && t[2] < n) {
            assert(!(tris@[i as int][0] < n && tris@[i as int][1] < n && tris@[i as int][2] < n));
            return false;
        }
        assert(tris@.subrange(0, i as int + 1) =~= tris@.subrange(0, i as int).push(t));
        i += 1;
    }
    assert(tris@.subrange(0, tris@.len() as int) =~= tris@);
    true
}

/// The triangle list of the union of mesh A (with `a_vert_count` vertices)
/// and mesh B: A's triangles, then B's with indices shifted past A's
/// vertices.
pub fn union_triangles(a_vert_count: usize, tris_a: &[[u32; 3]], tris_b: &[[u32; 3]]) -> (r: Vec<[u32; 3]>)
    requires
        forall|i: int| 0 <= i < tris_b@.len() ==> #[trigger] offset_fits(tris_b@[i], a_vert_count as u32),
    ensures
        r@ == spec_union_triangles(tris_a@, tris_b@, a_vert_count as u32),
{
    let offset = a_vert_count as u32;
    let mut out: Vec<[u32; 3]> = Vec::new();
    let mut i: usize = 0;
    while i < tris_a.len()
        invariant
            i <= tris_a@.len(),
            out@ == tris_a@.subrange(0, i as int),
        decreases tris_a@.len() - i,
    {
        out.push(tris_a[i]);
        i += 1;
    }
    assert(tris_a@.subrange(0, tris_a@.len() as int) =~= tris_a@);
    let ghost mapped = tris_b@.map_values(|t: [u32; 3]| spec_offset_tri(t, offset));
    let mut j: usize = 0;
    while j < tris_b.len()
        invariant
            j <= tris_b@.len(),
            offset == a_vert_count as u32,
            mapped == tris_b@.map_values(|t: [u32; 3]| spec_offset_tri(t, offset)),
            forall|k: int| 0 <= k < tris_b@.len() ==> #[trigger] offset_fits(tris_b@[k], offset),
            out@ == tris_a@ + mapped.subrange(0, j as int),
        decreases tris_b@.len() - j,
    {
        let t = tris_b[j];
        assert(offset_fits(tris_b@[j as int], offset));
        let nt = [t[0] + offset, t[1] + offset, t[2] + offset];
        assert(nt =~= mapped[j as int]);
        out.push(nt);
        assert(mapped.subrange(0, j as int + 1) =~= mapped.subrange(0, j as int).push(nt));
        j += 1;
    }
    assert(mapped.subrange(0, tris_b@.len() as int) =~= mapped);
    out
}

/// The union's triangle list holds A's triangles first, then one shifted
/// triangle per triangle of B; with B empty it is A unchanged.
pub proof fn lemma_union_triangles_shape(tris_a: Seq<[u32; 3]>, tris_b: Seq<[u32; 3]>, offset: u32)
    ensures
        spec_union_triangles(tris_a, tris_b, offset).len() == tris_a.len() + tris_b.len(),
        spec_union_triangles(tris_a, tris_b, offset).subrange(0, tris_a.len() as int) == tris_a,
        tris_b.len() == 0 ==> spec_union_triangles(tris_a, tris_b, offset) == tris_a,
{
    let u = spec_union_triangles(tris_a, tris_b, offset);
    assert(u.subrange(0, tris_a.len() as int) =~= tris_a);
    if tris_b.len() == 0 {
        assert(u =~= tris_a);
    }
}

/// When every index of B is below `b_count`, every index of the union is
/// below `a_count + b_count` (with `a_count` the offset used).
pub proof fn lemma_union_indices_in_range(
    tris_a: Seq<[u32; 3]>,
    tris_b: Seq<[u32; 3]>,
    a_count: u32,
    b_count: int,
)
    requires
        0 <= b_count,
        indices_below(tris_a, a_count as int),
        indices_below(tris_b, b_count),
        forall|i: int| 0 <= i < tris_b.len() ==> #[trigger] offset_fits(tris_b[i], a_count),
    ensures
        indices_below(spec_union_triangles(tris_a, tris_b, a_count), a_count + b_count),
{
    let u = spec_union_triangles(tris_a, tris_b, a_count);
    assert forall|i: int| 0 <= i < u.len() implies #[trigger] u[i][0] < a_count + b_count && u[i][1]
        < a_count + b_count && u[i][2] < a_count + b_count by {
        if i < tris_a.len() {
            assert(u[i] == tris_a[i]);
            assert(tris_a[i][0] < a_count && tris_a[i][1] < a_count && tris_a[i][2] < a_count);
        } else {
            let j = i - tris_a.len();
            assert(u[i] == spec_offset_tri(tris_b[j], a_count));
            assert(offset_fits(tris_b[j], a_count));
            assert(tris_b[j][0] < b_count && tris_b[j][1] < b_count && tris_b[j][2] < b_count);
        }
    }
}

} // verus!
