//! Slicing a triangle mesh by a plane: which vertices and triangles go to
//! each side, once each triangle's side is known.
//!
//! Each triangle is copied to its side with fresh vertices: its corners that
//! name an existing vertex are appended to that side's vertex list, and the
//! triangle becomes `[o, o + 1, o + 2]`, where `o` is the length of that
//! list before the triangle.

use vstd::prelude::*;

verus! {

/// The corners of `t` that name one of the `vc` vertices, in order.
pub open spec fn valid_corners(t: [u32; 3], vc: int) -> Seq<u32> {
    (if t[0] < vc { seq![t[0]] } else { Seq::empty() }) + (if t[1] < vc { seq![t[1]] } else { Seq::empty() }) + (
    if t[2] < vc { seq![t[2]] } else { Seq::empty() })
}

/// The source vertices of side `want` after the first `k` triangles.
pub open spec fn side_sources(tris: Seq<[u32; 3]>, above: Seq<bool>, want: bool, vc: int, k: nat) -> Seq<u32>
    decreases k,
{
    if k == 0 {
        Seq::empty()
    } else {
        let p = side_sources(tris, above, want, vc, (k - 1) as nat);
        if above[k - 1] == want {
            p + valid_corners(tris[k - 1], vc)
        } else {
            p
        }
    }
}

/// The triangles of side `want` after the first `k` triangles.
pub open spec fn side_tris(tris: Seq<[u32; 3]>, above: Seq<bool>, want: bool, vc: int, k: nat) -> Seq<[u32; 3]>
    decreases k,
{
    if k == 0 {
        Seq::empty()
    } else {
        let p = side_tris(tris, above, want, vc, (k - 1) as nat);
        if above[k - 1] == want {
            let o = side_sources(tris, above, want, vc, (k - 1) as nat).len();
            p.push([o as u32, (o + 1) as u32, (o + 2) as u32])
        } else {
            p
        }
    }
}

/// The two halves of a sliced mesh, as vertex sources and triangles.
#[derive(Debug, Clone)]
pub struct SlicePartition {
    /// For each vertex above the plane, the input vertex it copies.
    pub above_sources: Vec<u32>,
    pub above_tris: Vec<[u32; 3]>,
    /// For each vertex below the plane, the input vertex it copies.
    pub below_sources: Vec<u32>,
    pub below_tris: Vec<[u32; 3]>,
}

/// A side's vertex list grows by at most three per triangle.
pub proof fn lemma_side_sources_len(tris: Seq<[u32; 3]>, above: Seq<bool>, want: bool, vc: int, k: nat)
    ensures
        side_sources(tris, above, want, vc, k).len() <= 3 * k,
    decreases k,
{
    if k > 0 {
        lemma_side_sources_len(tris, above, want, vc, (k - 1) as nat);
    }
}

/// Every triangle goes to exactly one side.
pub proof fn lemma_slice_keeps_every_triangle(tris: Seq<[u32; 3]>, above: Seq<bool>, vc: int, k: nat)
    ensures
        side_tris(tris, above, true, vc, k).len() + side_tris(tris, above, false, vc, k).len() == k,
    decreases k,
{
    if k > 0 {
        lemma_slice_keeps_every_triangle(tris, above, vc, (k - 1) as nat);
    }
}

/// Every vertex copied to either side names an input vertex.
pub proof fn lemma_slice_sources_in_range(tris: Seq<[u32; 3]>, above: Seq<bool>, want: bool, vc: int, k: nat)
    ensures
        forall|i: int|
            0 <= i < side_sources(tris, above, want, vc, k).len() ==> #[trigger] side_sources(
                tris,
                above,
                want,
                vc,
                k,
            )[i] < vc,
    decreases k,
{
    if k > 0 {
        let k1 = (k - 1) as nat;
        lemma_slice_sources_in_range(tris, above, want, vc, k1);
        if above[k1 as int] == want {
            let t = tris[k1 as int];
            let a = if t[0] < vc { seq![t[0]] } else { Seq::<u32>::empty() };
            let b = if t[1] < vc { seq![t[1]] } else { Seq::<u32>::empty() };
            let c = if t[2] < vc { seq![t[2]] } else { Seq::<u32>::empty() };
            let v = valid_corners(t, vc);
            assert(v == a + b + c);
            assert forall|j: int| 0 <= j < v.len() implies #[trigger] v[j] < vc by {
                if j < a.len() {
                    assert(v[j] == a[j]);
                } else if j < a.len() + b.len() {
                    assert(v[j] == b[j - a.len()]);
                } else {
                    assert(v[j] == c[j - a.len() - b.len()]);
                }
            }
            let ps = side_sources(tris, above, want, vc, k1);
            let s = side_sources(tris, above, want, vc, k);
            assert(s == ps + v);
            assert forall|i: int| 0 <= i < s.len() implies #[trigger] s[i] < vc by {
                if i < ps.len() {
                    assert(s[i] == ps[i]);
                } else {
                    assert(s[i] == v[i - ps.len()]);
                }
            }
        } else {
            assert(side_sources(tris, above, want, vc, k) == side_sources(tris, above, want, vc, k1));
        }
    }
}

/// When every corner names an input vertex, each side's triangles index
/// only its own vertex list (under the machine bound that keeps the
/// indices in `u32`).
pub proof fn lemma_slice_tris_in_range(tris: Seq<[u32; 3]>, above: Seq<bool>, want: bool, vc: int, k: nat)
    requires
        k <= tris.len(),
        3 * k <= u32::MAX,
        forall|i: int| 0 <= i < tris.len() ==> #[trigger] tris[i][0] < vc && tris[i][1] < vc && tris[i][2] < vc,
    ensures
        side_sources(tris, above, want, vc, k).len() == 3 * side_tris(tris, above, want, vc, k).len(),
        forall|i: int, j: int|
            0 <= i < side_tris(tris, above, want, vc, k).len() && 0 <= j < 3 ==> #[trigger] side_tris(
                tris,
                above,
                want,
                vc,
                k,
            )[i][j] < side_sources(tris, above, want, vc, k).len(),
    decreases k,
{
    if k > 0 {
        let k1 = (k - 1) as nat;
        lemma_slice_tris_in_range(tris, above, want, vc, k1);
        lemma_side_sources_len(tris, above, want, vc, k1);
        let t = tris[k1 as int];
        assert(t[0] < vc && t[1] < vc && t[2] < vc);
        assert(valid_corners(t, vc).len() == 3);
        let ps = side_sources(tris, above, want, vc, k1);
        let pt = side_tris(tris, above, want, vc, k1);
        if above[k1 as int] == want {
            let o = ps.len();
            let nt = side_tris(tris, above, want, vc, k);
            assert(nt == pt.push([o as u32, (o + 1) as u32, (o + 2) as u32]));
            assert forall|i: int, j: int| 0 <= i < nt.len() && 0 <= j < 3 implies #[trigger] nt[i][j] < ps.len()
                + 3 by {
                if i < pt.len() {
                    assert(nt[i] == pt[i]);
                } else {
                    assert(nt[i] == [o as u32, (o + 1) as u32, (o + 2) as u32]);
                }
            }
        }
    }
}

fn push_valid_corners(out: &mut Vec<u32>, t: [u32; 3], vc: usize)
    ensures
        final(out)@ == old(out)@ + valid_corners(t, vc as int),
{
    let ghost start = out@;
    if (t[0] as usize) < vc {
        out.push(t[0]);
    }
    let ghost s1 = out@;
    if (t[1] as usize) < vc {
        out.push(t[1]);
    }
    let ghost s2 = out@;
    if (t[2] as usize) < vc {
        out.push(t[2]);
    }
    proof {
        let a = if t[0] < vc { seq![t[0]] } else { Seq::<u32>::empty() };
        let b = if t[1] < vc { seq![t[1]] } else { Seq::<u32>::empty() };
        let c = if t[2] < vc { seq![t[2]] } else { Seq::<u32>::empty() };
        assert(s1 =~= start + a);
        assert(s2 =~= start + a + b);
        assert(out@ =~= start + a + b + c);
        assert(start + a + b + c =~= start + (a + b + c));
    }
}

/// Splits the triangles of a mesh with `vert_count` vertices by the side
/// each lies on (`above[i]` for triangle `i`), copying their vertices to
/// that side as the module describes.
pub fn slice_partition(vert_count: usize, tris: &[[u32; 3]], above: &[bool]) -> (r: SlicePartition)
    requires
        above@.len() == tris@.len(),
        3 * tris@.len() + 2 <= u32::MAX,
    ensures
        r.above_sources@ == side_sources(tris@, above@, true, vert_count as int, tris@.len()),
        r.above_tris@ == side_tris(tris@, above@, true, vert_count as int, tris@.len()),
        r.below_sources@ == side_sources(tris@, above@, false, vert_count as int, tris@.len()),
        r.below_tris@ == side_tris(tris@, above@, false, vert_count as int, tris@.len()),
{
    let ghost (ts, ab, vc) = (tris@, above@, vert_count as int);
    let mut above_sources: Vec<u32> = Vec::new();
    let mut above_tris: Vec<[u32; 3]> = Vec::new();
    let mut below_sources: Vec<u32> = Vec::new();
    let mut below_tris: Vec<[u32; 3]> = Vec::new();
    let mut i: usize = 0;
    while i < tris.len()
        invariant
            ts == tris@ && ab == above@ && vc == vert_count,
            above@.len() == tris@.len(),
            3 * tris@.len() + 2 <= u32::MAX,
            i <= tris@.len(),
            above_sources@ == side_sources(ts, ab, true, vc, i as nat),
            above_tris@ == side_tris(ts, ab, true, vc, i as nat),
            below_sources@ == side_sources(ts, ab, false, vc, i as nat),
            below_tris@ == side_tris(ts, ab, false, vc, i as nat),
        decreases tris@.len() - i,
    {
        proof {
            lemma_side_sources_len(ts, ab, true, vc, i as nat);
            lemma_side_sources_len(ts, ab, false, vc, i as nat);
        }
        let t = tris[i];
        if above[i] {
            let o = above_sources.len() as u32;
            push_valid_corners(&mut above_sources, t, vert_count);
            above_tris.push([o, o + 1, o + 2]);
        } else {
            let o = below_sources.len() as u32;
            push_valid_corners(&mut below_sources, t, vert_count);
            below_tris.push([o, o + 1, o + 2]);
        }
        i += 1;
    }
    SlicePartition { above_sources, above_tris, below_sources, below_tris }
}

} // verus!
