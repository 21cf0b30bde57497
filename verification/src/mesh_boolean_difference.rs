//! Boolean difference (A minus B): winding inversion and triangle masking.

use vstd::prelude::*;

verus! {

/// The triangle with its first and last corners exchanged.
pub open spec fn spec_reverse_tri(t: [u32; 3]) -> [u32; 3] {
    [t[2], t[1], t[0]]
}

/// The triangles of `tris` whose paired mask entry is `true`, pairing the
/// two sequences position by position up to the shorter length, in order.
pub open spec fn spec_masked(tris: Seq<[u32; 3]>, mask: Seq<bool>) -> Seq<[u32; 3]>
    decreases tris.len() + mask.len(),
{
    if tris.len() == 0 || mask.len() == 0 {
        Seq::empty()
    } else if tris.len() > mask.len() {
        spec_masked(tris.subrange(0, mask.len() as int), mask)
    } else if mask.len() > tris.len() {
        spec_masked(tris, mask.subrange(0, tris.len() as int))
    } else {
        let rest = spec_masked(tris.drop_last(), mask.drop_last());
        if mask.last() { rest.push(tris.last()) } else { rest }
    }
}

/// Flip triangle winding order (used to invert subtracted mesh normals).
pub fn flip_triangle_winding(tris: &[[u32; 3]]) -> (r: Vec<[u32; 3]>)
    ensures
        r@.len() == tris@.len(),
        forall|i: int| 0 <= i < tris@.len() ==> #[trigger] r@[i] == spec_reverse_tri(tris@[i]),
{
    let mut out: Vec<[u32; 3]> = Vec::new();
    let mut i: usize = 0;
    while i < tris.len()
        invariant
            i <= tris@.len(),
            out@.len() == i,
            forall|j: int| 0 <= j < i ==> #[trigger] out@[j] == spec_reverse_tri(tris@[j]),
        decreases tris@.len() - i,
    {
        let t = tris[i];
        out.push([t[2], t[1], t[0]]);
        i += 1;
    }
    out
}

/// Filter triangles using a keep mask.
pub fn apply_keep_mask(tris: &[[u32; 3]], mask: &[bool]) -> (r: Vec<[u32; 3]>)
    ensures
        r@ == spec_masked(tris@, mask@),
{
    let n: usize = if tris.len() < mask.len() { tris.len() } else { mask.len() };
    let ghost ts = tris@.subrange(0, n as int);
    let ghost ms = mask@.subrange(0, n as int);
    proof {
        lemma_masked_truncate(tris@, mask@);
    }
    let mut out: Vec<[u32; 3]> = Vec::new();
    let mut i: usize = 0;
    while i < n
        invariant
            n <= tris@.len(),
            n <= mask@.len(),
            i <= n,
            ts == tris@.subrange(0, n as int),
            ms == mask@.subrange(0, n as int),
            out@ == spec_masked(ts.subrange(0, i as int), ms.subrange(0, i as int)),
        decreases n - i,
    {
        proof {
            let a = ts.subrange(0, i as int + 1);
            let b = ms.subrange(0, i as int + 1);
            assert(a.drop_last() =~= ts.subrange(0, i as int));
            assert(b.drop_last() =~= ms.subrange(0, i as int));
        }
        if mask[i] {
            out.push(tris[i]);
        }
        i += 1;
    }
    proof {
        assert(ts.subrange(0, n as int) =~= ts);
        assert(ms.subrange(0, n as int) =~= ms);
    }
    out
}

/// Masking only looks at the common prefix of the two sequences.
pub proof fn lemma_masked_truncate(tris: Seq<[u32; 3]>, mask: Seq<bool>)
    ensures
        ({
            let n = if tris.len() < mask.len() { tris.len() } else { mask.len() };
            spec_masked(tris, mask) == spec_masked(tris.subrange(0, n as int), mask.subrange(0, n as int))
        }),
{
    let n = if tris.len() < mask.len() { tris.len() } else { mask.len() };
    if tris.len() == mask.len() {
        assert(tris.subrange(0, n as int) =~= tris);
        assert(mask.subrange(0, n as int) =~= mask);
    } else if tris.len() > mask.len() {
        assert(mask.subrange(0, n as int) =~= mask);
    } else {
        assert(tris.subrange(0, n as int) =~= tris);
    }
}

/// Reversing the winding twice gives the triangle back.
pub proof fn lemma_reverse_tri_involution(t: [u32; 3])
    ensures
        spec_reverse_tri(spec_reverse_tri(t)) == t,
{
    assert(spec_reverse_tri(spec_reverse_tri(t)) =~= t);
}

/// Masking keeps at most as many triangles as it was given, and an all-true
/// mask of the same length keeps every triangle in order.
pub proof fn lemma_masked_bounds(tris: Seq<[u32; 3]>, mask: Seq<bool>)
    ensures
        spec_masked(tris, mask).len() <= tris.len(),
        spec_masked(tris, mask).len() <= mask.len(),
        (mask.len() == tris.len() && forall|i: int| 0 <= i < mask.len() ==> mask[i])
            ==> spec_masked(tris, mask) == tris,
    decreases tris.len() + mask.len(),
{
    if tris.len() == 0 || mask.len() == 0 {
        if tris.len() == 0 {
            assert(tris =~= Seq::<[u32; 3]>::empty());
        }
    } else if tris.len() > mask.len() {
        lemma_masked_bounds(tris.subrange(0, mask.len() as int), mask);
    } else if mask.len() > tris.len() {
        lemma_masked_bounds(tris, mask.subrange(0, tris.len() as int));
    } else {
        lemma_masked_bounds(tris.drop_last(), mask.drop_last());
        if mask.len() == tris.len() && forall|i: int| 0 <= i < mask.len() ==> mask[i] {
            assert(forall|i: int| 0 <= i < mask.drop_last().len() ==> mask.drop_last()[i]);
            assert(mask[mask.len() - 1]);
            assert(tris.drop_last().push(tris.last()) =~= tris);
        }
    }
}

/// Reversing the winding of every triangle twice gives the triangles back.
pub proof fn lemma_reverse_all_twice(tris: Seq<[u32; 3]>, once: Seq<[u32; 3]>, twice: Seq<[u32; 3]>)
    requires
        once.len() == tris.len(),
        forall|i: int| 0 <= i < tris.len() ==> #[trigger] once[i] == spec_reverse_tri(tris[i]),
        twice.len() == once.len(),
        forall|i: int| 0 <= i < once.len() ==> #[trigger] twice[i] == spec_reverse_tri(once[i]),
    ensures
        twice == tris,
{
    assert forall|i: int| 0 <= i < tris.len() implies twice[i] == tris[i] by {
        lemma_reverse_tri_involution(tris[i]);
    }
    assert(twice =~= tris);
}

} // verus!
