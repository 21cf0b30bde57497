//! Reversing the winding order of triangles.

use vstd::prelude::*;

verus! {

/// The triangle with its last two corners exchanged (first corner kept).
pub open spec fn spec_flip_face(t: [u32; 3]) -> [u32; 3] {
    [t[0], t[2], t[1]]
}

/// Number of times `v` occurs in `s`.
pub open spec fn occurrences(s: Seq<usize>, v: usize) -> nat
    decreases s.len(),
{
    if s.len() == 0 {
        0
    } else {
        occurrences(s.drop_last(), v) + if s.last() == v { 1nat } else { 0nat }
    }
}

/// `t` flipped when `times` is odd, unchanged when it is even.
pub open spec fn flipped_times(t: [u32; 3], times: nat) -> [u32; 3] {
    if times % 2 == 1 { spec_flip_face(t) } else { t }
}

/// Record of which faces were found to be flipped.
#[derive(Debug, Clone, PartialEq)]
pub struct FaceFlip {
    pub flipped_indices: Vec<usize>,
}

/// Flip a single face (reverse winding order of a triangle).
pub fn flip_face_ff(tri: [u32; 3]) -> (r: [u32; 3])
    ensures
        r == spec_flip_face(tri),
{
    [tri[0], tri[2], tri[1]]
}

/// Flip all faces in a triangle list.
pub fn flip_all_faces_ff(tris: &[[u32; 3]]) -> (r: Vec<[u32; 3]>)
    ensures
        r@.len() == tris@.len(),
        forall|i: int| 0 <= i < tris@.len() ==> #[trigger] r@[i] == spec_flip_face(tris@[i]),
{
    let mut out: Vec<[u32; 3]> = Vec::new();
    let mut i: usize = 0;
    while i < tris.len()
        invariant
            i <= tris@.len(),
            out@.len() == i,
            forall|j: int| 0 <= j < i ==> #[trigger] out@[j] == spec_flip_face(tris@[j]),
        decreases tris@.len() - i,
    {
        out.push(flip_face_ff(tris[i]));
        i += 1;
    }
    out
}

/// Flip selected faces by index. Indices past the end are ignored; a face
/// selected several times is flipped that many times.
pub fn flip_selected_faces(tris: &mut [[u32; 3]], selection: &[usize])
    ensures
        final(tris)@.len() == old(tris)@.len(),
        forall|j: int|
            0 <= j < old(tris)@.len() ==> #[trigger] final(tris)@[j] == flipped_times(
                old(tris)@[j],
                occurrences(selection@, j as usize),
            ),
{
    let ghost orig = tris@;
    let mut k: usize = 0;
    while k < selection.len()
        invariant
            k <= selection@.len(),
            tris@.len() == orig.len(),
            forall|j: int|
                0 <= j < orig.len() ==> #[trigger] tris@[j] == flipped_times(
                    orig[j],
                    occurrences(selection@.subrange(0, k as int), j as usize),
                ),
        decreases selection@.len() - k,
    {
        let i = selection[k];
        let ghost before = tris@;
        if i < tris.len() {
            tris[i] = flip_face_ff(tris[i]);
        }
        proof {
            let pre = selection@.subrange(0, k as int);
            let post = selection@.subrange(0, k as int + 1);
            assert(post.drop_last() =~= pre);
            assert forall|j: int| 0 <= j < orig.len() implies #[trigger] tris@[j] == flipped_times(
                orig[j],
                occurrences(post, j as usize),
            ) by {
                assert(occurrences(post, j as usize) == occurrences(pre, j as usize) + if i == j as usize { 1nat } else { 0nat });
                assert(before[j] == flipped_times(orig[j], occurrences(pre, j as usize)));
            }
        }
        k += 1;
    }
    assert(selection@.subrange(0, selection@.len() as int) =~= selection@);
}

/// Count how many faces have been flipped.
pub fn flip_count(ff: &FaceFlip) -> (r: usize)
    ensures
        r == ff.flipped_indices@.len(),
{
    ff.flipped_indices.len()
}

/// Face `t` runs along the directed edge `u → v`.
pub open spec fn has_dir_edge(t: [u32; 3], u: u32, v: u32) -> bool {
    (t[0] == u && t[1] == v) || (t[1] == u && t[2] == v) || (t[2] == u && t[0] == v)
}

/// Face `t` has the edge `{u, v}`, in either direction.
pub open spec fn has_edge(t: [u32; 3], u: u32, v: u32) -> bool {
    has_dir_edge(t, u, v) || has_dir_edge(t, v, u)
}

/// Face `g` has one of the edges of face `f`.
pub open spec fn faces_adjacent(f: [u32; 3], g: [u32; 3]) -> bool {
    has_edge(g, f[0], f[1]) || has_edge(g, f[1], f[2]) || has_edge(g, f[2], f[0])
}

/// Face `g` runs along one of the edges of `f` in the same direction as `f`.
pub open spec fn runs_with(f: [u32; 3], g: [u32; 3]) -> bool {
    has_dir_edge(g, f[0], f[1]) || has_dir_edge(g, f[1], f[2]) || has_dir_edge(g, f[2], f[0])
}

/// `g` wound against its already oriented neighbour `f`: flipped when it
/// runs along an edge of `f` in the same direction, kept otherwise.
pub open spec fn orient_against(f: [u32; 3], g: [u32; 3]) -> [u32; 3] {
    if runs_with(f, g) { spec_flip_face(g) } else { g }
}

/// `r` is `tris` with windings propagated from face 0: `reached` marks
/// face 0 and every face sharing an edge with a reached face (and no
/// other face is changed); every reached face other than face 0 is wound
/// against a reached neighbour `parent[i]` of lower `rank`, so following
/// parents always leads back to face 0, which keeps its winding.
pub open spec fn winding_propagated(
    tris: Seq<[u32; 3]>,
    r: Seq<[u32; 3]>,
    reached: Seq<bool>,
    parent: Seq<int>,
    rank: Seq<int>,
) -> bool {
    let n = tris.len();
    &&& r.len() == n && reached.len() == n && parent.len() == n && rank.len() == n
    &&& n > 0 ==> reached[0] && r[0] == tris[0] && rank[0] == 0
    &&& forall|i: int| 0 <= i < n && !reached[i] ==> #[trigger] r[i] == tris[i]
    &&& forall|i: int|
        0 < i < n && #[trigger] reached[i] ==> {
            let p = parent[i];
            &&& 0 <= p < n && reached[p]
            &&& 0 <= rank[p] < rank[i]
            &&& faces_adjacent(tris[p], tris[i])
            &&& r[i] == orient_against(r[p], tris[i])
        }
    &&& forall|i: int, j: int|
        0 <= i < n && 0 <= j < n && #[trigger] reached[i] && faces_adjacent(tris[i], #[trigger] tris[j]) ==> reached[j]
}

fn has_dir_edge_exec(t: [u32; 3], u: u32, v: u32) -> (r: bool)
    ensures
        r == has_dir_edge(t, u, v),
{
    (t[0] == u && t[1] == v) || (t[1] == u && t[2] == v) || (t[2] == u && t[0] == v)
}

fn has_edge_exec(t: [u32; 3], u: u32, v: u32) -> (r: bool)
    ensures
        r == has_edge(t, u, v),
{
    has_dir_edge_exec(t, u, v) || has_dir_edge_exec(t, v, u)
}

fn faces_adjacent_exec(f: [u32; 3], g: [u32; 3]) -> (r: bool)
    ensures
        r == faces_adjacent(f, g),
{
    has_edge_exec(g, f[0], f[1]) || has_edge_exec(g, f[1], f[2]) || has_edge_exec(g, f[2], f[0])
}

fn orient_against_exec(f: [u32; 3], g: [u32; 3]) -> (r: [u32; 3])
    ensures
        r == orient_against(f, g),
{
    if has_dir_edge_exec(g, f[0], f[1]) || has_dir_edge_exec(g, f[1], f[2]) || has_dir_edge_exec(g, f[2], f[0]) {
        flip_face_ff(g)
    } else {
        g
    }
}

/// A repetition-free sequence of positions below `n` that misses a
/// position below `n` is shorter than `n`.
proof fn lemma_queue_short(s: Seq<usize>, n: int, missing: usize)
    requires
        s.no_duplicates(),
        forall|i: int| 0 <= i < s.len() ==> s[i] < n,
        missing < n,
        !s.contains(missing),
    ensures
        s.len() < n,
{
    let t = s.map_values(|x: usize| x as int);
    assert(t.no_duplicates()) by {
        assert forall|i: int, j: int| 0 <= i < t.len() && 0 <= j < t.len() && i != j implies t[i] != t[j] by {
            assert(s[i] != s[j]);
        }
    }
    t.unique_seq_to_set();
    vstd::set_lib::lemma_int_range(0, n);
    let rest = vstd::set_lib::set_int_range(0, n).remove(missing as int);
    assert(t.to_set().subset_of(rest)) by {
        assert forall|x: int| t.to_set().contains(x) implies rest.contains(x) by {
            let j = choose|j: int| 0 <= j < t.len() && t[j] == x;
            assert(s[j] < n);
            if x == missing as int {
                assert(s[j] == missing);
                assert(s.contains(missing));
            }
        }
    }
    vstd::set_lib::lemma_len_subset(t.to_set(), rest);
}

/// Make winding order consistent by propagating from face 0: breadth-first
/// over faces sharing an edge, each newly reached face is wound against
/// the face it was reached from; faces not connected to face 0 keep their
/// winding.
pub fn consistent_winding(tris: &[[u32; 3]]) -> (r: Vec<[u32; 3]>)
    ensures
        r@.len() == tris@.len(),
        forall|i: int| 0 <= i < tris@.len() ==> #[trigger] r@[i] == tris@[i] || r@[i] == spec_flip_face(tris@[i]),
        exists|reached: Seq<bool>, parent: Seq<int>, rank: Seq<int>|
            winding_propagated(tris@, r@, reached, parent, rank),
{
    let n = tris.len();
    let ghost ts = tris@;
    let mut out: Vec<[u32; 3]> = Vec::new();
    let mut visited: Vec<bool> = Vec::new();
    let mut i: usize = 0;
    while i < n
        invariant
            n == ts.len() && ts == tris@,
            i <= n,
            out@ == ts.subrange(0, i as int),
            visited@.len() == i,
            forall|j: int| 0 <= j < i ==> !#[trigger] visited@[j],
        decreases n - i,
    {
        out.push(tris[i]);
        visited.push(false);
        i += 1;
    }
    assert(out@ =~= ts);
    let ghost mut parent: Seq<int> = Seq::new(n as nat, |j: int| 0int);
    let ghost mut rank: Seq<int> = Seq::new(n as nat, |j: int| 0int);
    if n == 0 {
        assert(winding_propagated(ts, out@, visited@, parent, rank));
        return out;
    }
    visited.set(0, true);
    let mut queue: Vec<usize> = Vec::new();
    queue.push(0);
    assert(queue@[0] == 0usize);
    assert forall|j: int| 0 <= j < n && #[trigger] visited@[j] implies queue@.contains(j as usize) by {
        assert(j == 0);
    }
    let mut head: usize = 0;
    while head < queue.len()
        invariant
            n == ts.len() && ts == tris@ && n > 0,
            out@.len() == n && visited@.len() == n && parent.len() == n && rank.len() == n,
            head <= queue@.len() <= n,
            queue@.no_duplicates(),
            forall|k: int| 0 <= k < queue@.len() ==> #[trigger] queue@[k] < n && visited@[queue@[k] as int],
            forall|j: int| 0 <= j < n && #[trigger] visited@[j] ==> queue@.contains(j as usize),
            visited@[0] && out@[0] == ts[0] && rank[0] == 0,
            forall|j: int| 0 <= j < n && !visited@[j] ==> #[trigger] out@[j] == ts[j],
            forall|j: int|
                0 < j < n && #[trigger] visited@[j] ==> {
                    let p = parent[j];
                    &&& 0 <= p < n && visited@[p]
                    &&& 0 <= rank[p] < rank[j]
                    &&& faces_adjacent(ts[p], ts[j])
                    &&& out@[j] == orient_against(out@[p], ts[j])
                },
            forall|k: int, j: int|
                0 <= k < head && 0 <= j < n && faces_adjacent(ts[#[trigger] queue@[k] as int], #[trigger] ts[j])
                    ==> visited@[j],
        decreases n - head,
    {
        let f = queue[head];
        head += 1;
        let tf = tris[f];
        let of = out[f];
        let mut g: usize = 0;
        while g < n
            invariant
                n == ts.len() && ts == tris@ && n > 0,
                out@.len() == n && visited@.len() == n && parent.len() == n && rank.len() == n,
                0 < head <= queue@.len() <= n,
                f == queue@[head - 1] && f < n && visited@[f as int],
                tf == ts[f as int] && of == out@[f as int],
                g <= n,
                queue@.no_duplicates(),
                forall|k: int| 0 <= k < queue@.len() ==> #[trigger] queue@[k] < n && visited@[queue@[k] as int],
                forall|j: int| 0 <= j < n && #[trigger] visited@[j] ==> queue@.contains(j as usize),
                visited@[0] && out@[0] == ts[0] && rank[0] == 0,
                forall|j: int| 0 <= j < n && !visited@[j] ==> #[trigger] out@[j] == ts[j],
                forall|j: int|
                    0 < j < n && #[trigger] visited@[j] ==> {
                        let p = parent[j];
                        &&& 0 <= p < n && visited@[p]
                        &&& 0 <= rank[p] < rank[j]
                        &&& faces_adjacent(ts[p], ts[j])
                        &&& out@[j] == orient_against(out@[p], ts[j])
                    },
                forall|k: int, j: int|
                    0 <= k < head - 1 && 0 <= j < n && faces_adjacent(ts[#[trigger] queue@[k] as int], #[trigger] ts[j])
                        ==> visited@[j],
                forall|j: int| 0 <= j < g && faces_adjacent(tf, #[trigger] ts[j]) ==> visited@[j],
            decreases n - g,
        {
            if !visited[g] && faces_adjacent_exec(tf, tris[g]) {
                proof {
                    lemma_queue_short(queue@, n as int, g);
                }
                let og = orient_against_exec(of, tris[g]);
                out.set(g, og);
                visited.set(g, true);
                let ghost old_queue = queue@;
                queue.push(g);
                proof {
                    assert(g != 0);
                    parent = parent.update(g as int, f as int);
                    rank = rank.update(g as int, rank[f as int] + 1);
                    assert forall|j: int| 0 <= j < n && #[trigger] visited@[j] implies queue@.contains(j as usize) by {
                        if j == g {
                            assert(queue@[old_queue.len() as int] == g);
                        } else {
                            assert(old_queue.contains(j as usize));
                            let k = choose|k: int| 0 <= k < old_queue.len() && old_queue[k] == j as usize;
                            assert(queue@[k] == j as usize);
                        }
                    }
                    assert(queue@.no_duplicates()) by {
                        assert forall|a: int, b: int|
                            0 <= a < queue@.len() && 0 <= b < queue@.len() && a != b implies queue@[a] != queue@[b] by {
                            if a < old_queue.len() && b < old_queue.len() {
                            } else if a == old_queue.len() {
                                assert(visited@[old_queue[b] as int] || old_queue[b] != g);
                            } else {
                                assert(old_queue[a] != g);
                            }
                        }
                    }
                }
            }
            g += 1;
        }
    }
    proof {
        assert forall|i: int, j: int|
            0 <= i < n && 0 <= j < n && #[trigger] visited@[i] && faces_adjacent(ts[i], #[trigger] ts[j]) implies visited@[j] by {
            assert(queue@.contains(i as usize));
            let k = choose|k: int| 0 <= k < queue@.len() && queue@[k] == i as usize;
            assert(faces_adjacent(ts[queue@[k] as int], ts[j]));
        }
        assert forall|i: int| 0 <= i < n implies #[trigger] out@[i] == ts[i] || out@[i] == spec_flip_face(ts[i]) by {
            if visited@[i] && i > 0 {
                let p = parent[i];
                assert(out@[i] == orient_against(out@[p], ts[i]));
            }
        }
        assert(winding_propagated(ts, out@, visited@, parent, rank));
    }
    out
}

/// Flipping a face twice gives the face back.
pub proof fn lemma_flip_face_involution(t: [u32; 3])
    ensures
        spec_flip_face(spec_flip_face(t)) == t,
{
    assert(spec_flip_face(spec_flip_face(t)) =~= t);
}

/// Flipping every face of a mesh twice gives the mesh back: if `once`
/// flips each face of `tris` and `twice` flips each face of `once`, then
/// `twice` is `tris`.
pub proof fn lemma_flip_all_twice(tris: Seq<[u32; 3]>, once: Seq<[u32; 3]>, twice: Seq<[u32; 3]>)
    requires
        once.len() == tris.len(),
        forall|i: int| 0 <= i < tris.len() ==> #[trigger] once[i] == spec_flip_face(tris[i]),
        twice.len() == once.len(),
        forall|i: int| 0 <= i < once.len() ==> #[trigger] twice[i] == spec_flip_face(once[i]),
    ensures
        twice == tris,
{
    assert forall|i: int| 0 <= i < tris.len() implies twice[i] == tris[i] by {
        lemma_flip_face_involution(tris[i]);
    }
    assert(twice =~= tris);
}

/// Faces `a` and `b` are wound coherently: `b` runs along no edge of `a`
/// in the direction `a` does, so every edge they share is traversed in
/// opposite directions.
pub open spec fn coherent(a: [u32; 3], b: [u32; 3]) -> bool {
    !runs_with(a, b)
}

/// `o` winds each face of `tris` one way or the other so that any two
/// distinct faces sharing an edge are wound coherently.
pub open spec fn coherent_orientation(tris: Seq<[u32; 3]>, o: Seq<[u32; 3]>) -> bool {
    &&& o.len() == tris.len()
    &&& forall|i: int| 0 <= i < tris.len() ==> #[trigger] o[i] == tris[i] || o[i] == spec_flip_face(tris[i])
    &&& forall|i: int, j: int|
        0 <= i < tris.len() && 0 <= j < tris.len() && i != j && faces_adjacent(tris[i], tris[j]) ==> coherent(
            #[trigger] o[i],
            #[trigger] o[j],
        )
}

/// The faces of `tris` can be wound coherently.
pub open spec fn orientable(tris: Seq<[u32; 3]>) -> bool {
    exists|o: Seq<[u32; 3]>| coherent_orientation(tris, o)
}

/// `s` marks faces, and every face sharing an edge with a marked face is
/// marked.
pub open spec fn closed_under_adjacency(tris: Seq<[u32; 3]>, s: Seq<bool>) -> bool {
    &&& s.len() == tris.len()
    &&& forall|i: int, j: int|
        0 <= i < tris.len() && 0 <= j < tris.len() && #[trigger] s[i] && faces_adjacent(tris[i], #[trigger] tris[j])
            ==> s[j]
}

/// The mesh is connected through shared edges: every marking of faces that
/// contains face 0 and is closed under sharing an edge marks every face.
pub open spec fn edge_connected(tris: Seq<[u32; 3]>) -> bool {
    forall|s: Seq<bool>|
        #[trigger] closed_under_adjacency(tris, s) && (tris.len() > 0 ==> s[0]) ==> forall|i: int|
            0 <= i < tris.len() ==> s[i]
}

/// Flipping both faces keeps whether they are wound coherently.
proof fn lemma_flip_both_coherent(a: [u32; 3], b: [u32; 3])
    ensures
        runs_with(spec_flip_face(a), spec_flip_face(b)) == runs_with(a, b),
{
}

/// A face wound against an oriented neighbour gets the winding a coherent
/// orientation gives it.
proof fn lemma_orient_step(tp: [u32; 3], ti: [u32; 3], a: [u32; 3], b: [u32; 3])
    requires
        a == tp || a == spec_flip_face(tp),
        b == ti || b == spec_flip_face(ti),
        faces_adjacent(tp, ti),
        coherent(a, b),
    ensures
        orient_against(a, ti) == b,
{
    if b != ti {
        assert(b == spec_flip_face(ti));
        assert(runs_with(a, ti));
    }
}

proof fn lemma_follows_orientation(
    tris: Seq<[u32; 3]>,
    r: Seq<[u32; 3]>,
    reached: Seq<bool>,
    parent: Seq<int>,
    rank: Seq<int>,
    o: Seq<[u32; 3]>,
    i: int,
)
    requires
        winding_propagated(tris, r, reached, parent, rank),
        coherent_orientation(tris, o),
        tris.len() > 0 ==> o[0] == tris[0],
        0 <= i < tris.len(),
        reached[i],
        i == 0 || rank[i] >= 0,
    ensures
        r[i] == o[i],
    decreases rank[i],
{
    if i > 0 {
        let p = parent[i];
        assert(reached[i]);
        assert(0 <= p < tris.len() && reached[p] && 0 <= rank[p] < rank[i]);
        lemma_follows_orientation(tris, r, reached, parent, rank, o, p);
        assert(o[p] == tris[p] || o[p] == spec_flip_face(tris[p]));
        assert(o[i] == tris[i] || o[i] == spec_flip_face(tris[i]));
        assert(coherent(o[p], o[i]));
        lemma_orient_step(tris[p], tris[i], r[p], o[i]);
    }
}

/// On a mesh that can be wound coherently and is connected through shared
/// edges, the result of `consistent_winding` is wound coherently: any two
/// distinct faces sharing an edge traverse it in opposite directions.
pub proof fn lemma_consistent_winding_coherent(tris: Seq<[u32; 3]>, r: Seq<[u32; 3]>)
    requires
        exists|reached: Seq<bool>, parent: Seq<int>, rank: Seq<int>|
            winding_propagated(tris, r, reached, parent, rank),
        orientable(tris),
        edge_connected(tris),
    ensures
        forall|i: int, j: int|
            0 <= i < tris.len() && 0 <= j < tris.len() && i != j && faces_adjacent(tris[i], tris[j]) ==> coherent(
                #[trigger] r[i],
                #[trigger] r[j],
            ),
{
    let n = tris.len();
    let (reached, parent, rank) = choose|reached: Seq<bool>, parent: Seq<int>, rank: Seq<int>|
        winding_propagated(tris, r, reached, parent, rank);
    let o = choose|o: Seq<[u32; 3]>| coherent_orientation(tris, o);
    let o2 = if n > 0 && o[0] != tris[0] {
        Seq::new(n, |k: int| spec_flip_face(o[k]))
    } else {
        o
    };
    assert(coherent_orientation(tris, o2)) by {
        if n > 0 && o[0] != tris[0] {
            assert forall|i: int| 0 <= i < n implies #[trigger] o2[i] == tris[i] || o2[i] == spec_flip_face(tris[i]) by {
                assert(o[i] == tris[i] || o[i] == spec_flip_face(tris[i]));
                lemma_flip_face_involution(tris[i]);
            }
            assert forall|i: int, j: int|
                0 <= i < n && 0 <= j < n && i != j && faces_adjacent(tris[i], tris[j]) implies coherent(
                    #[trigger] o2[i],
                    #[trigger] o2[j],
                ) by {
                assert(coherent(o[i], o[j]));
                lemma_flip_both_coherent(o[i], o[j]);
            }
        }
    }
    if n > 0 {
        assert(o2[0] == tris[0]) by {
            if o[0] != tris[0] {
                assert(o[0] == spec_flip_face(tris[0]));
                lemma_flip_face_involution(tris[0]);
            }
        }
        assert(closed_under_adjacency(tris, reached));
    }
    assert forall|i: int, j: int|
        0 <= i < n && 0 <= j < n && i != j && faces_adjacent(tris[i], tris[j]) implies coherent(
            #[trigger] r[i],
            #[trigger] r[j],
        ) by {
        assert(reached[i] && reached[j]);
        if i > 0 {
            assert(reached[i]);
        }
        if j > 0 {
            assert(reached[j]);
        }
        lemma_follows_orientation(tris, r, reached, parent, rank, o2, i);
        lemma_follows_orientation(tris, r, reached, parent, rank, o2, j);
        assert(coherent(o2[i], o2[j]));
    }
}

} // verus!
