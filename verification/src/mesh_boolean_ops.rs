//! Boolean mesh operations: face selection, vertex compaction, result
//! assembly and the manifold check. Which faces of A lie inside B is
//! decided geometrically by the caller and handed in as a mask.

use vstd::prelude::*;
use vstd::set_lib::*;
use vstd::arithmetic::div_mod::lemma_fundamental_div_mod_converse;
use std::collections::HashMap;
use crate::mesh_boolean_difference::spec_masked;
use crate::mesh_boolean_union::{spec_offset_tri, offset_fits, union_triangles, spec_union_triangles};

verus! {

/// The type of boolean operation to perform.
#[derive(Debug, Clone, Copy, PartialEq, Eq)]
pub enum BooleanOpType {
    /// Union: combine both meshes.
    Union,
    /// Intersect: keep only the overlapping region.
    Intersect,
    /// Subtract: remove mesh B from mesh A.
    Subtract,
}

/// Name of an operation type.
pub open spec fn spec_op_name(op: BooleanOpType) -> Seq<char> {
    match op {
        BooleanOpType::Union => "union"@,
        BooleanOpType::Intersect => "intersect"@,
        BooleanOpType::Subtract => "subtract"@,
    }
}

/// Returns a human-readable name for a boolean operation type.
pub fn boolean_op_name(op: BooleanOpType) -> (r: &'static str)
    ensures
        r@ == spec_op_name(op),
{
    match op {
        BooleanOpType::Union => "union",
        BooleanOpType::Intersect => "intersect",
        BooleanOpType::Subtract => "subtract",
    }
}

// ---------------------------------------------------------------------------
// Edges and the manifold check
// ---------------------------------------------------------------------------

/// An undirected edge as (smaller index, larger index).
pub open spec fn edge_key(a: u32, b: u32) -> (u32, u32) {
    if a <= b { (a, b) } else { (b, a) }
}

/// Edge `k` (0, 1 or 2) of a face: (f0,f1), (f1,f2), (f0,f2).
pub open spec fn face_edge(f: [u32; 3], k: int) -> (u32, u32) {
    if k == 0 {
        edge_key(f[0], f[1])
    } else if k == 1 {
        edge_key(f[1], f[2])
    } else {
        edge_key(f[0], f[2])
    }
}

/// How many of the faces' edges equal `e`.
pub open spec fn edge_count(faces: Seq<[u32; 3]>, e: (u32, u32)) -> nat
    decreases faces.len(),
{
    if faces.len() == 0 {
        0
    } else {
        let f = faces.last();
        edge_count(faces.drop_last(), e)
            + (if face_edge(f, 0) == e { 1nat } else { 0nat })
            + (if face_edge(f, 1) == e { 1nat } else { 0nat })
            + (if face_edge(f, 2) == e { 1nat } else { 0nat })
    }
}

/// Every edge of the faces is shared by at most two face-edge slots.
pub open spec fn spec_is_manifold(faces: Seq<[u32; 3]>) -> bool {
    forall|i: int, k: int|
        0 <= i < faces.len() && 0 <= k < 3 ==> edge_count(faces, #[trigger] face_edge(faces[i], k)) <= 2
}

/// Edge counts only grow as faces are appended.
pub proof fn lemma_edge_count_prefix(faces: Seq<[u32; 3]>, n: int, e: (u32, u32))
    requires
        0 <= n <= faces.len(),
    ensures
        edge_count(faces.subrange(0, n), e) <= edge_count(faces, e),
    decreases faces.len() - n,
{
    if n < faces.len() {
        lemma_edge_count_prefix(faces, n + 1, e);
        assert(faces.subrange(0, n + 1).drop_last() =~= faces.subrange(0, n));
    } else {
        assert(faces.subrange(0, n) =~= faces);
    }
}

proof fn lemma_face_has_pair(f: [u32; 3], u: u32, v: u32)
    requires
        u != v,
        f[0] == u || f[1] == u || f[2] == u,
        f[0] == v || f[1] == v || f[2] == v,
    ensures
        face_edge(f, 0) == edge_key(u, v) || face_edge(f, 1) == edge_key(u, v) || face_edge(f, 2) == edge_key(u, v),
{
}

proof fn lemma_edge_count_step(faces: Seq<[u32; 3]>, n: int, e: (u32, u32))
    requires
        0 <= n < faces.len(),
        face_edge(faces[n], 0) == e || face_edge(faces[n], 1) == e || face_edge(faces[n], 2) == e,
    ensures
        edge_count(faces.subrange(0, n + 1), e) >= edge_count(faces.subrange(0, n), e) + 1,
{
    assert(faces.subrange(0, n + 1).drop_last() =~= faces.subrange(0, n));
    assert(faces.subrange(0, n + 1).last() == faces[n]);
}

proof fn lemma_edge_count_prefixes(faces: Seq<[u32; 3]>, m: int, n: int, e: (u32, u32))
    requires
        0 <= m <= n <= faces.len(),
    ensures
        edge_count(faces.subrange(0, m), e) <= edge_count(faces.subrange(0, n), e),
{
    let g = faces.subrange(0, n);
    lemma_edge_count_prefix(g, m, e);
    assert(g.subrange(0, m) =~= faces.subrange(0, m));
}

/// Three distinct faces that all have the two vertices `u` and `v` among
/// their corners make the mesh non-manifold: an edge of a triangle joins
/// any two of its corners, so the edge between `u` and `v` is used three
/// times.
pub proof fn lemma_three_faces_on_a_pair_not_manifold(faces: Seq<[u32; 3]>, i: int, j: int, k: int, u: u32, v: u32)
    requires
        0 <= i < j < k < faces.len(),
        u != v,
        faces[i][0] == u || faces[i][1] == u || faces[i][2] == u,
        faces[i][0] == v || faces[i][1] == v || faces[i][2] == v,
        faces[j][0] == u || faces[j][1] == u || faces[j][2] == u,
        faces[j][0] == v || faces[j][1] == v || faces[j][2] == v,
        faces[k][0] == u || faces[k][1] == u || faces[k][2] == u,
        faces[k][0] == v || faces[k][1] == v || faces[k][2] == v,
    ensures
        !spec_is_manifold(faces),
{
    let e = edge_key(u, v);
    lemma_face_has_pair(faces[i], u, v);
    lemma_face_has_pair(faces[j], u, v);
    lemma_face_has_pair(faces[k], u, v);
    lemma_edge_count_step(faces, i, e);
    lemma_edge_count_prefixes(faces, i + 1, j, e);
    lemma_edge_count_step(faces, j, e);
    lemma_edge_count_prefixes(faces, j + 1, k, e);
    lemma_edge_count_step(faces, k, e);
    lemma_edge_count_prefix(faces, k + 1, e);
    assert(edge_count(faces, e) >= 3);
    let slot = if face_edge(faces[i], 0) == e {
        0int
    } else if face_edge(faces[i], 1) == e {
        1int
    } else {
        2int
    };
    assert(edge_count(faces, face_edge(faces[i], slot)) > 2);
}

/// Number of faces with `e` as one of their edges.
spec fn faces_with_edge(faces: Seq<[u32; 3]>, e: (u32, u32)) -> nat
    decreases faces.len(),
{
    if faces.len() == 0 {
        0
    } else {
        let f = faces.last();
        faces_with_edge(faces.drop_last(), e) + if face_edge(f, 0) == e || face_edge(f, 1) == e || face_edge(f, 2)
            == e {
            1nat
        } else {
            0nat
        }
    }
}

proof fn lemma_distinct_corners_count_faces(faces: Seq<[u32; 3]>, e: (u32, u32))
    requires
        forall|i: int| 0 <= i < faces.len() ==> #[trigger] faces[i][0] != faces[i][1] && faces[i][1] != faces[i][2]
            && faces[i][0] != faces[i][2],
    ensures
        edge_count(faces, e) == faces_with_edge(faces, e),
    decreases faces.len(),
{
    if faces.len() > 0 {
        let g = faces.drop_last();
        assert forall|i: int| 0 <= i < g.len() implies #[trigger] g[i][0] != g[i][1] && g[i][1] != g[i][2] && g[i][0]
            != g[i][2] by {
            assert(g[i] == faces[i]);
        }
        lemma_distinct_corners_count_faces(g, e);
        let f = faces.last();
        assert(f == faces[faces.len() - 1]);
    }
}

/// `m` faces, at increasing positions, each with `e` as an edge.
proof fn lemma_faces_with_edge_witnesses(faces: Seq<[u32; 3]>, e: (u32, u32), m: nat) -> (w: Seq<int>)
    requires
        faces_with_edge(faces, e) >= m,
    ensures
        w.len() == m,
        forall|a: int, b: int| 0 <= a < b < m ==> w[a] < w[b],
        forall|a: int|
            0 <= a < m ==> 0 <= #[trigger] w[a] < faces.len() && (face_edge(faces[w[a]], 0) == e || face_edge(
                faces[w[a]],
                1,
            ) == e || face_edge(faces[w[a]], 2) == e),
    decreases faces.len(),
{
    if m == 0 {
        Seq::empty()
    } else {
        let g = faces.drop_last();
        let f = faces.last();
        let last = faces.len() - 1;
        if faces_with_edge(g, e) >= m {
            let w = lemma_faces_with_edge_witnesses(g, e, m);
            assert forall|a: int| 0 <= a < m implies 0 <= #[trigger] w[a] < faces.len() && (face_edge(faces[w[a]], 0)
                == e || face_edge(faces[w[a]], 1) == e || face_edge(faces[w[a]], 2) == e) by {
                assert(faces[w[a]] == g[w[a]]);
            }
            w
        } else {
            assert(face_edge(f, 0) == e || face_edge(f, 1) == e || face_edge(f, 2) == e);
            let w0 = lemma_faces_with_edge_witnesses(g, e, (m - 1) as nat);
            let w = w0.push(last);
            assert forall|a: int| 0 <= a < m implies 0 <= #[trigger] w[a] < faces.len() && (face_edge(faces[w[a]], 0)
                == e || face_edge(faces[w[a]], 1) == e || face_edge(faces[w[a]], 2) == e) by {
                if a < m - 1 {
                    assert(w[a] == w0[a]);
                    assert(faces[w[a]] == g[w[a]]);
                } else {
                    assert(w[a] == last);
                    assert(faces[last] == f);
                }
            }
            assert forall|a: int, b: int| 0 <= a < b < m implies w[a] < w[b] by {
                if b < m - 1 {
                    assert(w[a] == w0[a] && w[b] == w0[b]);
                } else {
                    assert(w[a] == w0[a]);
                }
            }
            w
        }
    }
}

/// For faces with three distinct corners, a non-manifold mesh has two
/// vertices `u != v` that three distinct faces all have as corners: the
/// manifold check fails only because some vertex pair is shared by three
/// faces.
pub proof fn lemma_not_manifold_has_pair_on_three_faces(faces: Seq<[u32; 3]>) -> (r: (int, int, int, u32, u32))
    requires
        forall|i: int| 0 <= i < faces.len() ==> #[trigger] faces[i][0] != faces[i][1] && faces[i][1] != faces[i][2]
            && faces[i][0] != faces[i][2],
        !spec_is_manifold(faces),
    ensures
        ({
            let (i, j, k, u, v) = r;
            &&& 0 <= i < j < k < faces.len()
            &&& u != v
            &&& faces[i][0] == u || faces[i][1] == u || faces[i][2] == u
            &&& faces[i][0] == v || faces[i][1] == v || faces[i][2] == v
            &&& faces[j][0] == u || faces[j][1] == u || faces[j][2] == u
            &&& faces[j][0] == v || faces[j][1] == v || faces[j][2] == v
            &&& faces[k][0] == u || faces[k][1] == u || faces[k][2] == u
            &&& faces[k][0] == v || faces[k][1] == v || faces[k][2] == v
        }),
{
    let (i0, k0) = choose|i: int, k: int|
        0 <= i < faces.len() && 0 <= k < 3 && !(edge_count(faces, #[trigger] face_edge(faces[i], k)) <= 2);
    let e = face_edge(faces[i0], k0);
    assert(faces[i0][0] != faces[i0][1] && faces[i0][1] != faces[i0][2] && faces[i0][0] != faces[i0][2]);
    assert(e.0 != e.1);
    lemma_distinct_corners_count_faces(faces, e);
    let w = lemma_faces_with_edge_witnesses(faces, e, 3);
    assert(w[0] < w[1] && w[1] < w[2]);
    let (u, v) = e;
    assert(0 <= w[0] < faces.len() && 0 <= w[1] < faces.len() && 0 <= w[2] < faces.len());
    (w[0], w[1], w[2], u, v)
}

fn min_max(a: u32, b: u32) -> (r: (u32, u32))
    ensures
        r == edge_key(a, b),
{
    if a <= b { (a, b) } else { (b, a) }
}

fn face_edge_exec(f: [u32; 3], k: usize) -> (r: (u32, u32))
    requires
        k < 3,
    ensures
        r == face_edge(f, k as int),
{
    if k == 0 {
        min_max(f[0], f[1])
    } else if k == 1 {
        min_max(f[1], f[2])
    } else {
        min_max(f[0], f[2])
    }
}

/// The edge (a, b) as one 64-bit key.
pub open spec fn edge_code(e: (u32, u32)) -> u64 {
    (e.0 as u64 * 0x1_0000_0000 + e.1 as u64) as u64
}

pub proof fn lemma_edge_code_injective(e1: (u32, u32), e2: (u32, u32))
    ensures
        edge_code(e1) == edge_code(e2) ==> e1 == e2,
{
    let k = 0x1_0000_0000int;
    assert(0 <= e1.0 as int * k + e1.1 as int <= u64::MAX) by (nonlinear_arith)
        requires
            0 <= e1.0 < k,
            0 <= e1.1 < k,
            k == 0x1_0000_0000int,
    ;
    assert(0 <= e2.0 as int * k + e2.1 as int <= u64::MAX) by (nonlinear_arith)
        requires
            0 <= e2.0 < k,
            0 <= e2.1 < k,
            k == 0x1_0000_0000int,
    ;
    if edge_code(e1) == edge_code(e2) {
        let a = edge_code(e1) as int;
        assert(a == e1.0 as int * k + e1.1 as int);
        assert(a == e2.0 as int * k + e2.1 as int);
        lemma_fundamental_div_mod_converse(a, k, e1.0 as int, e1.1 as int);
        lemma_fundamental_div_mod_converse(a, k, e2.0 as int, e2.1 as int);
    }
}

fn edge_code_exec(e: (u32, u32)) -> (r: u64)
    ensures
        r == edge_code(e),
{
    assert(e.0 as int * 0x1_0000_0000 + e.1 as int <= u64::MAX) by (nonlinear_arith)
        requires
            e.0 <= u32::MAX,
            e.1 <= u32::MAX,
    ;
    e.0 as u64 * 0x1_0000_0000 + e.1 as u64
}

/// Edge counts of `faces` followed by the first `k` edges of face `f`.
pub open spec fn partial_edge_count(faces: Seq<[u32; 3]>, f: [u32; 3], k: int, e: (u32, u32)) -> nat {
    edge_count(faces, e) + (if k > 0 && face_edge(f, 0) == e { 1nat } else { 0nat }) + (if k > 1 && face_edge(
        f,
        1,
    ) == e { 1nat } else { 0nat }) + (if k > 2 && face_edge(f, 2) == e { 1nat } else { 0nat })
}

/// Naively checks manifold-ness: every edge (pair of vertex indices) should
/// appear at most twice across all faces.
pub fn check_manifold(faces: &[[u32; 3]], _vert_count: usize) -> (r: bool)
    ensures
        r == spec_is_manifold(faces@),
{
    broadcast use vstd::std_specs::hash::group_hash_axioms;
    let mut counts: HashMap<u64, u8> = HashMap::new();
    let mut i: usize = 0;
    while i < faces.len()
        invariant
            i <= faces@.len(),
            forall|e: (u32, u32)| #[trigger] edge_count(faces@.subrange(0, i as int), e) <= 2,
            forall|e: (u32, u32)|
                (#[trigger] counts@.contains_key(edge_code(e))) == (edge_count(faces@.subrange(0, i as int), e) > 0),
            forall|e: (u32, u32)|
                #[trigger] counts@.contains_key(edge_code(e)) ==> counts@[edge_code(e)] == edge_count(
                    faces@.subrange(0, i as int),
                    e,
                ),
        decreases faces@.len() - i,
    {
        let f = faces[i];
        let ghost pre = faces@.subrange(0, i as int);
        let mut k: usize = 0;
        while k < 3
            invariant
                i < faces@.len(),
                f == faces@[i as int],
                pre == faces@.subrange(0, i as int),
                k <= 3,
                forall|e: (u32, u32)| #[trigger] partial_edge_count(pre, f, k as int, e) <= 2,
                forall|e: (u32, u32)|
                    (#[trigger] counts@.contains_key(edge_code(e))) == (partial_edge_count(pre, f, k as int, e) > 0),
                forall|e: (u32, u32)|
                    #[trigger] counts@.contains_key(edge_code(e)) ==> counts@[edge_code(e)] == partial_edge_count(
                        pre,
                        f,
                        k as int,
                        e,
                    ),
            decreases 3 - k,
        {
            let e = face_edge_exec(f, k);
            let code = edge_code_exec(e);
            let ghost before = counts@;
            let c: u8 = match counts.get(&code) {
                Some(c) => *c,
                None => 0,
            };
            assert(c as nat == partial_edge_count(pre, f, k as int, e));
            if c == 2 {
                proof {
                    assert(partial_edge_count(pre, f, k as int + 1, e) == 3);
                    let post = faces@.subrange(0, i as int + 1);
                    assert(post.drop_last() =~= pre);
                    assert(edge_count(post, e) >= partial_edge_count(pre, f, k as int + 1, e));
                    crate::mesh_boolean_ops::lemma_edge_count_prefix(faces@, i as int + 1, e);
                    assert(edge_count(faces@, face_edge(faces@[i as int], k as int)) > 2);
                }
                return false;
            }
            counts.insert(code, c + 1);
            proof {
                assert forall|e2: (u32, u32)|
                    (#[trigger] counts@.contains_key(edge_code(e2))) == (partial_edge_count(pre, f, k as int + 1, e2)
                        > 0) && (counts@.contains_key(edge_code(e2)) ==> counts@[edge_code(e2)]
                        == partial_edge_count(pre, f, k as int + 1, e2)) by {
                    lemma_edge_code_injective(e, e2);
                }
                assert forall|e2: (u32, u32)| #[trigger] partial_edge_count(pre, f, k as int + 1, e2) <= 2 by {
                    lemma_edge_code_injective(e, e2);
                    if e2 != e {
                        assert(partial_edge_count(pre, f, k as int + 1, e2) == partial_edge_count(pre, f, k as int, e2));
                    }
                }
            }
            k += 1;
        }
        proof {
            let post = faces@.subrange(0, i as int + 1);
            assert(post.drop_last() =~= pre);
            assert(post.last() == f);
            assert forall|e: (u32, u32)| #[trigger] edge_count(post, e) == partial_edge_count(pre, f, 3, e) by {}
        }
        i += 1;
    }
    proof {
        assert(faces@.subrange(0, faces@.len() as int) =~= faces@);
    }
    true
}

// ---------------------------------------------------------------------------
// Face selection with vertex compaction
// ---------------------------------------------------------------------------

/// The corners of the faces, face after face.
pub open spec fn spec_corners(faces: Seq<[u32; 3]>) -> Seq<u32>
    decreases faces.len(),
{
    if faces.len() == 0 {
        Seq::empty()
    } else {
        let f = faces.last();
        spec_corners(faces.drop_last()) + seq![f[0], f[1], f[2]]
    }
}

/// The values of `s` in order of first occurrence, each once.
pub open spec fn spec_dedup(s: Seq<u32>) -> Seq<u32>
    decreases s.len(),
{
    if s.len() == 0 {
        Seq::empty()
    } else {
        let d = spec_dedup(s.drop_last());
        if d.contains(s.last()) { d } else { d.push(s.last()) }
    }
}

/// `faces` renumbered against `src`: each corner is the position in `src`
/// of the original index.
pub open spec fn renumbered(faces: Seq<[u32; 3]>, new_faces: Seq<[u32; 3]>, src: Seq<u32>) -> bool {
    &&& new_faces.len() == faces.len()
    &&& forall|i: int, k: int|
        0 <= i < faces.len() && 0 <= k < 3 ==> #[trigger] new_faces[i][k] < src.len()
            && src[new_faces[i][k] as int] == faces[i][k]
}

/// The de-duplicated sequence has no repeated value and holds exactly the
/// values of the input.
pub proof fn lemma_dedup_props(s: Seq<u32>)
    ensures
        spec_dedup(s).no_duplicates(),
        forall|x: u32| spec_dedup(s).contains(x) <==> s.contains(x),
    decreases s.len(),
{
    if s.len() > 0 {
        lemma_dedup_props(s.drop_last());
        let p = s.drop_last();
        let d = spec_dedup(p);
        assert forall|x: u32| s.contains(x) <==> (p.contains(x) || x == s.last()) by {
            if s.contains(x) {
                let j = choose|j: int| 0 <= j < s.len() && s[j] == x;
                if j < s.len() - 1 {
                    assert(p[j] == x);
                }
            }
            if p.contains(x) {
                let j = choose|j: int| 0 <= j < p.len() && p[j] == x;
                assert(s[j] == x);
            }
            if x == s.last() {
                assert(s[s.len() - 1] == x);
            }
        }
        if !d.contains(s.last()) {
            let e = d.push(s.last());
            assert forall|x: u32| e.contains(x) <==> (d.contains(x) || x == s.last()) by {
                if e.contains(x) {
                    let j = choose|j: int| 0 <= j < e.len() && e[j] == x;
                    if j < d.len() {
                        assert(d[j] == x);
                    }
                }
                if d.contains(x) {
                    let j = choose|j: int| 0 <= j < d.len() && d[j] == x;
                    assert(e[j] == x);
                }
                if x == s.last() {
                    assert(e[d.len() as int] == x);
                }
            }
            assert forall|a: int, b: int| 0 <= a < e.len() && 0 <= b < e.len() && a != b implies e[a] != e[b] by {
                if a == d.len() {
                    assert(d[b] == e[b]);
                    assert(d.contains(e[b]));
                } else if b == d.len() {
                    assert(d[a] == e[a]);
                    assert(d.contains(e[a]));
                }
            }
        }
    }
}

/// A repetition-free sequence of values below `n` that misses some value
/// below `n` is shorter than `n`.
pub proof fn lemma_distinct_below(s: Seq<u32>, n: int, missing: u32)
    requires
        s.no_duplicates(),
        forall|i: int| 0 <= i < s.len() ==> s[i] < n,
        missing < n,
        !s.contains(missing),
    ensures
        s.len() < n,
{
    let t = s.map_values(|x: u32| x as int);
    assert(t.no_duplicates()) by {
        assert forall|i: int, j: int| 0 <= i < t.len() && 0 <= j < t.len() && i != j implies t[i] != t[j] by {
            assert(s[i] != s[j]);
        }
    }
    t.unique_seq_to_set();
    lemma_int_range(0, n);
    let r = set_int_range(0, n).remove(missing as int);
    assert(t.to_set().subset_of(r)) by {
        assert forall|x: int| t.to_set().contains(x) implies r.contains(x) by {
            let j = choose|j: int| 0 <= j < t.len() && t[j] == x;
            assert(s[j] < n);
            if x == missing as int {
                assert(s[j] == missing);
                assert(s.contains(missing));
            }
        }
    }
    lemma_len_subset(t.to_set(), r);
}

/// Append `v` to `src` unless it is already there, and give its position.
fn intern_vertex(used: &mut Vec<u32>, src: &mut Vec<u32>, v: u32) -> (idx: u32)
    requires
        old(used)@.len() <= u32::MAX,
        v < old(used)@.len(),
        old(src)@.no_duplicates(),
        forall|j: int| 0 <= j < old(src)@.len() ==> #[trigger] old(src)@[j] < old(used)@.len(),
        forall|w: int|
            0 <= w < old(used)@.len() ==> (#[trigger] old(used)@[w] == u32::MAX <==> !old(src)@.contains(w as u32)),
        forall|w: int|
            0 <= w < old(used)@.len() && #[trigger] old(used)@[w] != u32::MAX ==> old(used)@[w] < old(src)@.len()
                && old(src)@[old(used)@[w] as int] == w,
    ensures
        final(used)@.len() == old(used)@.len(),
        final(src)@ == (if old(src)@.contains(v) { old(src)@ } else { old(src)@.push(v) }),
        final(src)@.no_duplicates(),
        forall|j: int| 0 <= j < final(src)@.len() ==> #[trigger] final(src)@[j] < final(used)@.len(),
        forall|w: int|
            0 <= w < final(used)@.len() ==> (#[trigger] final(used)@[w] == u32::MAX <==> !final(src)@.contains(
                w as u32,
            )),
        forall|w: int|
            0 <= w < final(used)@.len() && #[trigger] final(used)@[w] != u32::MAX ==> final(used)@[w]
                < final(src)@.len() && final(src)@[final(used)@[w] as int] == w,
        idx < final(src)@.len(),
        final(src)@[idx as int] == v,
{
    let vi = v as usize;
    if used[vi] == u32::MAX {
        proof {
            assert(!src@.contains(v));
            lemma_distinct_below(src@, used@.len() as int, v);
        }
        let n = src.len() as u32;
        used[vi] = n;
        src.push(v);
        proof {
            assert forall|w: int|
                0 <= w < used@.len() implies (#[trigger] used@[w] == u32::MAX <==> !src@.contains(w as u32)) by {
                if w == vi as int {
                    assert(src@[src@.len() - 1] == v);
                } else {
                    if src@.contains(w as u32) {
                        let j = choose|j: int| 0 <= j < src@.len() && src@[j] == w as u32;
                        if j < src@.len() - 1 {
                            assert(old(src)@[j] == w as u32);
                        }
                    }
                    if old(src)@.contains(w as u32) {
                        let j = choose|j: int| 0 <= j < old(src)@.len() && old(src)@[j] == w as u32;
                        assert(src@[j] == w as u32);
                    }
                }
            }
            assert(src@.no_duplicates()) by {
                assert forall|a: int, b: int| 0 <= a < src@.len() && 0 <= b < src@.len() && a != b implies src@[a]
                    != src@[b] by {
                    if a == src@.len() - 1 {
                        assert(old(src)@[b] == src@[b]);
                    } else if b == src@.len() - 1 {
                        assert(old(src)@[a] == src@[a]);
                    }
                }
            }
        }
        n
    } else {
        let n = used[vi];
        proof {
            assert(src@[n as int] == v);
        }
        n
    }
}

/// Which faces of A survive an operation, given for each face of A whether
/// its centroid lies inside B.
pub open spec fn spec_keep_mask(op: BooleanOpType, inside_b: Seq<bool>) -> Seq<bool> {
    inside_b.map_values(|b: bool| if op == BooleanOpType::Intersect { b } else { !b })
}

/// The faces of A that survive the operation, in order.
pub open spec fn spec_kept_faces(op: BooleanOpType, faces_a: Seq<[u32; 3]>, inside_b: Seq<bool>) -> Seq<[u32; 3]> {
    spec_masked(faces_a, spec_keep_mask(op, inside_b))
}

/// The vertices of A that the result uses, as indices into A, in order of
/// first use.
pub open spec fn spec_a_sources(op: BooleanOpType, faces_a: Seq<[u32; 3]>, inside_b: Seq<bool>) -> Seq<u32> {
    spec_dedup(spec_corners(spec_kept_faces(op, faces_a, inside_b)))
}

/// Faces and vertex sources of a boolean operation's result. The result's
/// vertices are A's vertices listed in `a_sources`, followed, for a union,
/// by all of B's vertices.
#[derive(Debug, Clone)]
pub struct BooleanTopology {
    /// Indices into A's vertex list, in output order.
    pub a_sources: Vec<u32>,
    /// Output triangles, indexing the output vertex list.
    pub faces: Vec<[u32; 3]>,
    /// Whether every edge is used by at most two faces.
    pub is_manifold: bool,
}

/// Selects the faces of A flagged in `keep`, renumbering their corners
/// against the list of A's vertices they use (in order of first use).
pub fn select_faces_compact(vert_count: usize, faces: &[[u32; 3]], keep: &[bool]) -> (r: (Vec<u32>, Vec<[u32; 3]>))
    requires
        vert_count <= u32::MAX,
        keep@.len() == faces@.len(),
        forall|i: int| 0 <= i < faces@.len() ==> #[trigger] faces@[i][0] < vert_count && faces@[i][1] < vert_count
            && faces@[i][2] < vert_count,
    ensures
        r.0@ == spec_dedup(spec_corners(spec_masked(faces@, keep@))),
        renumbered(spec_masked(faces@, keep@), r.1@, r.0@),
        forall|j: int| 0 <= j < r.0@.len() ==> #[trigger] r.0@[j] < vert_count,
{
    let mut used: Vec<u32> = Vec::new();
    let mut z: usize = 0;
    while z < vert_count
        invariant
            z <= vert_count,
            used@.len() == z,
            forall|w: int| 0 <= w < z ==> #[trigger] used@[w] == u32::MAX,
        decreases vert_count - z,
    {
        used.push(u32::MAX);
        z += 1;
    }
    let mut src: Vec<u32> = Vec::new();
    let mut out: Vec<[u32; 3]> = Vec::new();
    let mut i: usize = 0;
    while i < faces.len()
        invariant
            vert_count <= u32::MAX,
            keep@.len() == faces@.len(),
            forall|i2: int| 0 <= i2 < faces@.len() ==> #[trigger] faces@[i2][0] < vert_count && faces@[i2][1]
                < vert_count && faces@[i2][2] < vert_count,
            i <= faces@.len(),
            used@.len() == vert_count,
            src@ == spec_dedup(spec_corners(spec_masked(faces@.subrange(0, i as int), keep@.subrange(0, i as int)))),
            src@.no_duplicates(),
            forall|j: int| 0 <= j < src@.len() ==> #[trigger] src@[j] < used@.len(),
            forall|w: int| 0 <= w < used@.len() ==> (#[trigger] used@[w] == u32::MAX <==> !src@.contains(w as u32)),
            forall|w: int|
                0 <= w < used@.len() && #[trigger] used@[w] != u32::MAX ==> used@[w] < src@.len() && src@[used@[w] as int]
                    == w,
            renumbered(spec_masked(faces@.subrange(0, i as int), keep@.subrange(0, i as int)), out@, src@),
        decreases faces@.len() - i,
    {
        let ghost fs = faces@.subrange(0, i as int);
        let ghost ks = keep@.subrange(0, i as int);
        let ghost fs1 = faces@.subrange(0, i as int + 1);
        let ghost ks1 = keep@.subrange(0, i as int + 1);
        proof {
            assert(fs1.drop_last() =~= fs);
            assert(ks1.drop_last() =~= ks);
            assert(fs1.last() == faces@[i as int]);
            assert(ks1.last() == keep@[i as int]);
        }
        let f = faces[i];
        if keep[i] {
            let ghost s0 = src@;
            let ghost c0 = spec_corners(spec_masked(fs, ks));
            let a = intern_vertex(&mut used, &mut src, f[0]);
            let ghost s1 = src@;
            let b = intern_vertex(&mut used, &mut src, f[1]);
            let ghost s2 = src@;
            let c = intern_vertex(&mut used, &mut src, f[2]);
            proof {
                let m1 = spec_masked(fs1, ks1);
                assert(m1 == spec_masked(fs, ks).push(f));
                assert(m1.drop_last() == spec_masked(fs, ks));
                assert(spec_corners(m1) == c0 + seq![f[0], f[1], f[2]]);
                let cs1 = c0.push(f[0]);
                let cs2 = cs1.push(f[1]);
                let cs3 = cs2.push(f[2]);
                assert(cs3 =~= c0 + seq![f[0], f[1], f[2]]);
                assert(cs1.drop_last() =~= c0);
                assert(cs2.drop_last() =~= cs1);
                assert(cs3.drop_last() =~= cs2);
                assert(s1 == spec_dedup(cs1));
                assert(s2 == spec_dedup(cs2));
                assert(src@ == spec_dedup(cs3));
                // earlier renumbered faces still point at the same values
                assert(src@.subrange(0, s0.len() as int) == s0);
                assert(src@[a as int] == f[0]);
                assert(src@[b as int] == f[1]);
            }
            out.push([a, b, c]);
            proof {
                let m1 = spec_masked(fs1, ks1);
                assert forall|i2: int, k: int| 0 <= i2 < m1.len() && 0 <= k < 3 implies #[trigger] out@[i2][k]
                    < src@.len() && src@[out@[i2][k] as int] == m1[i2][k] by {
                }
            }
        } else {
            proof {
                assert(spec_masked(fs1, ks1) == spec_masked(fs, ks));
            }
        }
        i += 1;
    }
    proof {
        assert(faces@.subrange(0, faces@.len() as int) =~= faces@);
        assert(keep@.subrange(0, keep@.len() as int) =~= keep@);
    }
    (src, out)
}

fn keep_mask(op: BooleanOpType, inside_b: &[bool]) -> (r: Vec<bool>)
    ensures
        r@ == spec_keep_mask(op, inside_b@),
{
    let mut out: Vec<bool> = Vec::new();
    let mut i: usize = 0;
    while i < inside_b.len()
        invariant
            i <= inside_b@.len(),
            out@ == spec_keep_mask(op, inside_b@.subrange(0, i as int)),
        decreases inside_b@.len() - i,
    {
        let b = inside_b[i];
        let k = match op {
            BooleanOpType::Intersect => b,
            _ => !b,
        };
        out.push(k);
        assert(spec_keep_mask(op, inside_b@.subrange(0, i as int + 1)) =~= spec_keep_mask(
            op,
            inside_b@.subrange(0, i as int),
        ).push(k));
        i += 1;
    }
    assert(inside_b@.subrange(0, inside_b@.len() as int) =~= inside_b@);
    out
}

/// Assembles the result of a boolean operation from mesh A (with
/// `a_vert_count` vertices and triangles `faces_a`) and mesh B (triangles
/// `faces_b`); `inside_b[i]` tells whether face `i` of A lies inside B.
///
/// - Union: the faces of A outside B, then all faces of B.
/// - Intersect: the faces of A inside B.
/// - Subtract: the faces of A outside B.
pub fn boolean_op_topology(
    a_vert_count: usize,
    faces_a: &[[u32; 3]],
    inside_b: &[bool],
    faces_b: &[[u32; 3]],
    op: BooleanOpType,
) -> (r: BooleanTopology)
    requires
        a_vert_count <= u32::MAX,
        inside_b@.len() == faces_a@.len(),
        forall|i: int| 0 <= i < faces_a@.len() ==> #[trigger] faces_a@[i][0] < a_vert_count && faces_a@[i][1]
            < a_vert_count && faces_a@[i][2] < a_vert_count,
        op == BooleanOpType::Union ==> forall|i: int|
            0 <= i < faces_b@.len() ==> #[trigger] offset_fits(
                faces_b@[i],
                spec_a_sources(op, faces_a@, inside_b@).len() as u32,
            ),
    ensures
        r.a_sources@ == spec_a_sources(op, faces_a@, inside_b@),
        ({
            let kept = spec_kept_faces(op, faces_a@, inside_b@);
            &&& r.faces@.len() == kept.len() + if op == BooleanOpType::Union { faces_b@.len() } else { 0 }
            &&& renumbered(kept, r.faces@.subrange(0, kept.len() as int), r.a_sources@)
            &&& op == BooleanOpType::Union ==> r.faces@.subrange(kept.len() as int, r.faces@.len() as int)
                == faces_b@.map_values(|t: [u32; 3]| spec_offset_tri(t, r.a_sources@.len() as u32))
        }),
        forall|j: int| 0 <= j < r.a_sources@.len() ==> #[trigger] r.a_sources@[j] < a_vert_count,
        r.is_manifold == spec_is_manifold(r.faces@),
{
    let keep = keep_mask(op, inside_b);
    let (src, sel) = select_faces_compact(a_vert_count, faces_a, &keep);
    let ghost kept = spec_kept_faces(op, faces_a@, inside_b@);
    assert(src@ == spec_a_sources(op, faces_a@, inside_b@));
    let faces = match op {
        BooleanOpType::Union => {
            let u = union_triangles(src.len(), &sel, faces_b);
            proof {
                let ofs = src@.len() as u32;
                assert(u@ == sel@ + faces_b@.map_values(|t: [u32; 3]| spec_offset_tri(t, ofs)));
                assert(u@.subrange(0, kept.len() as int) =~= sel@);
                assert(u@.subrange(kept.len() as int, u@.len() as int) =~= faces_b@.map_values(
                    |t: [u32; 3]| spec_offset_tri(t, ofs),
                ));
            }
            u
        },
        _ => {
            proof {
                assert(sel@.subrange(0, kept.len() as int) =~= sel@);
            }
            sel
        },
    };
    let is_manifold = check_manifold(&faces, src.len());
    BooleanTopology { a_sources: src, faces, is_manifold }
}


/// Masking with a mask and with its negation splits the triangles: the two
/// results' lengths add up to the number of triangles.
pub proof fn lemma_masked_partition(tris: Seq<[u32; 3]>, mask: Seq<bool>)
    requires
        tris.len() == mask.len(),
    ensures
        spec_masked(tris, mask).len() + spec_masked(tris, mask.map_values(|b: bool| !b)).len() == tris.len(),
    decreases tris.len(),
{
    let neg = mask.map_values(|b: bool| !b);
    if tris.len() > 0 {
        assert(neg.drop_last() =~= mask.drop_last().map_values(|b: bool| !b));
        lemma_masked_partition(tris.drop_last(), mask.drop_last());
    }
}

/// Subtracting or intersecting never adds faces, the two together account
/// for every face of A exactly once, a union keeps every face of B, and an
/// intersection with no face of A inside B is empty.
pub proof fn lemma_boolean_face_counts(faces_a: Seq<[u32; 3]>, inside_b: Seq<bool>)
    requires
        inside_b.len() == faces_a.len(),
    ensures
        spec_kept_faces(BooleanOpType::Subtract, faces_a, inside_b).len() <= faces_a.len(),
        spec_kept_faces(BooleanOpType::Intersect, faces_a, inside_b).len() <= faces_a.len(),
        spec_kept_faces(BooleanOpType::Subtract, faces_a, inside_b)
            == spec_kept_faces(BooleanOpType::Union, faces_a, inside_b),
        spec_kept_faces(BooleanOpType::Subtract, faces_a, inside_b).len() + spec_kept_faces(
            BooleanOpType::Intersect,
            faces_a,
            inside_b,
        ).len() == faces_a.len(),
        (forall|i: int| 0 <= i < inside_b.len() ==> !inside_b[i]) ==> spec_kept_faces(
            BooleanOpType::Intersect,
            faces_a,
            inside_b,
        ).len() == 0,
{
    let mi = spec_keep_mask(BooleanOpType::Intersect, inside_b);
    let ms = spec_keep_mask(BooleanOpType::Subtract, inside_b);
    assert(mi =~= inside_b);
    assert(ms =~= inside_b.map_values(|b: bool| !b));
    assert(spec_keep_mask(BooleanOpType::Union, inside_b) =~= ms);
    crate::mesh_boolean_difference::lemma_masked_bounds(faces_a, mi);
    crate::mesh_boolean_difference::lemma_masked_bounds(faces_a, ms);
    lemma_masked_partition(faces_a, inside_b);
    if forall|i: int| 0 <= i < inside_b.len() ==> !inside_b[i] {
        lemma_masked_none(faces_a, inside_b);
    }
}

/// An all-false mask keeps nothing.
pub proof fn lemma_masked_none(tris: Seq<[u32; 3]>, mask: Seq<bool>)
    requires
        tris.len() == mask.len(),
        forall|i: int| 0 <= i < mask.len() ==> !mask[i],
    ensures
        spec_masked(tris, mask).len() == 0,
    decreases tris.len(),
{
    if tris.len() > 0 {
        assert(!mask[mask.len() - 1]);
        lemma_masked_none(tris.drop_last(), mask.drop_last());
    }
}

} // verus!
