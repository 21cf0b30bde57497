//! Spin (lathe) duplication: the index topology of a profile swept around an
//! axis in a number of steps.

use vstd::prelude::*;
use crate::text::{push_decimal, spec_decimal};

verus! {

/// The six indices of quad `q` (two triangles) in a flat index list.
pub open spec fn quad_at(indices: Seq<u32>, q: int) -> Seq<u32> {
    indices.subrange(6 * q, 6 * q + 6)
}

/// The two triangles joining profile point `i` of ring `s` to the next
/// point and to the next ring, for a profile of `n` points.
pub open spec fn spin_quad(s: int, i: int, n: int) -> Seq<u32> {
    let ni = (i + 1) % n;
    let base = s * n;
    let next = (s + 1) * n;
    seq![
        (base + i) as u32,
        (base + ni) as u32,
        (next + i) as u32,
        (base + ni) as u32,
        (next + ni) as u32,
        (next + i) as u32,
    ]
}

/// `indices` joins `n_steps + 1` rings of `n_profile` points with two
/// triangles per profile point and step, ring after ring.
pub open spec fn is_spin_topology(indices: Seq<u32>, n_profile: int, n_steps: int) -> bool {
    if n_profile == 0 || n_steps == 0 {
        indices.len() == 0
    } else {
        &&& indices.len() == 6 * (n_steps * n_profile)
        &&& forall|s: int, i: int|
            0 <= s < n_steps && 0 <= i < n_profile ==> #[trigger] quad_at(indices, s * n_profile + i) == spin_quad(
                s,
                i,
                n_profile,
            )
    }
}

/// The triangle indices (three per triangle) of a profile of `n_profile`
/// points spun in `n_steps` steps; the positions are ring after ring,
/// `n_steps + 1` rings of `n_profile` points each.
pub fn spin_profile_indices(n_profile: usize, n_steps: usize) -> (r: Vec<u32>)
    requires
        (n_steps + 1) * n_profile <= u32::MAX,
    ensures
        is_spin_topology(r@, n_profile as int, n_steps as int),
{
    let mut indices: Vec<u32> = Vec::new();
    if n_profile == 0 || n_steps == 0 {
        return indices;
    }
    let n = n_profile;
    let mut s: usize = 0;
    while s < n_steps
        invariant
            0 < n,
            n == n_profile,
            (n_steps + 1) * n <= u32::MAX,
            s <= n_steps,
            indices@.len() == 6 * (s * n),
            forall|s2: int, i2: int|
                0 <= s2 < s && 0 <= i2 < n ==> #[trigger] quad_at(indices@, s2 * n + i2) == spin_quad(s2, i2, n as int),
        decreases n_steps - s,
    {
        proof {
            assert((s + 2) * n <= (n_steps + 1) * n) by (nonlinear_arith)
                requires
                    s + 2 <= n_steps + 1,
                    0 < n,
            ;
            assert((s + 1) * n == s * n + n) by (nonlinear_arith);
            assert((s + 2) * n == s * n + 2 * n) by (nonlinear_arith);
        }
        let base = (s * n) as u32;
        let base_next = ((s + 1) * n) as u32;
        let mut i: usize = 0;
        while i < n
            invariant
                0 < n,
                n == n_profile,
                s < n_steps,
                (s + 2) * n <= u32::MAX,
                (s + 1) * n == s * n + n,
                (s + 2) * n == s * n + 2 * n,
                base == s * n,
                base_next == (s + 1) * n,
                i <= n,
                indices@.len() == 6 * (s * n + i),
                forall|s2: int, i2: int|
                    0 <= s2 < s && 0 <= i2 < n ==> #[trigger] quad_at(indices@, s2 * n + i2) == spin_quad(
                        s2,
                        i2,
                        n as int,
                    ),
                forall|i2: int| 0 <= i2 < i ==> #[trigger] quad_at(indices@, s * n + i2) == spin_quad(s as int, i2, n as int),
            decreases n - i,
        {
            let next_i = (i + 1) % n;
            let ghost before = indices@;
            let a = base + i as u32;
            let b = base + next_i as u32;
            let c = base_next + i as u32;
            let d = base_next + next_i as u32;
            indices.push(a);
            indices.push(b);
            indices.push(c);
            indices.push(b);
            indices.push(d);
            indices.push(c);
            proof {
                let q = s * n + i;
                assert(quad_at(indices@, q as int) =~= spin_quad(s as int, i as int, n as int));
                assert forall|s2: int, i2: int|
                    0 <= s2 < s && 0 <= i2 < n implies #[trigger] quad_at(indices@, s2 * n + i2) == spin_quad(
                        s2,
                        i2,
                        n as int,
                    ) by {
                    assert(s2 * n + i2 < s * n) by (nonlinear_arith)
                        requires
                            0 <= s2 < s,
                            0 <= i2 < n,
                    ;
                    assert(quad_at(indices@, s2 * n + i2) =~= quad_at(before, s2 * n + i2));
                }
                assert forall|i2: int| 0 <= i2 < i + 1 implies #[trigger] quad_at(indices@, s * n + i2) == spin_quad(
                    s as int,
                    i2,
                    n as int,
                ) by {
                    if i2 < i {
                        assert(quad_at(indices@, s * n + i2) =~= quad_at(before, s * n + i2));
                    }
                }
            }
            i += 1;
        }
        proof {
            assert((s + 1) * n == s * n + n) by (nonlinear_arith);
            assert forall|s2: int, i2: int|
                0 <= s2 < s + 1 && 0 <= i2 < n implies #[trigger] quad_at(indices@, s2 * n + i2) == spin_quad(
                    s2,
                    i2,
                    n as int,
                ) by {
                if s2 == s {
                    assert(quad_at(indices@, s * n + i2) == spin_quad(s as int, i2, n as int));
                }
            }
        }
        s += 1;
    }
    indices
}

/// Every index of a spin topology addresses one of the
/// `(n_steps + 1) * n_profile` swept positions.
pub proof fn lemma_spin_indices_in_range(indices: Seq<u32>, n_profile: int, n_steps: int)
    requires
        0 <= n_profile,
        0 <= n_steps,
        (n_steps + 1) * n_profile <= u32::MAX,
        is_spin_topology(indices, n_profile, n_steps),
    ensures
        forall|j: int| 0 <= j < indices.len() ==> #[trigger] indices[j] < (n_steps + 1) * n_profile,
{
    if n_profile > 0 && n_steps > 0 {
        let n = n_profile;
        assert forall|j: int| 0 <= j < indices.len() implies #[trigger] indices[j] < (n_steps + 1) * n_profile by {
            let q = j / 6;
            let k = j % 6;
            let s = q / n;
            let i = q % n;
            assert(0 <= q < n_steps * n);
            assert(q == s * n + i) by (nonlinear_arith)
                requires
                    s == q / n,
                    i == q % n,
                    0 < n,
            ;
            assert(0 <= s < n_steps) by (nonlinear_arith)
                requires
                    s == q / n,
                    0 <= q < n_steps * n,
                    0 < n,
            ;
            assert(0 <= i < n);
            assert(quad_at(indices, s * n + i) == spin_quad(s, i, n));
            assert(indices[j] == quad_at(indices, q)[k]);
            let ni = (i + 1) % n;
            assert((s + 1) * n + i < (n_steps + 1) * n && (s + 1) * n + ni < (n_steps + 1) * n) by (nonlinear_arith)
                requires
                    0 <= s < n_steps,
                    0 <= i < n,
                    0 <= ni < n,
            ;
            assert(s * n + i < (s + 1) * n + i && s * n + ni < (s + 1) * n + ni) by (nonlinear_arith)
                requires
                    0 < n,
            ;
            assert(0 <= s * n) by (nonlinear_arith)
                requires
                    0 <= s,
                    0 < n,
            ;
        }
    }
}

/// Each quad of a spin joins profile point `i` to the next profile point
/// (`i + 1`, or point 0 after the last) on ring `s` and on ring `s + 1`:
/// with `a`, `b` those points on ring `s` and `c`, `d` on ring `s + 1`, its
/// triangles are `[a, b, c]` and `[b, d, c]`. So the quads of a ring cover
/// each pair of consecutive profile points once, and with two or more
/// profile points each quad uses four distinct positions.
pub proof fn lemma_spin_quads_join_neighbours(indices: Seq<u32>, n_profile: int, n_steps: int)
    requires
        0 < n_profile,
        0 < n_steps,
        (n_steps + 1) * n_profile <= u32::MAX,
        is_spin_topology(indices, n_profile, n_steps),
    ensures
        indices.len() == 6 * n_steps * n_profile,
        forall|s: int, i: int|
            #![trigger indices[6 * (s * n_profile + i)]]
            0 <= s < n_steps && 0 <= i < n_profile ==> {
                let n = n_profile;
                let next = if i + 1 < n { i + 1 } else { 0 };
                let a = s * n + i;
                let b = s * n + next;
                let c = (s + 1) * n + i;
                let d = (s + 1) * n + next;
                let q = 6 * (s * n + i);
                &&& indices[q] == a && indices[q + 1] == b && indices[q + 2] == c
                &&& indices[q + 3] == b && indices[q + 4] == d && indices[q + 5] == c
                &&& n >= 2 ==> a != b && a != c && a != d && b != c && b != d && c != d
            },
{
    let n = n_profile;
    assert(6 * (n_steps * n) == 6 * n_steps * n) by (nonlinear_arith);
    assert forall|s: int, i: int| 0 <= s < n_steps && 0 <= i < n_profile implies {
        let next = if i + 1 < n { i + 1 } else { 0 };
        let a = s * n + i;
        let b = s * n + next;
        let c = (s + 1) * n + i;
        let d = (s + 1) * n + next;
        let q = 6 * (s * n + i);
        &&& #[trigger] indices[6 * (s * n_profile + i)] == a && indices[q + 1] == b && indices[q + 2] == c
        &&& indices[q + 3] == b && indices[q + 4] == d && indices[q + 5] == c
        &&& n >= 2 ==> a != b && a != c && a != d && b != c && b != d && c != d
    } by {
        let next = if i + 1 < n { i + 1 } else { 0 };
        assert((i + 1) % n == next) by {
            if i + 1 < n {
                vstd::arithmetic::div_mod::lemma_small_mod((i + 1) as nat, n as nat);
            } else {
                vstd::arithmetic::div_mod::lemma_mod_self_0(n);
            }
        }
        let q = 6 * (s * n + i);
        assert(0 <= s * n + i < n_steps * n) by (nonlinear_arith)
            requires
                0 <= s < n_steps,
                0 <= i < n,
        ;
        assert((s + 1) * n == s * n + n) by (nonlinear_arith);
        assert((s + 1) * n + next < (n_steps + 1) * n) by (nonlinear_arith)
            requires
                0 <= s < n_steps,
                0 <= next < n,
        ;
        assert(0 <= s * n) by (nonlinear_arith)
            requires
                0 <= s,
                0 < n,
        ;
        let qa = quad_at(indices, s * n + i);
        assert(qa == spin_quad(s, i, n));
        assert(q + 6 <= indices.len()) by (nonlinear_arith)
            requires
                q == 6 * (s * n + i),
                0 <= s * n + i < n_steps * n,
                indices.len() == 6 * (n_steps * n),
        ;
        assert(indices[q] == qa[0] && indices[q + 1] == qa[1] && indices[q + 2] == qa[2]);
        assert(indices[q + 3] == qa[3] && indices[q + 4] == qa[4] && indices[q + 5] == qa[5]);
        let a = s * n + i;
        let b = s * n + next;
        let c = (s + 1) * n + i;
        let d = (s + 1) * n + next;
        assert((s + 1) * n + i < (n_steps + 1) * n) by (nonlinear_arith)
            requires
                0 <= s < n_steps,
                0 <= i < n,
        ;
        assert(0 <= a && a <= u32::MAX && 0 <= b && b <= u32::MAX && 0 <= c && c <= u32::MAX && 0 <= d && d
            <= u32::MAX);
        assert(qa[0] == a as u32 && qa[1] == b as u32 && qa[2] == c as u32);
        assert(qa[4] == d as u32);
        assert(indices[6 * (s * n_profile + i)] == a);
        if n >= 2 {
            assert(next != i);
        }
    }
}

/// The result of a spin: swept positions (of point type `P`), triangle
/// indices three per triangle, and the number of steps.
#[derive(Debug, Clone)]
pub struct SpinResult<P> {
    pub positions: Vec<P>,
    pub indices: Vec<u32>,
    pub step_count: usize,
}

/// Number of swept positions.
pub fn spin_vertex_count<P>(result: &SpinResult<P>) -> (n: usize)
    ensures
        n == result.positions@.len(),
{
    result.positions.len()
}

/// Number of triangles (whole index triples).
pub fn spin_face_count<P>(result: &SpinResult<P>) -> (n: usize)
    ensures
        n == result.indices@.len() / 3,
{
    result.indices.len() / 3
}

/// The text of `spin_to_json`.
pub open spec fn spec_spin_json(vertex_count: nat, face_count: nat, step_count: nat) -> Seq<char> {
    "{\"vertex_count\":"@ + spec_decimal(vertex_count) + ",\"face_count\":"@ + spec_decimal(face_count)
        + ",\"step_count\":"@ + spec_decimal(step_count) + "}"@
}

/// Serializes the vertex, face and step counts.
pub fn spin_to_json<P>(result: &SpinResult<P>) -> (s: String)
    ensures
        s@ == spec_spin_json(result.positions@.len(), result.indices@.len() / 3, result.step_count as nat),
{
    let mut s = String::new();
    s.append("{\"vertex_count\":");
    push_decimal(&mut s, result.positions.len() as u64);
    s.append(",\"face_count\":");
    push_decimal(&mut s, spin_face_count(result) as u64);
    s.append(",\"step_count\":");
    push_decimal(&mut s, result.step_count as u64);
    s.append("}");
    s
}

} // verus!
