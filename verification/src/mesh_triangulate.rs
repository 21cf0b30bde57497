//! Polygon triangulation (fan; ear clipping is served by the fan).

use vstd::prelude::*;
use crate::text::{push_decimal, spec_decimal};

verus! {

#[derive(Debug, Clone, PartialEq)]
pub enum TriangulateMethod {
    Fan,
    EarClip,
}

#[derive(Debug, Clone)]
pub struct TriangulateConfig {
    pub method: TriangulateMethod,
}

#[derive(Debug, Clone)]
pub struct TriangulateResult {
    pub indices: Vec<u32>,
    pub triangle_count: usize,
}

/// The three indices of triangle `t` in a flat index list.
pub open spec fn tri_at(indices: Seq<u32>, t: int) -> [u32; 3] {
    [indices[3 * t], indices[3 * t + 1], indices[3 * t + 2]]
}

/// Triangle `t` of the fan of `polygon` around its first vertex.
pub open spec fn fan_tri(polygon: Seq<u32>, t: int) -> [u32; 3] {
    [polygon[0], polygon[t + 1], polygon[t + 2]]
}

/// `indices` is the fan triangulation of `polygon`: empty for fewer than
/// three corners, else one triangle (first corner, corner t+1, corner t+2)
/// per t below `polygon.len() - 2`.
pub open spec fn is_fan_of(indices: Seq<u32>, polygon: Seq<u32>) -> bool {
    if polygon.len() < 3 {
        indices.len() == 0
    } else {
        &&& indices.len() == 3 * (polygon.len() - 2)
        &&& forall|t: int| 0 <= t < polygon.len() - 2 ==> #[trigger] tri_at(indices, t) == fan_tri(polygon, t)
    }
}

/// Number of triangles in the fan of a polygon with `n` corners.
pub open spec fn fan_triangle_count(n: nat) -> nat {
    if n < 3 { 0 } else { (n - 2) as nat }
}

pub fn default_triangulate_config() -> (r: TriangulateConfig)
    ensures
        r.method == TriangulateMethod::Fan,
{
    TriangulateConfig { method: TriangulateMethod::Fan }
}

pub fn triangulate_polygon(polygon: &[u32], config: &TriangulateConfig) -> (r: TriangulateResult)
    ensures
        is_fan_of(r.indices@, polygon@),
        r.triangle_count == fan_triangle_count(polygon@.len()),
{
    match config.method {
        TriangulateMethod::Fan => triangulate_fan(polygon),
        TriangulateMethod::EarClip => triangulate_fan(polygon),
    }
}

pub fn triangulate_fan(polygon: &[u32]) -> (r: TriangulateResult)
    ensures
        is_fan_of(r.indices@, polygon@),
        r.triangle_count == fan_triangle_count(polygon@.len()),
        r.triangle_count == r.indices@.len() / 3,
{
    if polygon.len() < 3 {
        return TriangulateResult { indices: Vec::new(), triangle_count: 0 };
    }
    let mut indices: Vec<u32> = Vec::new();
    let pivot = polygon[0];
    let n = polygon.len();
    let mut i: usize = 1;
    while i < n - 1
        invariant
            n == polygon@.len(),
            n >= 3,
            1 <= i <= n - 1,
            pivot == polygon@[0],
            indices@.len() == 3 * (i - 1),
            forall|t: int| 0 <= t < i - 1 ==> #[trigger] tri_at(indices@, t) == fan_tri(polygon@, t),
        decreases n - 1 - i,
    {
        let ghost before = indices@;
        indices.push(pivot);
        indices.push(polygon[i]);
        indices.push(polygon[i + 1]);
        proof {
            assert forall|t: int| 0 <= t < i implies #[trigger] tri_at(indices@, t) == fan_tri(polygon@, t) by {
                if t < i - 1 {
                    assert(tri_at(indices@, t) == tri_at(before, t));
                } else {
                    assert(tri_at(indices@, t) =~= fan_tri(polygon@, t));
                }
            }
        }
        i += 1;
    }
    let triangle_count = indices.len() / 3;
    TriangulateResult { indices, triangle_count }
}

pub fn triangulate_triangle_count(result: &TriangulateResult) -> (r: usize)
    ensures
        r == result.triangle_count,
{
    result.triangle_count
}

pub fn triangulate_validate(polygon: &[u32]) -> (r: bool)
    ensures
        r == (polygon@.len() >= 3),
{
    polygon.len() >= 3
}

/// The text of `triangulate_to_json`.
pub open spec fn spec_triangulate_json(triangle_count: nat, index_count: nat) -> Seq<char> {
    "{\"triangle_count\":"@ + spec_decimal(triangle_count) + ",\"index_count\":"@ + spec_decimal(index_count)
        + "}"@
}

pub fn triangulate_to_json(result: &TriangulateResult) -> (r: String)
    ensures
        r@ == spec_triangulate_json(result.triangle_count as nat, result.indices@.len()),
{
    let mut s = String::new();
    s.append("{\"triangle_count\":");
    push_decimal(&mut s, result.triangle_count as u64);
    s.append(",\"index_count\":");
    push_decimal(&mut s, result.indices.len() as u64);
    s.append("}");
    s
}

/// A fan of a polygon with `n >= 3` corners holds `n - 2` triangles (none
/// below three corners), and every index it uses is a corner of the polygon.
pub proof fn lemma_fan_uses_polygon_corners(indices: Seq<u32>, polygon: Seq<u32>)
    requires
        is_fan_of(indices, polygon),
    ensures
        indices.len() == 3 * fan_triangle_count(polygon.len()),
        forall|j: int| 0 <= j < indices.len() ==> polygon.contains(#[trigger] indices[j]),
{
    if polygon.len() >= 3 {
        assert forall|j: int| 0 <= j < indices.len() implies polygon.contains(#[trigger] indices[j]) by {
            let t = j / 3;
            assert(0 <= t < polygon.len() - 2);
            assert(tri_at(indices, t) == fan_tri(polygon, t));
            if j % 3 == 0 {
                assert(indices[j] == polygon[0]);
            } else if j % 3 == 1 {
                assert(indices[j] == polygon[t + 1]);
            } else {
                assert(indices[j] == polygon[t + 2]);
            }
        }
    }
}

} // verus!
