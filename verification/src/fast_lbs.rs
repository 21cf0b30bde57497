//! Fast linear-blend-skinning bookkeeping: one skinning record per vertex
//! and a bone count. Generic in the record type.

use vstd::prelude::*;
use crate::text::{push_decimal, spec_decimal};

verus! {

/// Fast LBS mesh over records of type `R`.
#[derive(Debug, Clone)]
pub struct FastLbs<R> {
    pub records: Vec<R>,
    pub bone_count: usize,
}

/// Replaces the record of `vertex`; a vertex outside the mesh changes
/// nothing.
pub fn fast_lbs_set<R>(lbs: &mut FastLbs<R>, vertex: usize, record: R)
    ensures
        final(lbs).records@ == if vertex < old(lbs).records@.len() {
            old(lbs).records@.update(vertex as int, record)
        } else {
            old(lbs).records@
        },
        final(lbs).bone_count == old(lbs).bone_count,
{
    if vertex < lbs.records.len() {
        lbs.records.set(vertex, record);
    }
}

/// Number of vertices.
pub fn fast_lbs_vertex_count<R>(lbs: &FastLbs<R>) -> (n: usize)
    ensures
        n == lbs.records@.len(),
{
    lbs.records.len()
}

/// The text of `fast_lbs_to_json`.
pub open spec fn spec_lbs_json(vertices: nat, bones: nat) -> Seq<char> {
    "{\"vertices\":"@ + spec_decimal(vertices) + ",\"bones\":"@ + spec_decimal(bones) + "}"@
}

/// Serializes the vertex and bone counts.
pub fn fast_lbs_to_json<R>(lbs: &FastLbs<R>) -> (s: String)
    ensures
        s@ == spec_lbs_json(lbs.records@.len(), lbs.bone_count as nat),
{
    let mut s = String::new();
    s.append("{\"vertices\":");
    push_decimal(&mut s, lbs.records.len() as u64);
    s.append(",\"bones\":");
    push_decimal(&mut s, lbs.bone_count as u64);
    s.append("}");
    s
}

} // verus!
