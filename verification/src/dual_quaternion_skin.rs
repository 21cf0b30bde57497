//! Dual quaternion skinning bookkeeping: per-vertex bindings and per-bone
//! transforms. Generic in the binding type `V` and the transform type `Q`.

use vstd::prelude::*;
use crate::text::{push_decimal, spec_decimal};

verus! {

/// Dual quaternion skinning mesh.
#[derive(Debug, Clone)]
pub struct DualQuaternionSkin<V, Q> {
    pub vertices: Vec<V>,
    pub bone_dqs: Vec<Q>,
}

/// Replaces the binding of `vertex`; a vertex outside the mesh changes
/// nothing.
pub fn dqs_set_binding<V, Q>(dqs: &mut DualQuaternionSkin<V, Q>, vertex: usize, binding: V)
    ensures
        final(dqs).vertices@ == if vertex < old(dqs).vertices@.len() {
            old(dqs).vertices@.update(vertex as int, binding)
        } else {
            old(dqs).vertices@
        },
        final(dqs).bone_dqs@ == old(dqs).bone_dqs@,
{
    if vertex < dqs.vertices.len() {
        dqs.vertices.set(vertex, binding);
    }
}

/// Replaces the transform of `bone`; a bone outside the skeleton changes
/// nothing.
pub fn dqs_set_bone<V, Q>(dqs: &mut DualQuaternionSkin<V, Q>, bone: usize, dq: Q)
    ensures
        final(dqs).bone_dqs@ == if bone < old(dqs).bone_dqs@.len() {
            old(dqs).bone_dqs@.update(bone as int, dq)
        } else {
            old(dqs).bone_dqs@
        },
        final(dqs).vertices@ == old(dqs).vertices@,
{
    if bone < dqs.bone_dqs.len() {
        dqs.bone_dqs.set(bone, dq);
    }
}

/// Number of vertices.
pub fn dqs_vertex_count<V, Q>(dqs: &DualQuaternionSkin<V, Q>) -> (n: usize)
    ensures
        n == dqs.vertices@.len(),
{
    dqs.vertices.len()
}

/// Number of bones.
pub fn dqs_bone_count<V, Q>(dqs: &DualQuaternionSkin<V, Q>) -> (n: usize)
    ensures
        n == dqs.bone_dqs@.len(),
{
    dqs.bone_dqs.len()
}

/// The text of `dqs_to_json`.
pub open spec fn spec_dqs_json(vertices: nat, bones: nat) -> Seq<char> {
    "{\"vertices\":"@ + spec_decimal(vertices) + ",\"bones\":"@ + spec_decimal(bones) + "}"@
}

/// Serializes the vertex and bone counts.
pub fn dqs_to_json<V, Q>(dqs: &DualQuaternionSkin<V, Q>) -> (s: String)
    ensures
        s@ == spec_dqs_json(dqs.vertices@.len(), dqs.bone_dqs@.len()),
{
    let mut s = String::new();
    s.append("{\"vertices\":");
    push_decimal(&mut s, dqs.vertices.len() as u64);
    s.append(",\"bones\":");
    push_decimal(&mut s, dqs.bone_dqs.len() as u64);
    s.append("}");
    s
}

} // verus!
