//! Example-based morphing: a rest pose and example poses. Generic in the
//! vertex type `P` and the example type `E`.

use vstd::prelude::*;
use crate::text::{push_decimal, push_bool, spec_decimal, spec_bool_text};

verus! {

/// Example-based morph system.
#[derive(Debug, Clone)]
pub struct ExampleBasedMorph<P, E> {
    pub rest_pose: Vec<P>,
    pub examples: Vec<E>,
    pub enabled: bool,
}

impl<P, E> ExampleBasedMorph<P, E> {
    /// An enabled system on `rest_pose` with no example.
    pub fn new(rest_pose: Vec<P>) -> (r: Self)
        ensures
            r.rest_pose@ == rest_pose@,
            r.examples@.len() == 0,
            r.enabled,
    {
        ExampleBasedMorph { rest_pose, examples: Vec::new(), enabled: true }
    }
}

/// Create a new example-based morph from a rest pose.
pub fn new_example_based_morph<P, E>(rest_pose: Vec<P>) -> (r: ExampleBasedMorph<P, E>)
    ensures
        r.rest_pose@ == rest_pose@,
        r.examples@.len() == 0,
        r.enabled,
{
    ExampleBasedMorph::new(rest_pose)
}

/// Appends an example pose.
pub fn ebm_add_example<P, E>(morph: &mut ExampleBasedMorph<P, E>, example: E)
    ensures
        final(morph).examples@ == old(morph).examples@.push(example),
        final(morph).rest_pose@ == old(morph).rest_pose@,
        final(morph).enabled == old(morph).enabled,
{
    morph.examples.push(example);
}

/// Number of examples.
pub fn ebm_example_count<P, E>(morph: &ExampleBasedMorph<P, E>) -> (n: usize)
    ensures
        n == morph.examples@.len(),
{
    morph.examples.len()
}

/// Number of vertices of the rest pose.
pub fn ebm_vertex_count<P, E>(morph: &ExampleBasedMorph<P, E>) -> (n: usize)
    ensures
        n == morph.rest_pose@.len(),
{
    morph.rest_pose.len()
}

/// Enables or disables the system.
pub fn ebm_set_enabled<P, E>(morph: &mut ExampleBasedMorph<P, E>, enabled: bool)
    ensures
        final(morph).enabled == enabled,
        final(morph).rest_pose@ == old(morph).rest_pose@,
        final(morph).examples@ == old(morph).examples@,
{
    morph.enabled = enabled;
}

/// The text of `ebm_to_json`.
pub open spec fn spec_ebm_json(vertex_count: nat, example_count: nat, enabled: bool) -> Seq<char> {
    "{\"vertex_count\":"@ + spec_decimal(vertex_count) + ",\"example_count\":"@ + spec_decimal(example_count)
        + ",\"enabled\":"@ + spec_bool_text(enabled) + "}"@
}

/// Serializes the vertex count, example count and flag.
pub fn ebm_to_json<P, E>(morph: &ExampleBasedMorph<P, E>) -> (s: String)
    ensures
        s@ == spec_ebm_json(morph.rest_pose@.len(), morph.examples@.len(), morph.enabled),
{
    let mut s = String::new();
    s.append("{\"vertex_count\":");
    push_decimal(&mut s, morph.rest_pose.len() as u64);
    s.append(",\"example_count\":");
    push_decimal(&mut s, morph.examples.len() as u64);
    s.append(",\"enabled\":");
    push_bool(&mut s, morph.enabled);
    s.append("}");
    s
}

} // verus!
