//! Learned corrective shapes: entries mapping a driver to a delta, for a
//! mesh of a given vertex count. Generic in the entry type.

use vstd::prelude::*;
use crate::text::{push_decimal, push_bool, spec_decimal, spec_bool_text};

verus! {

/// Learned corrective system over entries of type `E`.
#[derive(Debug, Clone)]
pub struct LearnedCorrective<E> {
    pub entries: Vec<E>,
    pub vertex_count: usize,
    pub enabled: bool,
}

impl<E> LearnedCorrective<E> {
    /// An enabled system with no entry.
    pub fn new(vertex_count: usize) -> (r: Self)
        ensures
            r.entries@.len() == 0,
            r.vertex_count == vertex_count,
            r.enabled,
    {
        LearnedCorrective { entries: Vec::new(), vertex_count, enabled: true }
    }
}

/// Create a new learned corrective system.
pub fn new_learned_corrective<E>(vertex_count: usize) -> (r: LearnedCorrective<E>)
    ensures
        r.entries@.len() == 0,
        r.vertex_count == vertex_count,
        r.enabled,
{
    LearnedCorrective::new(vertex_count)
}

/// Appends a corrective entry.
pub fn lc_add_entry<E>(lc: &mut LearnedCorrective<E>, entry: E)
    ensures
        final(lc).entries@ == old(lc).entries@.push(entry),
        final(lc).vertex_count == old(lc).vertex_count,
        final(lc).enabled == old(lc).enabled,
{
    lc.entries.push(entry);
}

/// Number of entries.
pub fn lc_entry_count<E>(lc: &LearnedCorrective<E>) -> (n: usize)
    ensures
        n == lc.entries@.len(),
{
    lc.entries.len()
}

/// Enables or disables the system.
pub fn lc_set_enabled<E>(lc: &mut LearnedCorrective<E>, enabled: bool)
    ensures
        final(lc).enabled == enabled,
        final(lc).entries@ == old(lc).entries@,
        final(lc).vertex_count == old(lc).vertex_count,
{
    lc.enabled = enabled;
}

/// The text of `lc_to_json`.
pub open spec fn spec_lc_json(vertex_count: nat, entry_count: nat, enabled: bool) -> Seq<char> {
    "{\"vertex_count\":"@ + spec_decimal(vertex_count) + ",\"entry_count\":"@ + spec_decimal(entry_count)
        + ",\"enabled\":"@ + spec_bool_text(enabled) + "}"@
}

/// Serializes the vertex count, entry count and flag.
pub fn lc_to_json<E>(lc: &LearnedCorrective<E>) -> (s: String)
    ensures
        s@ == spec_lc_json(lc.vertex_count as nat, lc.entries@.len(), lc.enabled),
{
    let mut s = String::new();
    s.append("{\"vertex_count\":");
    push_decimal(&mut s, lc.vertex_count as u64);
    s.append(",\"entry_count\":");
    push_decimal(&mut s, lc.entries.len() as u64);
    s.append(",\"enabled\":");
    push_bool(&mut s, lc.enabled);
    s.append("}");
    s
}

} // verus!
