//! Ethnic feature blending bookkeeping: feature sets with one blend weight
//! each. Generic in the feature set type `F` and the weight type `W`.

use vstd::prelude::*;
use crate::text::{push_decimal, push_bool, spec_decimal, spec_bool_text};

verus! {

/// Ethnic blend morph controller.
#[derive(Debug, Clone)]
pub struct EthnicBlendMorph<F, W> {
    pub feature_sets: Vec<F>,
    pub blend_weights: Vec<W>,
    pub morph_count: usize,
    pub enabled: bool,
}

impl<F, W> EthnicBlendMorph<F, W> {
    /// An enabled controller with no feature set.
    pub fn new(morph_count: usize) -> (r: Self)
        ensures
            r.feature_sets@.len() == 0,
            r.blend_weights@.len() == 0,
            r.morph_count == morph_count,
            r.enabled,
    {
        EthnicBlendMorph { feature_sets: Vec::new(), blend_weights: Vec::new(), morph_count, enabled: true }
    }
}

/// Create a new ethnic blend morph controller.
pub fn new_ethnic_blend_morph<F, W>(morph_count: usize) -> (r: EthnicBlendMorph<F, W>)
    ensures
        r.feature_sets@.len() == 0,
        r.blend_weights@.len() == 0,
        r.morph_count == morph_count,
        r.enabled,
{
    EthnicBlendMorph::new(morph_count)
}

/// Appends a feature set with blend weight `initial_weight`.
pub fn ebmrph_push_feature_set<F, W>(morph: &mut EthnicBlendMorph<F, W>, feature_set: F, initial_weight: W)
    ensures
        final(morph).feature_sets@ == old(morph).feature_sets@.push(feature_set),
        final(morph).blend_weights@ == old(morph).blend_weights@.push(initial_weight),
        final(morph).morph_count == old(morph).morph_count,
        final(morph).enabled == old(morph).enabled,
{
    morph.blend_weights.push(initial_weight);
    morph.feature_sets.push(feature_set);
}

/// Replaces blend weight `idx`; an index past the weights changes nothing.
pub fn ebmrph_store_blend_weight<F, W>(morph: &mut EthnicBlendMorph<F, W>, idx: usize, weight: W)
    ensures
        final(morph).blend_weights@ == if idx < old(morph).blend_weights@.len() {
            old(morph).blend_weights@.update(idx as int, weight)
        } else {
            old(morph).blend_weights@
        },
        final(morph).feature_sets@ == old(morph).feature_sets@,
        final(morph).morph_count == old(morph).morph_count,
        final(morph).enabled == old(morph).enabled,
{
    if idx < morph.blend_weights.len() {
        morph.blend_weights.set(idx, weight);
    }
}

/// Number of feature sets.
pub fn ebmrph_feature_count<F, W>(morph: &EthnicBlendMorph<F, W>) -> (n: usize)
    ensures
        n == morph.feature_sets@.len(),
{
    morph.feature_sets.len()
}

/// Enables or disables the controller.
pub fn ebmrph_set_enabled<F, W>(morph: &mut EthnicBlendMorph<F, W>, enabled: bool)
    ensures
        final(morph).enabled == enabled,
        final(morph).feature_sets@ == old(morph).feature_sets@,
        final(morph).blend_weights@ == old(morph).blend_weights@,
        final(morph).morph_count == old(morph).morph_count,
{
    morph.enabled = enabled;
}

/// The text of `ebmrph_to_json`.
pub open spec fn spec_ebmrph_json(morph_count: nat, feature_sets: nat, enabled: bool) -> Seq<char> {
    "{\"morph_count\":"@ + spec_decimal(morph_count) + ",\"feature_sets\":"@ + spec_decimal(feature_sets)
        + ",\"enabled\":"@ + spec_bool_text(enabled) + "}"@
}

/// Serializes the morph count, feature set count and flag.
pub fn ebmrph_to_json<F, W>(morph: &EthnicBlendMorph<F, W>) -> (s: String)
    ensures
        s@ == spec_ebmrph_json(morph.morph_count as nat, morph.feature_sets@.len(), morph.enabled),
{
    let mut s = String::new();
    s.append("{\"morph_count\":");
    push_decimal(&mut s, morph.morph_count as u64);
    s.append(",\"feature_sets\":");
    push_decimal(&mut s, morph.feature_sets.len() as u64);
    s.append(",\"enabled\":");
    push_bool(&mut s, morph.enabled);
    s.append("}");
    s
}

} // verus!
