//! Data-driven rig: a set of captured samples with the parameter and shape
//! dimensions they map between. Generic in the sample type.

use vstd::prelude::*;
use crate::text::{push_decimal, push_bool, spec_decimal, spec_bool_text};

verus! {

/// Data-driven rig over samples of type `S`.
#[derive(Debug, Clone)]
pub struct DataDrivenRig<S> {
    pub samples: Vec<S>,
    pub param_dim: usize,
    pub shape_dim: usize,
    pub enabled: bool,
}

impl<S> DataDrivenRig<S> {
    /// An enabled rig with no sample.
    pub fn new(param_dim: usize, shape_dim: usize) -> (r: Self)
        ensures
            r.samples@.len() == 0,
            r.param_dim == param_dim,
            r.shape_dim == shape_dim,
            r.enabled,
    {
        DataDrivenRig { samples: Vec::new(), param_dim, shape_dim, enabled: true }
    }
}

/// Create a new data-driven rig.
pub fn new_data_driven_rig<S>(param_dim: usize, shape_dim: usize) -> (r: DataDrivenRig<S>)
    ensures
        r.samples@.len() == 0,
        r.param_dim == param_dim,
        r.shape_dim == shape_dim,
        r.enabled,
{
    DataDrivenRig::new(param_dim, shape_dim)
}

/// Appends a training sample.
pub fn ddr_add_sample<S>(rig: &mut DataDrivenRig<S>, sample: S)
    ensures
        final(rig).samples@ == old(rig).samples@.push(sample),
        final(rig).param_dim == old(rig).param_dim,
        final(rig).shape_dim == old(rig).shape_dim,
        final(rig).enabled == old(rig).enabled,
{
    rig.samples.push(sample);
}

/// Number of samples.
pub fn ddr_sample_count<S>(rig: &DataDrivenRig<S>) -> (n: usize)
    ensures
        n == rig.samples@.len(),
{
    rig.samples.len()
}

/// Enables or disables the rig.
pub fn ddr_set_enabled<S>(rig: &mut DataDrivenRig<S>, enabled: bool)
    ensures
        final(rig).enabled == enabled,
        final(rig).samples@ == old(rig).samples@,
        final(rig).param_dim == old(rig).param_dim,
        final(rig).shape_dim == old(rig).shape_dim,
{
    rig.enabled = enabled;
}

/// Removes every sample.
pub fn ddr_clear_samples<S>(rig: &mut DataDrivenRig<S>)
    ensures
        final(rig).samples@.len() == 0,
        final(rig).param_dim == old(rig).param_dim,
        final(rig).shape_dim == old(rig).shape_dim,
        final(rig).enabled == old(rig).enabled,
{
    rig.samples.clear();
}

/// The text of `ddr_to_json`.
pub open spec fn spec_ddr_json(param_dim: nat, shape_dim: nat, samples: nat, enabled: bool) -> Seq<char> {
    "{\"param_dim\":"@ + spec_decimal(param_dim) + ",\"shape_dim\":"@ + spec_decimal(shape_dim) + ",\"samples\":"@
        + spec_decimal(samples) + ",\"enabled\":"@ + spec_bool_text(enabled) + "}"@
}

/// Serializes the rig's dimensions, sample count and flag.
pub fn ddr_to_json<S>(rig: &DataDrivenRig<S>) -> (s: String)
    ensures
        s@ == spec_ddr_json(rig.param_dim as nat, rig.shape_dim as nat, rig.samples@.len(), rig.enabled),
{
    let mut s = String::new();
    s.append("{\"param_dim\":");
    push_decimal(&mut s, rig.param_dim as u64);
    s.append(",\"shape_dim\":");
    push_decimal(&mut s, rig.shape_dim as u64);
    s.append(",\"samples\":");
    push_decimal(&mut s, rig.samples.len() as u64);
    s.append(",\"enabled\":");
    push_bool(&mut s, rig.enabled);
    s.append("}");
    s
}

} // verus!
