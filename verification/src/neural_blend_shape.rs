//! Neural blend shape evaluator bookkeeping: layer dimensions, activation,
//! parameters and flag. Generic in the parameter type `W`.

use vstd::prelude::*;
use crate::text::{push_decimal, push_bool, spec_decimal, spec_bool_text};

verus! {

/// Activation function of a neural blend shape layer.
#[derive(Debug, Clone, Copy, PartialEq)]
pub enum NbsActivation {
    Relu,
    Tanh,
    Sigmoid,
}

/// A neural-network-driven blend shape evaluator.
#[derive(Debug, Clone)]
pub struct NeuralBlendShape<W> {
    pub input_dim: usize,
    pub output_dim: usize,
    pub activation: NbsActivation,
    pub weights: Vec<W>,
    pub bias: Vec<W>,
    pub enabled: bool,
}

/// Sets the activation function.
pub fn nbs_set_activation<W>(nbs: &mut NeuralBlendShape<W>, activation: NbsActivation)
    ensures
        *final(nbs) == (NeuralBlendShape { activation, ..*old(nbs) }),
{
    nbs.activation = activation;
}

/// Enables or disables the evaluator.
pub fn nbs_set_enabled<W>(nbs: &mut NeuralBlendShape<W>, enabled: bool)
    ensures
        *final(nbs) == (NeuralBlendShape { enabled, ..*old(nbs) }),
{
    nbs.enabled = enabled;
}

/// Copies `weights` over the front of the evaluator's weights, as many as
/// both hold; the rest are kept.
pub fn nbs_load_weights<W: Copy>(nbs: &mut NeuralBlendShape<W>, weights: &[W])
    ensures
        ({
            let old_w = old(nbs).weights@;
            let n = if weights@.len() < old_w.len() { weights@.len() } else { old_w.len() };
            final(nbs).weights@ == weights@.subrange(0, n as int) + old_w.subrange(n as int, old_w.len() as int)
        }),
        final(nbs).input_dim == old(nbs).input_dim,
        final(nbs).output_dim == old(nbs).output_dim,
        final(nbs).activation == old(nbs).activation,
        final(nbs).bias@ == old(nbs).bias@,
        final(nbs).enabled == old(nbs).enabled,
{
    let ghost old_w = nbs.weights@;
    let n = if weights.len() < nbs.weights.len() { weights.len() } else { nbs.weights.len() };
    let mut i: usize = 0;
    while i < n
        invariant
            n <= weights@.len(),
            n <= old_w.len(),
            i <= n,
            nbs.weights@.len() == old_w.len(),
            forall|j: int| 0 <= j < i ==> nbs.weights@[j] == weights@[j],
            forall|j: int| i <= j < old_w.len() ==> nbs.weights@[j] == old_w[j],
            nbs.input_dim == old(nbs).input_dim,
            nbs.output_dim == old(nbs).output_dim,
            nbs.activation == old(nbs).activation,
            nbs.bias@ == old(nbs).bias@,
            nbs.enabled == old(nbs).enabled,
        decreases n - i,
    {
        let w = weights[i];
        nbs.weights.set(i, w);
        i += 1;
    }
    assert(nbs.weights@ =~= weights@.subrange(0, n as int) + old_w.subrange(n as int, old_w.len() as int));
}

/// The text of `nbs_to_json`.
pub open spec fn spec_nbs_json(input_dim: nat, output_dim: nat, enabled: bool) -> Seq<char> {
    "{\"input_dim\":"@ + spec_decimal(input_dim) + ",\"output_dim\":"@ + spec_decimal(output_dim) + ",\"enabled\":"@
        + spec_bool_text(enabled) + "}"@
}

/// Serializes the layer dimensions and flag.
pub fn nbs_to_json<W>(nbs: &NeuralBlendShape<W>) -> (s: String)
    ensures
        s@ == spec_nbs_json(nbs.input_dim as nat, nbs.output_dim as nat, nbs.enabled),
{
    let mut s = String::new();
    s.append("{\"input_dim\":");
    push_decimal(&mut s, nbs.input_dim as u64);
    s.append(",\"output_dim\":");
    push_decimal(&mut s, nbs.output_dim as u64);
    s.append(",\"enabled\":");
    push_bool(&mut s, nbs.enabled);
    s.append("}");
    s
}

} // verus!
