//! Pose space deformation bookkeeping: example poses and the current
//! per-vertex deltas. Generic in the example type `X` and delta type `D`.

use vstd::prelude::*;
use crate::text::{push_decimal, spec_decimal};

verus! {

/// Pose space deformer.
#[derive(Debug, Clone)]
pub struct PoseSpaceDeform<X, D> {
    pub examples: Vec<X>,
    pub current_deltas: Vec<D>,
}

/// Number of example poses.
pub fn psd_example_count<X, D>(psd: &PoseSpaceDeform<X, D>) -> (n: usize)
    ensures
        n == psd.examples@.len(),
{
    psd.examples.len()
}

/// Number of vertices (one current delta each).
pub fn psd_vertex_count<X, D>(psd: &PoseSpaceDeform<X, D>) -> (n: usize)
    ensures
        n == psd.current_deltas@.len(),
{
    psd.current_deltas.len()
}

/// Copies `deltas` over the front of the current deltas, as many as both
/// hold; the rest are kept.
pub fn psd_copy_deltas<X, D: Copy>(psd: &mut PoseSpaceDeform<X, D>, deltas: &[D])
    ensures
        ({
            let old_d = old(psd).current_deltas@;
            let n = if deltas@.len() < old_d.len() { deltas@.len() } else { old_d.len() };
            final(psd).current_deltas@ == deltas@.subrange(0, n as int) + old_d.subrange(n as int, old_d.len() as int)
        }),
        final(psd).examples@ == old(psd).examples@,
{
    let ghost old_d = psd.current_deltas@;
    let n = if deltas.len() < psd.current_deltas.len() { deltas.len() } else { psd.current_deltas.len() };
    let mut i: usize = 0;
    while i < n
        invariant
            n <= deltas@.len(),
            n <= old_d.len(),
            i <= n,
            psd.current_deltas@.len() == old_d.len(),
            forall|j: int| 0 <= j < i ==> psd.current_deltas@[j] == deltas@[j],
            forall|j: int| i <= j < old_d.len() ==> psd.current_deltas@[j] == old_d[j],
            psd.examples@ == old(psd).examples@,
        decreases n - i,
    {
        let d = deltas[i];
        psd.current_deltas.set(i, d);
        i += 1;
    }
    assert(psd.current_deltas@ =~= deltas@.subrange(0, n as int) + old_d.subrange(n as int, old_d.len() as int));
}

/// The text of `psd_to_json`.
pub open spec fn spec_psd_json(examples: nat, vertices: nat) -> Seq<char> {
    "{\"examples\":"@ + spec_decimal(examples) + ",\"vertices\":"@ + spec_decimal(vertices) + "}"@
}

/// Serializes the example and vertex counts.
pub fn psd_to_json<X, D>(psd: &PoseSpaceDeform<X, D>) -> (s: String)
    ensures
        s@ == spec_psd_json(psd.examples@.len(), psd.current_deltas@.len()),
{
    let mut s = String::new();
    s.append("{\"examples\":");
    push_decimal(&mut s, psd.examples.len() as u64);
    s.append(",\"vertices\":");
    push_decimal(&mut s, psd.current_deltas.len() as u64);
    s.append("}");
    s
}

} // verus!
