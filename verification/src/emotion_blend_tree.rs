//! Emotion blend tree: an arena of nodes with an optional root. The tree
//! is generic in its node type; the library never looks inside a node.

use vstd::prelude::*;
use crate::text::{push_decimal, push_bool, spec_decimal, spec_bool_text};

verus! {

/// Blend operation for combining child nodes.
#[derive(Debug, Clone, Copy, PartialEq)]
pub enum BlendOp {
    Add,
    Multiply,
    Override,
}

/// Emotion blend tree over nodes of type `N`.
#[derive(Debug, Clone)]
pub struct EmotionBlendTree<N> {
    pub nodes: Vec<N>,
    pub root: Option<usize>,
    pub output_dim: usize,
    pub enabled: bool,
}

impl<N> EmotionBlendTree<N> {
    /// An enabled tree with no node and no root.
    pub fn new(output_dim: usize) -> (r: Self)
        ensures
            r.nodes@.len() == 0,
            r.root is None,
            r.output_dim == output_dim,
            r.enabled,
    {
        EmotionBlendTree { nodes: Vec::new(), root: None, output_dim, enabled: true }
    }
}

/// Create a new emotion blend tree.
pub fn new_emotion_blend_tree<N>(output_dim: usize) -> (r: EmotionBlendTree<N>)
    ensures
        r.nodes@.len() == 0,
        r.root is None,
        r.output_dim == output_dim,
        r.enabled,
{
    EmotionBlendTree::new(output_dim)
}

/// Appends a node and returns its index.
pub fn ebt_add_node<N>(tree: &mut EmotionBlendTree<N>, node: N) -> (idx: usize)
    ensures
        idx == old(tree).nodes@.len(),
        final(tree).nodes@ == old(tree).nodes@.push(node),
        final(tree).root == old(tree).root,
        final(tree).output_dim == old(tree).output_dim,
        final(tree).enabled == old(tree).enabled,
{
    let idx = tree.nodes.len();
    tree.nodes.push(node);
    idx
}

/// Sets the root node index (the index is not checked against the nodes).
pub fn ebt_set_root<N>(tree: &mut EmotionBlendTree<N>, root: usize)
    ensures
        final(tree).root == Some(root),
        final(tree).nodes@ == old(tree).nodes@,
        final(tree).output_dim == old(tree).output_dim,
        final(tree).enabled == old(tree).enabled,
{
    tree.root = Some(root);
}

/// Number of nodes.
pub fn ebt_node_count<N>(tree: &EmotionBlendTree<N>) -> (n: usize)
    ensures
        n == tree.nodes@.len(),
{
    tree.nodes.len()
}

/// Enables or disables the tree.
pub fn ebt_set_enabled<N>(tree: &mut EmotionBlendTree<N>, enabled: bool)
    ensures
        final(tree).enabled == enabled,
        final(tree).nodes@ == old(tree).nodes@,
        final(tree).root == old(tree).root,
        final(tree).output_dim == old(tree).output_dim,
{
    tree.enabled = enabled;
}

/// The text of `ebt_to_json`.
pub open spec fn spec_ebt_json(node_count: nat, output_dim: nat, has_root: bool, enabled: bool) -> Seq<char> {
    "{\"node_count\":"@ + spec_decimal(node_count) + ",\"output_dim\":"@ + spec_decimal(output_dim)
        + ",\"has_root\":"@ + spec_bool_text(has_root) + ",\"enabled\":"@ + spec_bool_text(enabled) + "}"@
}

/// Serializes the tree's counts and flags to a JSON-like string.
pub fn ebt_to_json<N>(tree: &EmotionBlendTree<N>) -> (s: String)
    ensures
        s@ == spec_ebt_json(tree.nodes@.len(), tree.output_dim as nat, tree.root is Some, tree.enabled),
{
    let mut s = String::new();
    s.append("{\"node_count\":");
    push_decimal(&mut s, tree.nodes.len() as u64);
    s.append(",\"output_dim\":");
    push_decimal(&mut s, tree.output_dim as u64);
    s.append(",\"has_root\":");
    push_bool(&mut s, tree.root.is_some());
    s.append(",\"enabled\":");
    push_bool(&mut s, tree.enabled);
    s.append("}");
    s
}

} // verus!
