use oxihuman::data_driven_rig::{
    ddr_add_sample, ddr_clear_samples, ddr_sample_count, ddr_set_enabled, ddr_to_json, new_data_driven_rig,
    DataDrivenRig,
};
use oxihuman::dual_quaternion_skin::{
    dqs_bone_count, dqs_set_binding, dqs_set_bone, dqs_to_json, dqs_vertex_count, DualQuaternionSkin,
};
use oxihuman::emotion_blend_tree::{
    ebt_add_node, ebt_node_count, ebt_set_enabled, ebt_set_root, ebt_to_json, new_emotion_blend_tree, BlendOp,
    EmotionBlendTree,
};
use oxihuman::ethnic_blend_morph::{
    ebmrph_feature_count, ebmrph_push_feature_set, ebmrph_set_enabled, ebmrph_store_blend_weight, ebmrph_to_json,
    new_ethnic_blend_morph, EthnicBlendMorph,
};
use oxihuman::example_based_morph::{
    ebm_add_example, ebm_example_count, ebm_set_enabled, ebm_to_json, ebm_vertex_count, new_example_based_morph,
    ExampleBasedMorph,
};
use oxihuman::fast_lbs::{fast_lbs_set, fast_lbs_to_json, fast_lbs_vertex_count, FastLbs};
use oxihuman::learned_corrective::{
    lc_add_entry, lc_entry_count, lc_set_enabled, lc_to_json, new_learned_corrective, LearnedCorrective,
};
use oxihuman::neural_blend_shape::{
    nbs_load_weights, nbs_set_activation, nbs_set_enabled, nbs_to_json, NbsActivation, NeuralBlendShape,
};
use oxihuman::pose_space_deform::{
    psd_copy_deltas, psd_example_count, psd_to_json, psd_vertex_count, PoseSpaceDeform,
};

#[allow(dead_code)]
#[derive(Debug, Clone)]
struct RigSample {
    pose_params: Vec<f32>,
    shape_output: Vec<f32>,
}

#[allow(dead_code)]
#[derive(Debug, Clone)]
struct EmotionNode {
    name: String,
    weight: f32,
    children: Vec<usize>,
    blend_op: BlendOp,
}

#[allow(dead_code)]
#[derive(Debug, Clone)]
struct CorrectiveEntry {
    driver_index: usize,
    driver_value: f32,
    delta: Vec<[f32; 3]>,
    weight: f32,
}

#[allow(dead_code)]
#[derive(Debug, Clone)]
struct ExamplePose {
    name: String,
    vertices: Vec<[f32; 3]>,
    weight: f32,
}

#[allow(dead_code)]
#[derive(Debug, Clone, Copy, Default, PartialEq)]
struct FastLbsRecord {
    bones: [u8; 4],
    weights: [f32; 4],
}

#[allow(dead_code)]
#[derive(Debug, Clone, Default)]
struct DqsVertex {
    bone_indices: [usize; 4],
    weights: [f32; 4],
}

#[allow(dead_code)]
#[derive(Debug, Clone, Copy)]
struct DualQuat {
    q0: [f32; 4],
    qe: [f32; 4],
}

fn identity() -> DualQuat {
    DualQuat { q0: [0.0, 0.0, 0.0, 1.0], qe: [0.0; 4] }
}

#[allow(dead_code)]
#[derive(Debug, Clone)]
struct EthnicFeatureSet {
    name: String,
    morph_weights: Vec<f32>,
}

#[allow(dead_code)]
#[derive(Debug, Clone)]
struct PsdExample {
    pose: Vec<f32>,
    deltas: Vec<[f32; 3]>,
    weight: f32,
}

fn new_fast_lbs(vertex_count: usize, bone_count: usize) -> FastLbs<FastLbsRecord> {
    FastLbs { records: vec![FastLbsRecord::default(); vertex_count], bone_count }
}

fn new_dqs(vertex_count: usize, bone_count: usize) -> DualQuaternionSkin<DqsVertex, DualQuat> {
    DualQuaternionSkin {
        vertices: (0..vertex_count).map(|_| DqsVertex::default()).collect(),
        bone_dqs: (0..bone_count).map(|_| identity()).collect(),
    }
}

fn new_neural_blend_shape(input_dim: usize, output_dim: usize) -> NeuralBlendShape<f32> {
    NeuralBlendShape {
        input_dim,
        output_dim,
        activation: NbsActivation::Relu,
        weights: vec![0.0; input_dim * output_dim],
        bias: vec![0.0; output_dim],
        enabled: true,
    }
}

fn new_psd(vertex_count: usize) -> PoseSpaceDeform<PsdExample, [f32; 3]> {
    PoseSpaceDeform { examples: Vec::new(), current_deltas: vec![[0.0; 3]; vertex_count] }
}

fn psd_add_example(p: &mut PoseSpaceDeform<PsdExample, [f32; 3]>, pose: Vec<f32>, deltas: Vec<[f32; 3]>) {
    p.examples.push(PsdExample { pose, deltas, weight: 0.0 });
}

fn feature(name: &str, n: usize) -> EthnicFeatureSet {
    EthnicFeatureSet { name: name.into(), morph_weights: vec![0.0; n] }
}

// ---- data-driven rig

#[test]
fn data_driven_rig_test_new_dims() {
    let rig: DataDrivenRig<RigSample> = new_data_driven_rig(10, 20);
    assert_eq!(rig.param_dim, 10);
    assert_eq!(rig.shape_dim, 20);
}

#[test]
fn test_no_samples_initially() {
    let rig: DataDrivenRig<RigSample> = new_data_driven_rig(5, 5);
    assert_eq!(ddr_sample_count(&rig), 0);
}

#[test]
fn test_add_sample() {
    let mut rig = new_data_driven_rig(3, 3);
    ddr_add_sample(&mut rig, RigSample { pose_params: vec![0.1, 0.2, 0.3], shape_output: vec![0.0, 0.0, 0.0] });
    assert_eq!(ddr_sample_count(&rig), 1);
    assert_eq!(rig.samples[0].pose_params, vec![0.1, 0.2, 0.3]);
    assert_eq!(rig.samples[0].shape_output.len(), 3);
}

#[test]
fn data_driven_rig_test_set_enabled() {
    let mut rig: DataDrivenRig<RigSample> = new_data_driven_rig(2, 2);
    ddr_set_enabled(&mut rig, false);
    assert!(!rig.enabled);
}

#[test]
fn test_clear_samples() {
    let mut rig = new_data_driven_rig(2, 2);
    ddr_add_sample(&mut rig, RigSample { pose_params: vec![0.0; 2], shape_output: vec![0.0; 2] });
    ddr_clear_samples(&mut rig);
    assert_eq!(ddr_sample_count(&rig), 0);
}

#[test]
fn data_driven_rig_test_to_json() {
    let rig: DataDrivenRig<RigSample> = new_data_driven_rig(4, 8);
    let j = ddr_to_json(&rig);
    assert!(j.contains("\"param_dim\""));
    assert_eq!(j, "{\"param_dim\":4,\"shape_dim\":8,\"samples\":0,\"enabled\":true}");
}

#[test]
fn data_driven_rig_test_enabled_by_default() {
    let rig: DataDrivenRig<RigSample> = new_data_driven_rig(1, 1);
    assert!(rig.enabled);
}

#[test]
fn test_many_samples() {
    let mut rig = new_data_driven_rig(2, 2);
    for _ in 0..10 {
        ddr_add_sample(&mut rig, RigSample { pose_params: vec![0.0; 2], shape_output: vec![0.0; 2] });
    }
    assert_eq!(ddr_sample_count(&rig), 10);
}

// ---- emotion blend tree

#[test]
fn test_new_output_dim() {
    let t: EmotionBlendTree<EmotionNode> = new_emotion_blend_tree(10);
    assert_eq!(t.output_dim, 10);
}

#[test]
fn test_no_nodes_initially() {
    let t: EmotionBlendTree<EmotionNode> = new_emotion_blend_tree(5);
    assert_eq!(ebt_node_count(&t), 0);
}

#[test]
fn test_add_node_returns_index() {
    let mut t = new_emotion_blend_tree(5);
    let idx = ebt_add_node(
        &mut t,
        EmotionNode { name: "joy".into(), weight: 1.0, children: vec![], blend_op: BlendOp::Add },
    );
    assert_eq!(idx, 0);
    let idx = ebt_add_node(
        &mut t,
        EmotionNode { name: "fear".into(), weight: 0.5, children: vec![0], blend_op: BlendOp::Multiply },
    );
    assert_eq!(idx, 1);
    assert_eq!(t.nodes[1].name, "fear");
    assert_eq!(t.nodes[1].children, vec![0]);
    assert_eq!(t.nodes[0].weight, 1.0);
    assert_eq!(t.nodes[1].blend_op, BlendOp::Multiply);
}

#[test]
fn test_set_root() {
    let mut t = new_emotion_blend_tree(5);
    let idx = ebt_add_node(
        &mut t,
        EmotionNode { name: "root".into(), weight: 1.0, children: vec![], blend_op: BlendOp::Add },
    );
    ebt_set_root(&mut t, idx);
    assert_eq!(t.root, Some(0));
}

#[test]
fn emotion_blend_tree_test_set_enabled() {
    let mut t: EmotionBlendTree<EmotionNode> = new_emotion_blend_tree(3);
    ebt_set_enabled(&mut t, false);
    assert!(!t.enabled);
}

#[test]
fn test_to_json_contains_node_count() {
    let t: EmotionBlendTree<EmotionNode> = new_emotion_blend_tree(4);
    let j = ebt_to_json(&t);
    assert!(j.contains("\"node_count\""));
}

#[test]
fn emotion_blend_tree_test_enabled_default() {
    let t: EmotionBlendTree<EmotionNode> = new_emotion_blend_tree(1);
    assert!(t.enabled);
}

#[test]
fn test_no_root_initially() {
    let t: EmotionBlendTree<EmotionNode> = new_emotion_blend_tree(2);
    assert!(t.root.is_none());
}

#[test]
fn ebt_json_exact_text() {
    let mut t = new_emotion_blend_tree(12);
    assert_eq!(ebt_to_json(&t), "{\"node_count\":0,\"output_dim\":12,\"has_root\":false,\"enabled\":true}");
    ebt_add_node(&mut t, EmotionNode { name: "a".into(), weight: 1.0, children: vec![], blend_op: BlendOp::Override });
    ebt_set_root(&mut t, 7);
    ebt_set_enabled(&mut t, false);
    assert_eq!(ebt_to_json(&t), "{\"node_count\":1,\"output_dim\":12,\"has_root\":true,\"enabled\":false}");
}

// ---- learned corrective

#[test]
fn learned_corrective_test_new_vertex_count() {
    let lc: LearnedCorrective<CorrectiveEntry> = new_learned_corrective(100);
    assert_eq!(lc.vertex_count, 100);
}

#[test]
fn test_default_no_entries() {
    let lc: LearnedCorrective<CorrectiveEntry> = new_learned_corrective(10);
    assert_eq!(lc_entry_count(&lc), 0);
}

#[test]
fn test_add_entry() {
    let mut lc = new_learned_corrective(4);
    let e = CorrectiveEntry { driver_index: 0, driver_value: 1.0, delta: vec![[0.1, 0.0, 0.0]; 4], weight: 1.0 };
    lc_add_entry(&mut lc, e);
    assert_eq!(lc_entry_count(&lc), 1);
    assert_eq!(lc.entries[0].driver_index, 0);
    assert_eq!(lc.entries[0].driver_value, 1.0);
    assert_eq!(lc.entries[0].delta.len(), 4);
    assert_eq!(lc.entries[0].weight, 1.0);
}

#[test]
fn test_set_enabled_false() {
    let mut lc: LearnedCorrective<CorrectiveEntry> = new_learned_corrective(4);
    lc_set_enabled(&mut lc, false);
    assert!(!lc.enabled);
}

#[test]
fn learned_corrective_test_to_json_contains_vertex_count() {
    let lc: LearnedCorrective<CorrectiveEntry> = new_learned_corrective(20);
    let j = lc_to_json(&lc);
    assert!(j.contains("\"vertex_count\""));
    assert_eq!(j, "{\"vertex_count\":20,\"entry_count\":0,\"enabled\":true}");
}

#[test]
fn test_to_json_contains_entry_count() {
    let lc: LearnedCorrective<CorrectiveEntry> = new_learned_corrective(5);
    let j = lc_to_json(&lc);
    assert!(j.contains("\"entry_count\""));
}

#[test]
fn test_multiple_entries() {
    let mut lc = new_learned_corrective(2);
    for i in 0..5 {
        lc_add_entry(
            &mut lc,
            CorrectiveEntry { driver_index: i, driver_value: 0.5, delta: vec![[0.0; 3]; 2], weight: 1.0 },
        );
    }
    assert_eq!(lc_entry_count(&lc), 5);
    assert_eq!(lc.entries[4].driver_index, 4);
}

#[test]
fn learned_corrective_test_enabled_by_default() {
    let lc: LearnedCorrective<CorrectiveEntry> = new_learned_corrective(1);
    assert!(lc.enabled);
}

// ---- example-based morph

#[test]
fn example_based_morph_test_new_vertex_count() {
    let m: ExampleBasedMorph<[f32; 3], ExamplePose> = new_example_based_morph(vec![[0.0; 3]; 10]);
    assert_eq!(ebm_vertex_count(&m), 10);
}

#[test]
fn test_no_examples_initially() {
    let m: ExampleBasedMorph<[f32; 3], ExamplePose> = new_example_based_morph(vec![[0.0; 3]; 5]);
    assert_eq!(ebm_example_count(&m), 0);
}

#[test]
fn test_add_example() {
    let mut m = new_example_based_morph(vec![[0.0; 3]; 4]);
    ebm_add_example(&mut m, ExamplePose { name: "smile".into(), vertices: vec![[0.1, 0.0, 0.0]; 4], weight: 1.0 });
    assert_eq!(ebm_example_count(&m), 1);
    assert_eq!(m.examples[0].name, "smile");
    assert_eq!(m.examples[0].vertices.len(), 4);
    assert_eq!(m.examples[0].weight, 1.0);
}

#[test]
fn example_based_morph_test_set_enabled() {
    let mut m: ExampleBasedMorph<[f32; 3], ExamplePose> = new_example_based_morph(vec![]);
    ebm_set_enabled(&mut m, false);
    assert!(!m.enabled);
}

#[test]
fn example_based_morph_test_to_json() {
    let m: ExampleBasedMorph<[f32; 3], ExamplePose> = new_example_based_morph(vec![[0.0; 3]; 3]);
    let j = ebm_to_json(&m);
    assert!(j.contains("\"vertex_count\""));
    assert_eq!(j, "{\"vertex_count\":3,\"example_count\":0,\"enabled\":true}");
}

#[test]
fn example_based_morph_test_enabled_default() {
    let m: ExampleBasedMorph<[f32; 3], ExamplePose> = new_example_based_morph(vec![]);
    assert!(m.enabled);
}

#[test]
fn example_based_morph_test_multiple_examples() {
    let mut m = new_example_based_morph(vec![[0.0; 3]; 2]);
    for i in 0..4 {
        ebm_add_example(&mut m, ExamplePose { name: format!("pose_{i}"), vertices: vec![[0.0; 3]; 2], weight: 0.5 });
    }
    assert_eq!(ebm_example_count(&m), 4);
}

#[test]
fn test_json_contains_example_count() {
    let m: ExampleBasedMorph<[f32; 3], ExamplePose> = new_example_based_morph(vec![]);
    let j = ebm_to_json(&m);
    assert!(j.contains("\"example_count\""));
}

// ---- fast LBS

#[test]
fn test_new_fast_lbs_vertex_count() {
    let lbs = new_fast_lbs(16, 4);
    assert_eq!(fast_lbs_vertex_count(&lbs), 16);
}

#[test]
fn test_set_record_updates() {
    let mut lbs = new_fast_lbs(4, 2);
    let r = FastLbsRecord { bones: [1, 2, 0, 0], weights: [0.5, 0.5, 0.0, 0.0] };
    fast_lbs_set(&mut lbs, 0, r);
    assert!((lbs.records[0].weights[0] - 0.5).abs() < 1e-5);
    assert_eq!(lbs.records[0].bones, [1, 2, 0, 0]);
    assert_eq!(lbs.records[1], FastLbsRecord::default());
}

#[test]
fn test_set_out_of_bounds_ignored() {
    let mut lbs = new_fast_lbs(2, 2);
    fast_lbs_set(&mut lbs, 99, FastLbsRecord { bones: [3; 4], weights: [1.0; 4] });
    assert_eq!(fast_lbs_vertex_count(&lbs), 2);
    assert!(lbs.records.iter().all(|r| *r == FastLbsRecord::default()));
}

#[test]
fn fast_lbs_test_to_json_contains_vertices() {
    let lbs = new_fast_lbs(5, 3);
    let j = fast_lbs_to_json(&lbs);
    assert!(j.contains("vertices"));
    assert_eq!(j, "{\"vertices\":5,\"bones\":3}");
}

// ---- dual quaternion skinning

#[test]
fn test_new_dqs_vertex_count() {
    let d = new_dqs(15, 4);
    assert_eq!(dqs_vertex_count(&d), 15);
}

#[test]
fn test_new_dqs_bone_count() {
    let d = new_dqs(5, 8);
    assert_eq!(dqs_bone_count(&d), 8);
}

#[test]
fn test_set_bone_updates() {
    let mut d = new_dqs(2, 2);
    let dq = DualQuat { q0: [0.0, 0.0, 0.707, 0.707], qe: [0.0; 4] };
    dqs_set_bone(&mut d, 0, dq);
    assert!((d.bone_dqs[0].q0[2] - 0.707).abs() < 1e-3);
    assert_eq!(d.bone_dqs[1].q0, [0.0, 0.0, 0.0, 1.0]);
}

#[test]
fn test_set_bone_out_of_bounds_ignored() {
    let mut d = new_dqs(2, 2);
    dqs_set_bone(&mut d, 99, identity());
    assert_eq!(dqs_bone_count(&d), 2);
}

#[test]
fn test_set_vertex_out_of_bounds_ignored() {
    let mut d = new_dqs(2, 2);
    dqs_set_binding(&mut d, 99, DqsVertex { bone_indices: [0, 0, 0, 0], weights: [1.0, 0.0, 0.0, 0.0] });
    assert_eq!(dqs_vertex_count(&d), 2);
    assert!(d.vertices.iter().all(|v| v.weights == [0.0; 4]));
}

#[test]
fn dqs_set_binding_in_range() {
    let mut d = new_dqs(3, 2);
    dqs_set_binding(&mut d, 1, DqsVertex { bone_indices: [1, 0, 1, 0], weights: [0.25, 0.75, 0.0, 0.0] });
    assert_eq!(d.vertices[1].bone_indices, [1, 0, 1, 0]);
    assert_eq!(d.vertices[0].bone_indices, [0; 4]);
    assert_eq!(d.vertices[2].weights, [0.0; 4]);
}

#[test]
fn dual_quaternion_skin_test_to_json_contains_vertices() {
    let d = new_dqs(6, 3);
    let j = dqs_to_json(&d);
    assert!(j.contains("vertices"));
    assert_eq!(j, "{\"vertices\":6,\"bones\":3}");
}

// ---- neural blend shape

#[test]
fn test_set_activation() {
    let mut nbs = new_neural_blend_shape(2, 2);
    nbs_set_activation(&mut nbs, NbsActivation::Tanh);
    assert_eq!(nbs.activation, NbsActivation::Tanh);
}

#[test]
fn test_load_weights() {
    let mut nbs = new_neural_blend_shape(2, 2);
    nbs_load_weights(&mut nbs, &[1.0, 2.0, 3.0, 4.0]);
    assert!((nbs.weights[0] - 1.0).abs() < 1e-6);
    assert_eq!(nbs.weights, vec![1.0, 2.0, 3.0, 4.0]);
}

#[test]
fn test_load_weights_partial() {
    let mut nbs = new_neural_blend_shape(4, 4);
    nbs_load_weights(&mut nbs, &[5.0, 6.0]);
    assert!((nbs.weights[0] - 5.0).abs() < 1e-6);
    assert_eq!(nbs.weights[1], 6.0);
    assert!(nbs.weights[2..].iter().all(|&w| w == 0.0));
    assert_eq!(nbs.weights.len(), 16);
}

#[test]
fn nbs_load_weights_longer_input_is_cut() {
    let mut nbs = new_neural_blend_shape(1, 2);
    nbs_load_weights(&mut nbs, &[7.0, 8.0, 9.0]);
    assert_eq!(nbs.weights, vec![7.0, 8.0]);
}

#[test]
fn test_to_json_contains_dims() {
    let mut nbs = new_neural_blend_shape(3, 5);
    let j = nbs_to_json(&nbs);
    assert!(j.contains("\"input_dim\""));
    assert!(j.contains("\"output_dim\""));
    nbs_set_enabled(&mut nbs, false);
    assert_eq!(nbs_to_json(&nbs), "{\"input_dim\":3,\"output_dim\":5,\"enabled\":false}");
}

// ---- pose space deformation

#[test]
fn test_new_psd_vertex_count() {
    let p = new_psd(12);
    assert_eq!(psd_vertex_count(&p), 12);
}

#[test]
fn test_initial_no_examples() {
    let p = new_psd(5);
    assert_eq!(psd_example_count(&p), 0);
}

#[test]
fn test_add_example_increases_count() {
    let mut p = new_psd(5);
    psd_add_example(&mut p, vec![0.0; 4], vec![[0.0; 3]; 5]);
    assert_eq!(psd_example_count(&p), 1);
}

#[test]
fn test_to_json_contains_examples() {
    let p = new_psd(4);
    let j = psd_to_json(&p);
    assert!(j.contains("examples"));
}

#[test]
fn pose_space_deform_test_to_json_contains_vertices() {
    let p = new_psd(7);
    let j = psd_to_json(&p);
    assert!(j.contains("7"));
    assert_eq!(j, "{\"examples\":0,\"vertices\":7}");
}

#[test]
fn pose_space_deform_test_multiple_examples() {
    let mut p = new_psd(2);
    psd_add_example(&mut p, vec![0.0], vec![[0.0; 3]; 2]);
    psd_add_example(&mut p, vec![1.0], vec![[1.0; 3]; 2]);
    assert_eq!(psd_example_count(&p), 2);
}

#[test]
fn psd_copy_deltas_prefix() {
    let mut p = new_psd(3);
    psd_copy_deltas(&mut p, &[[0.5, 0.0, 0.0], [0.25, 0.0, 0.0]]);
    assert_eq!(p.current_deltas, vec![[0.5, 0.0, 0.0], [0.25, 0.0, 0.0], [0.0; 3]]);
    psd_copy_deltas(&mut p, &[[1.0; 3]; 5]);
    assert_eq!(p.current_deltas, vec![[1.0; 3]; 3]);
}

// ---- ethnic blend morph

#[test]
fn ethnic_blend_morph_test_new_morph_count() {
    let m: EthnicBlendMorph<EthnicFeatureSet, f32> = new_ethnic_blend_morph(16);
    assert_eq!(m.morph_count, 16);
}

#[test]
fn test_no_features_initially() {
    let m: EthnicBlendMorph<EthnicFeatureSet, f32> = new_ethnic_blend_morph(8);
    assert_eq!(ebmrph_feature_count(&m), 0);
}

#[test]
fn test_add_feature_set() {
    let mut m = new_ethnic_blend_morph(8);
    ebmrph_push_feature_set(&mut m, feature("set_a", 8), 0.0f32);
    assert_eq!(ebmrph_feature_count(&m), 1);
    assert_eq!(m.feature_sets[0].name, "set_a");
    assert_eq!(m.feature_sets[0].morph_weights.len(), 8);
}

#[test]
fn test_blend_weight_init_zero() {
    let mut m = new_ethnic_blend_morph(4);
    ebmrph_push_feature_set(&mut m, feature("x", 4), 0.0f32);
    assert!((m.blend_weights[0]).abs() < 1e-6);
}

#[test]
fn test_set_blend_weight() {
    let mut m = new_ethnic_blend_morph(4);
    ebmrph_push_feature_set(&mut m, feature("x", 4), 0.0f32);
    ebmrph_store_blend_weight(&mut m, 0, 0.7);
    assert!((m.blend_weights[0] - 0.7).abs() < 1e-5);
}

#[test]
fn ethnic_blend_morph_test_set_enabled() {
    let mut m: EthnicBlendMorph<EthnicFeatureSet, f32> = new_ethnic_blend_morph(4);
    ebmrph_set_enabled(&mut m, false);
    assert!(!m.enabled);
}

#[test]
fn ethnic_blend_morph_test_to_json_contains_morph_count() {
    let m: EthnicBlendMorph<EthnicFeatureSet, f32> = new_ethnic_blend_morph(5);
    let j = ebmrph_to_json(&m);
    assert!(j.contains("\"morph_count\""));
    assert_eq!(j, "{\"morph_count\":5,\"feature_sets\":0,\"enabled\":true}");
}

#[test]
fn ethnic_blend_morph_test_enabled_default() {
    let m: EthnicBlendMorph<EthnicFeatureSet, f32> = new_ethnic_blend_morph(1);
    assert!(m.enabled);
}

#[test]
fn test_out_of_bounds_set_ignored() {
    let mut m: EthnicBlendMorph<EthnicFeatureSet, f32> = new_ethnic_blend_morph(4);
    ebmrph_store_blend_weight(&mut m, 99, 1.0);
    assert_eq!(ebmrph_feature_count(&m), 0);
    assert!(m.blend_weights.is_empty());
}
