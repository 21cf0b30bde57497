//! Index-level mesh and morph logic: triangle winding, boolean-operation
//! topology, polygon triangulation, grid and voxel topology, plane slicing,
//! dual-contouring cell selection, the PLY header grammar, the generator of
//! parameter randomization, and the bookkeeping of the morph controllers.

pub mod text;
pub mod mesh_face_flip;
pub mod mesh_boolean_difference;
pub mod mesh_boolean_intersection;
pub mod mesh_boolean_union;
pub mod mesh_boolean_ops;
pub mod mesh_boolean_csg;
pub mod mesh_triangulate;
pub mod mesh_fluid_surface;
pub mod mesh_voxel_remesh;
pub mod mesh_spin_duplicate;
pub mod mesh_platonic_solid;
pub mod mesh_dual_contour;
pub mod mesh_slice_plane;
pub mod mesh_nurbs_surface;
pub mod mesh_gordon_surface;
pub mod ply_format;
pub mod param_randomizer;
pub mod emotion_blend_tree;
pub mod neural_blend_shape;
pub mod procedural_wrinkle;
pub mod data_driven_rig;
pub mod learned_corrective;
pub mod example_based_morph;
pub mod fast_lbs;
pub mod dual_quaternion_skin;
pub mod ethnic_blend_morph;
pub mod pose_space_deform;
