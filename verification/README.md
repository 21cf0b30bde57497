# oxihuman

The index-level logic of a parametric human-body mesh and morph toolkit,
written in Verus and proved against its contracts.

- `src/` — the verified library. Each module states what its functions
  return over mathematical models (`Seq`, `Map`, `int`) and proves it:
  triangle winding and face flipping, the topology of boolean mesh
  operations (face selection, vertex compaction, manifold check, union
  offsets), polygon fan triangulation, spin and grid tessellation, voxel
  grids, plane slicing, dual-contouring cell selection, Platonic solid
  topology, the PLY header grammar (ASCII and binary little-endian), the
  linear congruential generator behind parameter randomization, and the
  containers of the morph controllers. Public proof functions state the
  library's laws (involutions, index ranges, partitions, read-after-write).
- `tests/` — tests on concrete values, run against the compiled library.
- `app/` — ordinary Rust around the library: everything that computes on
  floating-point positions, weights and fields, the point-cloud readers
  (PLY/OBJ) that decode values from text and bytes, and the error messages
  (through `anyhow`).


Not included: the animation-track retargeting functions (`reverse_track`,
`concat_tracks` and the rest of that module) and `set_uniform_color`, whose
types (`MorphTrack`, `Keyframe`, `ParamState`, `MeshBuffers`) are defined
outside this crate and not available to it. The morph containers with
floating-point payloads (`FastLbs`, `DualQuaternionSkin`, `NeuralBlendShape`,
`PoseSpaceDeform`) are built by the free `new_*` functions in `app/`: their
types there are aliases of the library's generic types, which cannot carry
an inherent constructor of `app/`'s own.
