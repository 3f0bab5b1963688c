use vstd::prelude::*;

pub mod csg;
pub mod csg_format;
pub mod csg_gpu;
pub mod csg_object;
pub mod csg_tree;
pub mod ids;
pub mod mesh_indices;
pub mod octree;
pub mod octree_build;
pub mod octree_cut;
pub mod octree_query;
pub mod opengl;
pub mod scene_input;
pub mod scene_objects;
pub mod ui_types;
pub mod winged_edge;
pub mod winged_edge_cone;
pub mod winged_edge_cube;
pub mod winged_edge_cylinder;
pub mod winged_edge_draw;
pub mod winged_edge_shapes;
pub mod winged_edge_sphere;

verus! {

} // verus!
