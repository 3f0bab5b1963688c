# geomodel

A geometric modelling program with three representations of solids —
octrees, constructive solid geometry (CSG) trees and winged-edge boundary
representations — drawn with OpenGL under an egui side panel.

The library (`src/`) holds the logic, with contracts checked by Verus:

- `octree`, `octree_build`, `octree_query`, `octree_cut`: octree nodes,
  their byte format (`(`, `B`, `W`) and its reading under a depth limit,
  the growth of an octree from a classifier of octants, the cells that
  draw it, and the boolean combination of node types.
- `csg`, `csg_format`, `csg_tree`, `csg_object`, `csg_gpu`: CSG trees, their
  digit-tagged byte format, boolean combination of objects, and the heap
  layout the GPU walks.
- `winged_edge*`: winged-edge topology of cubes, cylinders, cones and
  spheres, neighbourhood queries, highlighting and the triangle fans that
  draw the faces.
- `mesh_indices`: triangle indices of the primitive meshes.
- `scene_objects`, `scene_input`, `ui_types`, `opengl`: the scene's object
  lists, input rules, and the handles of shaders, programs and buffers.

The program (`app/`) does what needs floating point, OpenGL, SDL2, egui,
file dialogs and files: geometry of vertices and boxes, drawing, the event
loop and the user interface.
