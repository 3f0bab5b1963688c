use vstd::prelude::*;

use crate::opengl::ProgramType;

verus! {

/// The tabs of the side panel.
#[derive(Debug, Clone, Copy, PartialEq, Eq, Structural)]
pub enum UITab {
    Objects,
    Properties,
}

/// The kinds of object the scene can create and combine.
#[derive(Debug, Clone, Copy, PartialEq, Eq, Structural)]
pub enum ObjectType {
    Octree,
    CSG,
    WingedEdge,
}

/// The solids an octree object can be built from.
#[derive(Debug, Clone, Copy, PartialEq, Eq, Structural)]
pub enum OctreePrimitive {
    Cube,
    Sphere,
    Cylinder,
    Cone,
    Mesh,
    Generic,
}

/// What handling an input event asks of the main loop: to go on, or to
/// quit.
#[derive(Debug, Clone, Copy, PartialEq, Eq, Structural)]
pub enum EventResult {
    Continue,
    Quit,
}

/// How the camera projects the scene.
#[derive(Debug, Clone, Copy, PartialEq, Eq, Structural)]
pub enum Projection {
    Perspective,
    Orthographic,
}

/// Whether an octree of the given kind is built from a file (a mesh or a
/// saved octree) rather than from dimensions.
pub open spec fn reads_file(primitive: OctreePrimitive) -> bool {
    primitive == OctreePrimitive::Mesh || primitive == OctreePrimitive::Generic
}

impl ObjectType {
    /// The program that draws objects of this kind: octrees are drawn as
    /// instanced cubes, the other kinds one mesh at a time.
    pub fn program_type(&self) -> (t: ProgramType)
        ensures
            t == (if *self == ObjectType::Octree { ProgramType::Instanced } else { ProgramType::Common }),
    {
        match self {
            ObjectType::Octree => ProgramType::Instanced,
            _ => ProgramType::Common,
        }
    }
}

impl OctreePrimitive {
    /// Whether the creation of an octree of this kind can go ahead: kinds
    /// built from dimensions always can; kinds read from a file once a file
    /// is chosen.
    pub fn can_create(&self, has_file: bool) -> (ok: bool)
        ensures
            ok == (!reads_file(*self) || has_file),
    {
        match self {
            OctreePrimitive::Mesh | OctreePrimitive::Generic => has_file,
            _ => true,
        }
    }
}

} // verus!
