use geomodel::opengl::ProgramType;
use geomodel::ui_types::{EventResult, ObjectType, OctreePrimitive, Projection, UITab};

#[test]
fn octree_creation_needs_a_file_only_for_loaded_kinds() {
    for p in [OctreePrimitive::Cube, OctreePrimitive::Sphere, OctreePrimitive::Cylinder, OctreePrimitive::Cone] {
        assert!(p.can_create(false));
        assert!(p.can_create(true));
    }
    for p in [OctreePrimitive::Mesh, OctreePrimitive::Generic] {
        assert!(!p.can_create(false));
        assert!(p.can_create(true));
    }
}

#[test]
fn enum_values_are_distinct() {
    assert_ne!(UITab::Objects, UITab::Properties);
    assert_ne!(ObjectType::Octree, ObjectType::CSG);
    assert_ne!(ObjectType::CSG, ObjectType::WingedEdge);
    assert_ne!(EventResult::Continue, EventResult::Quit);
    assert_ne!(Projection::Perspective, Projection::Orthographic);
}

#[test]
fn octrees_are_drawn_instanced() {
    assert_eq!(ObjectType::Octree.program_type(), ProgramType::Instanced);
    assert_eq!(ObjectType::CSG.program_type(), ProgramType::Common);
    assert_eq!(ObjectType::WingedEdge.program_type(), ProgramType::Common);
}
