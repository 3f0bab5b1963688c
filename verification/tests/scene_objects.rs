use geomodel::opengl::ProgramType;
use geomodel::scene_objects::SceneObjects;

#[test]
fn objects_are_listed_per_program() {
    let mut scene: SceneObjects<&str> = SceneObjects::new();
    scene.add_object(ProgramType::Common, 7, "mesh");
    scene.add_object(ProgramType::Instanced, 9, "octree");
    scene.add_object(ProgramType::Common, 3, "brep");
    assert_eq!(scene.objects[0], vec![7, 3]);
    assert_eq!(scene.objects[1], vec![9]);
    assert_eq!(scene.objects_by_id.get(&9), Some(&"octree"));
    assert_eq!(scene.objects_by_id.len(), 3);
}

#[test]
fn removing_undoes_adding() {
    let mut scene: SceneObjects<u32> = SceneObjects::new();
    scene.add_object(ProgramType::Common, 1, 10);
    scene.add_object(ProgramType::Instanced, 2, 20);
    scene.add_object(ProgramType::Instanced, 5, 50);
    assert_eq!(scene.remove_object(5), Some(50));
    assert_eq!(scene.objects[0], vec![1]);
    assert_eq!(scene.objects[1], vec![2]);
    assert_eq!(scene.objects_by_id.len(), 2);
}

#[test]
fn removing_an_unknown_object_changes_nothing() {
    let mut scene: SceneObjects<u32> = SceneObjects::new();
    scene.add_object(ProgramType::Common, 1, 10);
    assert_eq!(scene.remove_object(4), None);
    assert_eq!(scene.objects[0], vec![1]);
    assert!(scene.objects[1].is_empty());
}

#[test]
fn a_repeated_identifier_leaves_one_entry_in_the_lists() {
    let mut scene: SceneObjects<u32> = SceneObjects::new();
    scene.add_object(ProgramType::Common, 1, 10);
    scene.add_object(ProgramType::Instanced, 1, 11);
    assert_eq!(scene.objects_by_id.get(&1), Some(&11));
    assert_eq!(scene.remove_object(1), Some(11));
    assert!(scene.objects[0].is_empty());
    assert_eq!(scene.objects[1], vec![1]);
    assert_eq!(scene.remove_object(1), None);
}
