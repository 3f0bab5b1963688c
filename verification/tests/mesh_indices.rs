use geomodel::mesh_indices::{cone_mesh_indices, cylinder_mesh_indices, join_model_indices, sphere_mesh_indices};

#[test]
fn cone_mesh_triangles() {
    let idx = cone_mesh_indices(3);
    assert_eq!(idx, vec![0, 1, 2, 0, 2, 3, 0, 3, 4, 6, 7, 8, 8, 9, 10, 10, 11, 12]);
    let vertex_count = 3 * 3 + 4;
    assert!(idx.iter().all(|&k| k < vertex_count));
    assert_eq!(cone_mesh_indices(0), Vec::<usize>::new());
}

#[test]
fn cylinder_mesh_triangles() {
    let idx = cylinder_mesh_indices(2);
    assert_eq!(idx.len(), 3 * (4 * 2 + 4));
    assert_eq!(&idx[0..9], &[0, 2, 1, 0, 3, 2, 0, 3, 1]);
    assert_eq!(&idx[9..18], &[4, 5, 6, 4, 6, 7, 4, 5, 7]);
    assert_eq!(&idx[18..30], &[9, 8, 11, 8, 10, 11, 11, 10, 13, 10, 12, 13]);
    assert_eq!(&idx[30..36], &[9, 10, 9, 9, 10, 10]);
    assert!(idx.iter().all(|&k| k < 4 * 2 + 6));
}

#[test]
fn sphere_mesh_triangles() {
    let idx = sphere_mesh_indices(0);
    assert_eq!(idx.len(), 3 * 12);
    assert_eq!(&idx[0..6], &[0, 1, 2, 2, 1, 3]);
    assert_eq!(&idx[6..12], &[4, 5, 6, 6, 5, 7]);
    let idx = sphere_mesh_indices(2);
    assert_eq!(idx.len(), 3 * 12 * 9);
    assert_eq!(&idx[6..12], &[1, 2, 5, 5, 2, 6]);
    assert!(idx.iter().all(|&k| k < 6 * 16));
    assert_eq!(*idx.iter().max().unwrap(), 6 * 16 - 1);
}

#[test]
fn models_join_into_one_mesh() {
    let counts = [3usize, 4, 2];
    let models = vec![vec![0u32, 1, 2], vec![0, 2, 3, 3, 1, 0], vec![1, 0, 1]];
    assert_eq!(join_model_indices(&counts, &models), vec![0, 1, 2, 3, 5, 6, 6, 4, 3, 8, 7, 8]);
    assert_eq!(join_model_indices(&[], &[]), Vec::<usize>::new());
}
