use geomodel::winged_edge::{Edge, Face, MemberType, WingedEdgeObject};

fn sorted(mut v: Vec<usize>) -> Vec<usize> {
    v.sort();
    v
}

fn check_numbering(o: &WingedEdgeObject) {
    for (k, v) in o.vertices.iter().enumerate() {
        assert_eq!(v.id, k);
    }
    for (k, e) in o.edges.iter().enumerate() {
        assert_eq!(e.id, k);
    }
    for (k, f) in o.faces.iter().enumerate() {
        assert_eq!(f.id, k);
    }
    assert_eq!(o.vertices.len() + o.faces.len(), o.edges.len() + 2);
}

#[test]
fn empty_object() {
    let o = WingedEdgeObject::new(String::from("empty"));
    assert_eq!(o.name, "empty");
    assert!(o.vertices.is_empty() && o.edges.is_empty() && o.faces.is_empty());
    assert!(o.face_index_ranges.is_empty());
    assert_eq!(uuid::Uuid::from_u128(o.id).get_version_num(), 4);
}

#[test]
fn cube_faces_in_order() {
    let cube = WingedEdgeObject::new_cube(String::from("cube"));
    assert_eq!((cube.vertices.len(), cube.edges.len(), cube.faces.len()), (8, 12, 6));
    check_numbering(&cube);
    assert_eq!(cube.faces[0].get_neighbors_vertices_in_order(&cube), vec![0, 1, 2, 3]);
    assert_eq!(cube.faces[0].get_neighbors_edges_in_order(&cube), vec![0, 1, 2, 3]);
    assert_eq!(cube.faces[2].get_neighbors_vertices_in_order(&cube), vec![0, 3, 5, 4]);
    assert_eq!(cube.faces[2].get_neighbors_edges_in_order(&cube), vec![3, 9, 4, 8]);
    for f in cube.faces.iter() {
        assert_eq!(f.get_neighbors_vertices_in_order(&cube).len(), 4);
    }
}

#[test]
fn cube_neighbors() {
    let cube = WingedEdgeObject::new_cube(String::from("cube"));
    let n = cube.vertices[0].get_neighbors(&cube);
    assert_eq!(n.vertices, vec![0, 1, 3, 4]);
    assert_eq!(n.edges, vec![0, 3, 8]);
    assert_eq!(sorted(n.faces), vec![0, 2, 5]);

    let n = cube.edges[0].get_neighbors(&cube);
    assert_eq!(n.vertices, vec![0, 1]);
    assert_eq!(n.faces, vec![0, 5]);
    assert_eq!(n.edges, vec![1, 3, 8, 11, 0]);

    let n = cube.faces[0].get_neighbors(&cube);
    assert_eq!(n.edges, vec![0, 1, 2, 3]);
    assert_eq!(sorted(n.vertices), vec![0, 1, 2, 3]);
    assert_eq!(sorted(n.faces), vec![0, 2, 3, 4, 5]);
}

#[test]
fn cube_highlight_counts() {
    let mut cube = WingedEdgeObject::new_cube(String::from("cube"));
    cube.highlight_member(MemberType::Vertex, 0);
    assert_eq!(cube.highlighted_vertices, vec![0, 1, 3, 4]);
    assert_eq!(cube.highlighted_edges, vec![0, 3, 8]);
    assert_eq!(cube.highlight_count_lines, 6);
    assert_eq!(cube.highlight_count_points, 4);

    cube.highlight_member(MemberType::Face, 1);
    assert_eq!(cube.highlight_count_lines, 8);
    assert_eq!(cube.highlight_count_points, 4);
    assert_eq!(sorted(cube.highlighted_faces.clone()), vec![1, 2, 3, 4, 5]);

    cube.highlight_member(MemberType::Edge, 5);
    assert_eq!(cube.highlight_count_lines, 10);
    assert_eq!(cube.highlight_count_points, 2);
}

#[test]
fn cube_triangle_fans() {
    let mut cube = WingedEdgeObject::new_cube(String::from("cube"));
    cube.build_opengl();
    assert_eq!(cube.opengl_indices.len(), 72);
    assert_eq!(&cube.opengl_indices[0..12], &[0, 2, 1, 0, 3, 2, 0, 4, 3, 0, 5, 4]);
    assert_eq!(&cube.opengl_indices[12..15], &[6, 8, 7]);
    for k in 0..6usize {
        assert_eq!(cube.face_index_ranges.get(&k), Some(&(12 * k, 12)));
    }
}

#[test]
fn cylinder_counts() {
    let mut c = WingedEdgeObject::new_cylinder(String::from("cyl"), 6);
    assert_eq!((c.vertices.len(), c.edges.len(), c.faces.len()), (12, 18, 8));
    check_numbering(&c);
    c.build_opengl();
    let top = c.faces[0].get_neighbors_vertices_in_order(&c);
    assert_eq!(top.len(), 6);
    for f in c.faces.iter().skip(2) {
        assert_eq!(f.get_neighbors_vertices_in_order(&c).len(), 4);
    }
}

#[test]
fn cone_counts() {
    let mut c = WingedEdgeObject::new_cone(String::from("cone"), 5);
    assert_eq!((c.vertices.len(), c.edges.len(), c.faces.len()), (6, 10, 6));
    check_numbering(&c);
    c.build_opengl();
    let sides = c.faces.iter().filter(|f| f.get_neighbors_vertices_in_order(&c).len() == 3).count();
    assert_eq!(sides, 5);
}

#[test]
fn sphere_counts() {
    let mut s = WingedEdgeObject::new_sphere(String::from("ball"), 4);
    assert_eq!((s.vertices.len(), s.edges.len(), s.faces.len()), (14, 28, 16));
    check_numbering(&s);
    s.build_opengl();
    let triangles = s.faces.iter().filter(|f| f.get_neighbors_vertices_in_order(&s).len() == 3).count();
    let quads = s.faces.iter().filter(|f| f.get_neighbors_vertices_in_order(&s).len() == 4).count();
    assert_eq!((triangles, quads), (8, 8));
}

#[test]
fn highlighted_faces_draw_their_ranges() {
    let mut cube = WingedEdgeObject::new_cube(String::from("cube"));
    cube.highlight_member(MemberType::Face, 0);
    assert!(cube.highlighted_face_ranges().is_empty());
    cube.build_opengl();
    cube.highlight_member(MemberType::Edge, 0);
    assert_eq!(cube.highlighted_face_ranges(), vec![(0, 12), (60, 12)]);
}

#[test]
fn triangle_fans_name_existing_drawing_vertices() {
    let mut sphere = WingedEdgeObject::new_sphere(String::from("ball"), 3);
    sphere.build_opengl();
    let drawing_vertices: usize =
        sphere.faces.iter().map(|f| f.get_neighbors_vertices_in_order(&sphere).len() + 2).sum();
    assert!(sphere.opengl_indices.iter().all(|&i| (i as usize) < drawing_vertices));
    assert_eq!(*sphere.opengl_indices.iter().max().unwrap() as usize, drawing_vertices - 1);
}

#[test]
fn face_walks_and_drawability_are_checked() {
    let cube = WingedEdgeObject::new_cube(String::from("cube"));
    assert!(cube.faces.iter().all(|f| f.walk_closes(&cube)));
    assert!(cube.is_drawable());
    let sphere = WingedEdgeObject::new_sphere(String::from("ball"), 3);
    assert!(sphere.faces.iter().all(|f| f.walk_closes(&sphere)));
    assert!(sphere.is_drawable());
    assert!(WingedEdgeObject::new(String::from("empty")).is_drawable());

    let mut off_the_end = WingedEdgeObject::new_cube(String::from("cube"));
    off_the_end.edges[1].next_edge_clockwise = 1000;
    off_the_end.edges[1].next_edge_counterclockwise = 1000;
    assert!(!off_the_end.faces[0].walk_closes(&off_the_end));
    assert!(!off_the_end.is_drawable());

    let mut stuck = WingedEdgeObject::new_cube(String::from("cube"));
    stuck.edges[1].next_edge_clockwise = 1;
    stuck.edges[1].next_edge_counterclockwise = 1;
    assert!(!stuck.faces[0].walk_closes(&stuck));
    assert!(!stuck.is_drawable());

    let mut two_sided = WingedEdgeObject::new(String::from("lens"));
    two_sided.edges.push(Edge {
        id: 0,
        vertex_start: 0,
        vertex_end: 1,
        face_clockwise: 0,
        face_counterclockwise: 0,
        next_edge_clockwise: 1,
        next_edge_counterclockwise: 1,
    });
    two_sided.edges.push(Edge {
        id: 1,
        vertex_start: 1,
        vertex_end: 0,
        face_clockwise: 0,
        face_counterclockwise: 0,
        next_edge_clockwise: 0,
        next_edge_counterclockwise: 0,
    });
    two_sided.faces.push(Face { id: 0, edge: 0 });
    assert!(two_sided.faces[0].walk_closes(&two_sided));
    assert_eq!(two_sided.faces[0].get_neighbors_vertices_in_order(&two_sided), vec![0, 1]);
    assert!(!two_sided.is_drawable());
}
