use vstd::prelude::*;

use crate::winged_edge::{
    boundaries_chain, side_chains,
    drawable, face_cycle_len, face_walk_closes, gl_vertex_count, lemma_face_cycle_len, walk_closes_at,
    walk_edge, walk_step, Edge, Face, Vertex, WingedEdgeObject,
};
use crate::winged_edge_shapes::{has_topology, numbered_closed_surface};

verus! {

// ---------------------------------------------------------------------------
// Cube
// ---------------------------------------------------------------------------
/// The twelve edges of the cube: the back face (0) is bounded by edges 0-3,
/// the front face (1) by edges 4-7; then come the left (2), right (3), top
/// (4) and bottom (5) faces.
pub open spec fn cube_edges() -> Seq<Edge> {
    seq![
        Edge {
            id: 0,
            vertex_start: 0,
            vertex_end: 1,
            face_clockwise: 0,
            face_counterclockwise: 5,
            next_edge_clockwise: 1,
            next_edge_counterclockwise: 8,
        },
        Edge {
            id: 1,
            vertex_start: 1,
            vertex_end: 2,
            face_clockwise: 0,
            face_counterclockwise: 3,
            next_edge_clockwise: 2,
            next_edge_counterclockwise: 11,
        },
        Edge {
            id: 2,
            vertex_start: 2,
            vertex_end: 3,
            face_clockwise: 0,
            face_counterclockwise: 4,
            next_edge_clockwise: 3,
            next_edge_counterclockwise: 10,
        },
        Edge {
            id: 3,
            vertex_start: 3,
            vertex_end: 0,
            face_clockwise: 0,
            face_counterclockwise: 2,
            next_edge_clockwise: 0,
            next_edge_counterclockwise: 9,
        },
        Edge {
            id: 4,
            vertex_start: 4,
            vertex_end: 5,
            face_clockwise: 1,
            face_counterclockwise: 2,
            next_edge_clockwise: 5,
            next_edge_counterclockwise: 8,
        },
        Edge {
            id: 5,
            vertex_start: 5,
            vertex_end: 6,
            face_clockwise: 1,
            face_counterclockwise: 4,
            next_edge_clockwise: 6,
            next_edge_counterclockwise: 9,
        },
        Edge {
            id: 6,
            vertex_start: 6,
            vertex_end: 7,
            face_clockwise: 1,
            face_counterclockwise: 3,
            next_edge_clockwise: 7,
            next_edge_counterclockwise: 10,
        },
        Edge {
            id: 7,
            vertex_start: 7,
            vertex_end: 4,
            face_clockwise: 1,
            face_counterclockwise: 5,
            next_edge_clockwise: 4,
            next_edge_counterclockwise: 11,
        },
        Edge {
            id: 8,
            vertex_start: 4,
            vertex_end: 0,
            face_clockwise: 2,
            face_counterclockwise: 5,
            next_edge_clockwise: 3,
            next_edge_counterclockwise: 7,
        },
        Edge {
            id: 9,
            vertex_start: 3,
            vertex_end: 5,
            face_clockwise: 2,
            face_counterclockwise: 4,
            next_edge_clockwise: 4,
            next_edge_counterclockwise: 2,
        },
        Edge {
            id: 10,
            vertex_start: 6,
            vertex_end: 2,
            face_clockwise: 3,
            face_counterclockwise: 4,
            next_edge_clockwise: 1,
            next_edge_counterclockwise: 5,
        },
        Edge {
            id: 11,
            vertex_start: 1,
            vertex_end: 7,
            face_clockwise: 3,
            face_counterclockwise: 5,
            next_edge_clockwise: 6,
            next_edge_counterclockwise: 0,
        },
    ]
}

/// The six faces of the cube with the edge each starts from.
pub open spec fn cube_faces() -> Seq<Face> {
    seq![
        Face { id: 0, edge: 0 },
        Face { id: 1, edge: 4 },
        Face { id: 2, edge: 3 },
        Face { id: 3, edge: 1 },
        Face { id: 4, edge: 10 },
        Face { id: 5, edge: 11 },
    ]
}

/// The eight corners of the cube; each starts the edge with its own number.
pub open spec fn cube_vertices() -> Seq<Vertex> {
    Seq::new(8, |k: int| Vertex { id: k as usize, _edge: k as usize })
}

impl WingedEdgeObject {
    /// The topology of a cube.
    pub fn new_cube(name: String) -> (object: Self)
        ensures
            has_topology(object, name@, cube_vertices(), cube_edges(), cube_faces()),
            numbered_closed_surface(object),
    {
        let mut object = WingedEdgeObject::new(name);

        let mut vertices: Vec<Vertex> = Vec::new();
        let mut index: usize = 0;
        while index < 8
            invariant
                0 <= index <= 8,
                vertices@ =~= Seq::new(index as nat, |k: int| Vertex { id: k as usize, _edge: k as usize }),
            decreases 8 - index,
        {
            vertices.push(Vertex { id: index, _edge: index });
            index += 1;
        }

        let back_face = Face { id: 0, edge: 0 };
        let front_face = Face { id: 1, edge: 4 };
        let left_face = Face { id: 2, edge: 3 };
        let right_face = Face { id: 3, edge: 1 };
        let top_face = Face { id: 4, edge: 10 };
        let bottom_face = Face { id: 5, edge: 11 };

        let edges = vec![
            // Back face edges
            Edge {
                id: 0,
                vertex_start: 0,
                vertex_end: 1,
                face_clockwise: back_face.id,
                face_counterclockwise: bottom_face.id,
                next_edge_clockwise: 1,
                next_edge_counterclockwise: 8,
            },
            Edge {
                id: 1,
                vertex_start: 1,
                vertex_end: 2,
                face_clockwise: back_face.id,
                face_counterclockwise: right_face.id,
                next_edge_clockwise: 2,
                next_edge_counterclockwise: 11,
            },
            Edge {
                id: 2,
                vertex_start: 2,
                vertex_end: 3,
                face_clockwise: back_face.id,
                face_counterclockwise: top_face.id,
                next_edge_clockwise: 3,
                next_edge_counterclockwise: 10,
            },
            Edge {
                id: 3,
                vertex_start: 3,
                vertex_end: 0,
                face_clockwise: back_face.id,
                face_counterclockwise: left_face.id,
                next_edge_clockwise: 0,
                next_edge_counterclockwise: 9,
            },
            // Front face edges
            Edge {
                id: 4,
                vertex_start: 4,
                vertex_end: 5,
                face_clockwise: front_face.id,
                face_counterclockwise: left_face.id,
                next_edge_clockwise: 5,
                next_edge_counterclockwise: 8,
            },
            Edge {
                id: 5,
                vertex_start: 5,
                vertex_end: 6,
                face_clockwise: front_face.id,
                face_counterclockwise: top_face.id,
                next_edge_clockwise: 6,
                next_edge_counterclockwise: 9,
            },
            Edge {
                id: 6,
                vertex_start: 6,
                vertex_end: 7,
                face_clockwise: front_face.id,
                face_counterclockwise: right_face.id,
                next_edge_clockwise: 7,
                next_edge_counterclockwise: 10,
            },
            Edge {
                id: 7,
                vertex_start: 7,
                vertex_end: 4,
                face_clockwise: front_face.id,
                face_counterclockwise: bottom_face.id,
                next_edge_clockwise: 4,
                next_edge_counterclockwise: 11,
            },
            // Lateral faces edges
            Edge {
                id: 8,
                vertex_start: 4,
                vertex_end: 0,
                face_clockwise: left_face.id,
                face_counterclockwise: bottom_face.id,
                next_edge_clockwise: 3,
                next_edge_counterclockwise: 7,
            },
            Edge {
                id: 9,
                vertex_start: 3,
                vertex_end: 5,
                face_clockwise: left_face.id,
                face_counterclockwise: top_face.id,
                next_edge_clockwise: 4,
                next_edge_counterclockwise: 2,
            },
            Edge {
                id: 10,
                vertex_start: 6,
                vertex_end: 2,
                face_clockwise: right_face.id,
                face_counterclockwise: top_face.id,
                next_edge_clockwise: 1,
                next_edge_counterclockwise: 5,
            },
            Edge {
                id: 11,
                vertex_start: 1,
                vertex_end: 7,
                face_clockwise: right_face.id,
                face_counterclockwise: bottom_face.id,
                next_edge_clockwise: 6,
                next_edge_counterclockwise: 0,
            },
        ];

        object.vertices = vertices;
        object.edges = edges;
        object.faces = vec![back_face, front_face, left_face, right_face, top_face, bottom_face];
        assert(object.edges@ =~= cube_edges());
        assert(object.faces@ =~= cube_faces());
        object
    }
}

/// Every face of the cube is bounded by a closed cycle of four edges, and
/// the cube can be drawn.
pub proof fn lemma_cube_faces_close()
    ensures
        forall|j: int|
            0 <= j < 6 ==> face_walk_closes(cube_edges(), #[trigger] cube_faces()[j]) && face_cycle_len(
                cube_edges(),
                cube_faces()[j],
            ) == 4,
        drawable(cube_edges(), cube_faces()),
{
    let e = cube_edges();
    assert forall|j: int| 0 <= j < 6 implies face_walk_closes(e, #[trigger] cube_faces()[j]) && face_cycle_len(
        e,
        cube_faces()[j],
    ) == 4 by {
        let f = cube_faces()[j];
        assert(walk_edge(e, f.id, f.edge, 1) == walk_step(e, f.id, walk_edge(e, f.id, f.edge, 0)));
        assert(walk_edge(e, f.id, f.edge, 2) == walk_step(e, f.id, walk_edge(e, f.id, f.edge, 1)));
        assert(walk_edge(e, f.id, f.edge, 3) == walk_step(e, f.id, walk_edge(e, f.id, f.edge, 2)));
        assert(walk_edge(e, f.id, f.edge, 4) == walk_step(e, f.id, walk_edge(e, f.id, f.edge, 3)));
        assert forall|k: nat| k < 4 implies #[trigger] walk_edge(e, f.id, f.edge, k) < e.len() by {
            if k == 0 {
            }
        }
        assert(walk_closes_at(e, f.id, f.edge, 4));
        lemma_face_cycle_len(e, f, 4);
    }
    assert(gl_vertex_count(e, cube_faces(), 6) == 36) by {
        let fs = cube_faces();
        assert(gl_vertex_count(e, fs, 0) == 0);
        assert(fs[0] == fs[0] && fs[1] == fs[1] && fs[2] == fs[2] && fs[3] == fs[3] && fs[4] == fs[4] && fs[5] == fs[5]);
        assert(gl_vertex_count(e, fs, 1) == 6);
        assert(gl_vertex_count(e, fs, 2) == 12);
        assert(gl_vertex_count(e, fs, 3) == 18);
        assert(gl_vertex_count(e, fs, 4) == 24);
        assert(gl_vertex_count(e, fs, 5) == 30);
    }
}


/// Around every face of the cube, the edges meet end to end (see
/// `boundaries_chain`).
pub proof fn lemma_cube_boundaries_chain()
    ensures
        boundaries_chain(cube_edges()),
{
    let edges = cube_edges();
    assert forall|e: int| 0 <= e < edges.len() implies side_chains(edges, (#[trigger] edges[e]).face_clockwise, e)
        && side_chains(edges, edges[e].face_counterclockwise, e) by {
        assert(0 <= e < 12);
        if e == 0 {} else if e == 1 {} else if e == 2 {} else if e == 3 {} else if e == 4 {} else if e == 5 {
        } else if e == 6 {} else if e == 7 {} else if e == 8 {} else if e == 9 {} else if e == 10 {} else {}
    }
}

} // verus!
