use vstd::prelude::*;

use crate::winged_edge::{
    boundaries_chain, side_chains,
    drawable, face_cycle_len, face_walk_closes, gl_vertex_count, lemma_face_cycle_len, walk_closes_at,
    walk_edge, walk_step, Edge, Face, Vertex, WingedEdgeObject,
};
use crate::winged_edge_shapes::{has_topology, lemma_succ_mod, numbered_closed_surface, ring_next, ring_prev, MAX_SUBDIVISIONS};

verus! {

// ---------------------------------------------------------------------------
// Cylinder
// ---------------------------------------------------------------------------
/// Vertex `k` of a cylinder of `n` sides: the top ring is `0..n`, the bottom
/// ring `n..2n`; each vertex starts the edge with its own number.
pub open spec fn cylinder_vertex(k: int) -> Vertex {
    Vertex { id: k as usize, _edge: k as usize }
}

/// Edge `k` of a cylinder of `n` sides: `0..n` go around the top (face 0),
/// `n..2n` around the bottom (face 1), `2n..3n` join the rings; side face
/// `i + 2` lies between the joins `i` and `i + 1`.
pub open spec fn cylinder_edge(n: int, k: int) -> Edge {
    if k < n {
        let i = k;
        Edge {
            id: k as usize,
            vertex_start: i as usize,
            vertex_end: ring_next(i, n) as usize,
            face_clockwise: (i + 2) as usize,
            face_counterclockwise: 0,
            next_edge_clockwise: (ring_next(i, n) + 2 * n) as usize,
            next_edge_counterclockwise: ring_prev(i, n) as usize,
        }
    } else if k < 2 * n {
        let i = k - n;
        Edge {
            id: k as usize,
            vertex_start: (i + n) as usize,
            vertex_end: (ring_next(i, n) + n) as usize,
            face_clockwise: 1,
            face_counterclockwise: (i + 2) as usize,
            next_edge_clockwise: (ring_next(i, n) + n) as usize,
            next_edge_counterclockwise: (i + 2 * n) as usize,
        }
    } else {
        let i = k - 2 * n;
        Edge {
            id: k as usize,
            vertex_start: i as usize,
            vertex_end: (i + n) as usize,
            face_clockwise: (ring_prev(i, n) + 2) as usize,
            face_counterclockwise: (i + 2) as usize,
            next_edge_clockwise: (ring_prev(i, n) + n) as usize,
            next_edge_counterclockwise: i as usize,
        }
    }
}

/// Face `k` of a cylinder of `n` sides: the top, the bottom, then the sides.
pub open spec fn cylinder_face(n: int, k: int) -> Face {
    if k == 0 {
        Face { id: 0, edge: 0 }
    } else if k == 1 {
        Face { id: 1, edge: n as usize }
    } else {
        Face { id: k as usize, edge: (k - 2 + 2 * n) as usize }
    }
}

pub open spec fn cylinder_edges(n: int) -> Seq<Edge> {
    Seq::new((3 * n) as nat, |k: int| cylinder_edge(n, k))
}

pub open spec fn cylinder_faces(n: int) -> Seq<Face> {
    Seq::new((n + 2) as nat, |k: int| cylinder_face(n, k))
}

proof fn lemma_cylinder_top_walk(n: int, k: nat)
    requires
        1 <= n <= MAX_SUBDIVISIONS,
        k <= n,
    ensures
        walk_edge(cylinder_edges(n), 0, 0, k) == if k == 0 || k == n {
            0
        } else {
            n - k
        },
    decreases k,
{
    if k > 0 {
        lemma_cylinder_top_walk(n, (k - 1) as nat);
    }
}

proof fn lemma_cylinder_bottom_walk(n: int, k: nat)
    requires
        1 <= n <= MAX_SUBDIVISIONS,
        k <= n,
    ensures
        walk_edge(cylinder_edges(n), 1, n as usize, k) == if k == n {
            n
        } else {
            n + k
        },
    decreases k,
{
    if k > 0 {
        lemma_cylinder_bottom_walk(n, (k - 1) as nat);
    }
}

/// Around side face `i + 2` of a cylinder: the join `i`, the top edge `i`,
/// the join after it, the bottom edge `i`, and back; with a single side, the
/// join and the bottom edge.
proof fn lemma_cylinder_side_walk(n: int, i: int)
    requires
        1 <= n <= MAX_SUBDIVISIONS,
        0 <= i < n,
    ensures
        n >= 2 ==> walk_edge(cylinder_edges(n), (i + 2) as usize, (2 * n + i) as usize, 1) == i,
        n >= 2 ==> walk_edge(cylinder_edges(n), (i + 2) as usize, (2 * n + i) as usize, 2) == 2 * n + ring_next(i, n),
        n == 1 ==> walk_edge(cylinder_edges(n), (i + 2) as usize, (2 * n + i) as usize, 1) == n + i,
        n == 1 ==> walk_edge(cylinder_edges(n), (i + 2) as usize, (2 * n + i) as usize, 2) == 2 * n + i,
        n >= 2 ==> walk_edge(cylinder_edges(n), (i + 2) as usize, (2 * n + i) as usize, 3) == n + i,
        n >= 2 ==> walk_edge(cylinder_edges(n), (i + 2) as usize, (2 * n + i) as usize, 4) == 2 * n + i,
{
    let e = cylinder_edges(n);
    let f = (i + 2) as usize;
    let s = (2 * n + i) as usize;
    assert(walk_edge(e, f, s, 1) == walk_step(e, f, walk_edge(e, f, s, 0)));
    assert(walk_edge(e, f, s, 2) == walk_step(e, f, walk_edge(e, f, s, 1)));
    assert(walk_edge(e, f, s, 3) == walk_step(e, f, walk_edge(e, f, s, 2)));
    assert(walk_edge(e, f, s, 4) == walk_step(e, f, walk_edge(e, f, s, 3)));
}

/// Every face of a cylinder is bounded by a closed cycle of edges: the top
/// and the bottom by `n` edges, each side by four (by two when there is a
/// single side).
pub proof fn lemma_cylinder_faces_close(n: int)
    requires
        1 <= n <= MAX_SUBDIVISIONS,
    ensures
        forall|j: int|
            0 <= j < n + 2 ==> face_walk_closes(cylinder_edges(n), #[trigger] cylinder_faces(n)[j])
                && face_cycle_len(cylinder_edges(n), cylinder_faces(n)[j]) == if j < 2 {
                n
            } else if n >= 2 {
                4
            } else {
                2
            },
{
    let e = cylinder_edges(n);
    assert forall|j: int| 0 <= j < n + 2 implies face_walk_closes(e, #[trigger] cylinder_faces(n)[j])
        && face_cycle_len(e, cylinder_faces(n)[j]) == if j < 2 {
        n
    } else if n >= 2 {
        4
    } else {
        2
    } by {
        let f = cylinder_faces(n)[j];
        if j == 0 {
            assert forall|k: nat| k <= n implies #[trigger] walk_edge(e, 0, 0, k) == if k == 0 || k == n {
                0
            } else {
                n - k
            } by {
                lemma_cylinder_top_walk(n, k);
            }
            assert(walk_closes_at(e, f.id, f.edge, n as nat));
            lemma_face_cycle_len(e, f, n as nat);
        } else if j == 1 {
            assert forall|k: nat| k <= n implies #[trigger] walk_edge(e, 1, n as usize, k) == if k == n {
                n
            } else {
                n + k
            } by {
                lemma_cylinder_bottom_walk(n, k);
            }
            assert(walk_closes_at(e, f.id, f.edge, n as nat));
            lemma_face_cycle_len(e, f, n as nat);
        } else {
            let i = j - 2;
            lemma_cylinder_side_walk(n, i);
            assert(f.id == (i + 2) as usize && f.edge == (2 * n + i) as usize);
            if n >= 2 {
                assert forall|k: nat| k < 4 implies #[trigger] walk_edge(e, f.id, f.edge, k) < e.len() by {
                    if k == 0 {
                    }
                }
                assert(walk_closes_at(e, f.id, f.edge, 4));
                lemma_face_cycle_len(e, f, 4);
            } else {
                assert(walk_closes_at(e, f.id, f.edge, 2));
                lemma_face_cycle_len(e, f, 2);
            }
        }
    }
}

proof fn lemma_cylinder_gl_vertex_count(n: int, k: int)
    requires
        2 <= n <= MAX_SUBDIVISIONS,
        0 <= k <= n + 2,
    ensures
        gl_vertex_count(cylinder_edges(n), cylinder_faces(n), k) == if k == 0 {
            0
        } else if k == 1 {
            n + 2
        } else {
            2 * n + 4 + 6 * (k - 2)
        },
    decreases k,
{
    lemma_cylinder_faces_close(n);
    if k > 0 {
        lemma_cylinder_gl_vertex_count(n, k - 1);
        assert(cylinder_faces(n)[k - 1] == cylinder_faces(n)[k - 1]);
    }
}

/// A cylinder of three or more sides can be drawn: `build_opengl` accepts
/// the topology that `new_cylinder` builds.
pub proof fn lemma_cylinder_drawable(n: int)
    requires
        3 <= n <= MAX_SUBDIVISIONS,
    ensures
        drawable(cylinder_edges(n), cylinder_faces(n)),
{
    lemma_cylinder_faces_close(n);
    lemma_cylinder_gl_vertex_count(n, n + 2);
}

impl WingedEdgeObject {
    /// The topology of a cylinder with `subdivisions` sides.
    pub fn new_cylinder(name: String, subdivisions: usize) -> (object: Self)
        requires
            1 <= subdivisions <= MAX_SUBDIVISIONS,
        ensures
            has_topology(
                object,
                name@,
                Seq::new((2 * subdivisions) as nat, |k: int| cylinder_vertex(k)),
                Seq::new((3 * subdivisions) as nat, |k: int| cylinder_edge(subdivisions as int, k)),
                Seq::new((subdivisions + 2) as nat, |k: int| cylinder_face(subdivisions as int, k)),
            ),
            numbered_closed_surface(object),
    {
        let n = subdivisions;
        let mut object = WingedEdgeObject::new(name);
        let mut vertices = vec![Vertex { id: 0, _edge: 0 }; 2 * n];
        let empty_edge = Edge {
            id: 0,
            vertex_start: 0,
            vertex_end: 0,
            face_clockwise: 0,
            face_counterclockwise: 0,
            next_edge_clockwise: 0,
            next_edge_counterclockwise: 0,
        };
        let mut edges = vec![empty_edge; 3 * n];
        let mut faces = vec![Face { id: 0, edge: 0 }; n + 2];

        let top_face = Face { id: 0, edge: 0 };
        let bottom_face = Face { id: 1, edge: n };
        faces.set(0, top_face);
        faces.set(1, bottom_face);

        let mut i: usize = 0;
        while i < n
            invariant
                n == subdivisions,
                1 <= n <= MAX_SUBDIVISIONS,
                0 <= i <= n,
                vertices@.len() == 2 * n,
                edges@.len() == 3 * n,
                faces@.len() == n + 2,
                faces@[0] == cylinder_face(n as int, 0),
                top_face == cylinder_face(n as int, 0),
                bottom_face == cylinder_face(n as int, 1),
                faces@[1] == cylinder_face(n as int, 1),
                forall|k: int|
                    0 <= k < 2 * n && (k < i || n <= k < n + i) ==> #[trigger] vertices@[k] == cylinder_vertex(k),
                forall|k: int|
                    0 <= k < 3 * n && (k < i || n <= k < n + i || 2 * n <= k < 2 * n + i) ==> #[trigger] edges@[k]
                        == cylinder_edge(n as int, k),
                forall|k: int| 2 <= k < i + 2 ==> #[trigger] faces@[k] == cylinder_face(n as int, k),
            decreases n - i,
        {
            proof {
                lemma_succ_mod(i as int, n as int);
            }
            let top_vertex = Vertex { id: i, _edge: i };
            let bottom_vertex = Vertex { id: i + n, _edge: i + n };
            vertices.set(i, top_vertex);
            vertices.set(i + n, bottom_vertex);

            let top_edge = Edge {
                id: i,
                vertex_start: i,
                vertex_end: (i + 1) % n,
                face_clockwise: i + 2,
                face_counterclockwise: top_face.id,
                next_edge_clockwise: ((i + 1) % n) + 2 * n,
                next_edge_counterclockwise: if i == 0 {
                    n - 1
                } else {
                    i - 1
                },
            };
            let bottom_edge = Edge {
                id: i + n,
                vertex_start: i + n,
                vertex_end: (i + 1) % n + n,
                face_clockwise: bottom_face.id,
                face_counterclockwise: i + 2,
                next_edge_clockwise: ((i + 1) % n) + n,
                next_edge_counterclockwise: i + 2 * n,
            };
            edges.set(i, top_edge);
            edges.set(i + n, bottom_edge);

            let lateral_edge = Edge {
                id: i + 2 * n,
                vertex_start: top_vertex.id,
                vertex_end: bottom_vertex.id,
                face_clockwise: if i == 0 {
                    n + 1
                } else {
                    i + 1
                },
                face_counterclockwise: i + 2,
                next_edge_clockwise: if i == 0 {
                    2 * n - 1
                } else {
                    n + i - 1
                },
                next_edge_counterclockwise: top_edge.id,
            };
            edges.set(i + 2 * n, lateral_edge);

            assert(top_edge == cylinder_edge(n as int, i as int));
            assert(bottom_edge == cylinder_edge(n as int, i + n));
            assert(lateral_edge == cylinder_edge(n as int, i + 2 * n));
            let lateral_face = Face { id: i + 2, edge: lateral_edge.id };
            faces.set(i + 2, lateral_face);
            i += 1;
        }
        assert(vertices@ =~= Seq::new((2 * n) as nat, |k: int| cylinder_vertex(k)));
        assert(edges@ =~= Seq::new((3 * n) as nat, |k: int| cylinder_edge(n as int, k)));
        assert(faces@ =~= Seq::new((n + 2) as nat, |k: int| cylinder_face(n as int, k)));
        object.vertices = vertices;
        object.edges = edges;
        object.faces = faces;
        object
    }
}


/// The edges of an `n`-sided cylinder join: the top ring, vertex `k` to
/// the next top vertex (edges `0..n`); the bottom ring, vertex `k` to the
/// next bottom vertex (edges `n..2n`); and each top vertex `i` to the bottom
/// vertex `i + n` right below it (edge `2n + i`), so that every top vertex is
/// joined to exactly one bottom vertex, the one below it.
pub proof fn lemma_cylinder_edge_ends(n: int)
    requires
        1 <= n <= MAX_SUBDIVISIONS,
    ensures
        forall|k: int|
            0 <= k < n ==> (#[trigger] cylinder_edges(n)[k]).vertex_start == k && cylinder_edges(n)[k].vertex_end == (
            if k + 1 == n {
                0
            } else {
                k + 1
            }),
        forall|k: int|
            n <= k < 2 * n ==> (#[trigger] cylinder_edges(n)[k]).vertex_start == k && cylinder_edges(n)[k].vertex_end
                == (if k + 1 == 2 * n {
                n
            } else {
                k + 1
            }),
        forall|i: int|
            0 <= i < n ==> (#[trigger] cylinder_edges(n)[2 * n + i]).vertex_start == i && cylinder_edges(n)[2 * n
                + i].vertex_end == i + n,
        forall|k: int|
            0 <= k < 3 * n && (#[trigger] cylinder_edges(n)[k]).vertex_start < n && cylinder_edges(n)[k].vertex_end
                >= n ==> k >= 2 * n && cylinder_edges(n)[k].vertex_end == cylinder_edges(n)[k].vertex_start + n,
{
}

/// Both sides of edge `e` of a cylinder chain to the next edge.
proof fn lemma_cylinder_edge_chains(n: int, e: int)
    requires
        2 <= n <= MAX_SUBDIVISIONS,
        0 <= e < 3 * n,
    ensures
        side_chains(cylinder_edges(n), cylinder_edges(n)[e].face_clockwise, e),
        side_chains(cylinder_edges(n), cylinder_edges(n)[e].face_counterclockwise, e),
{
    let edges = cylinder_edges(n);
    let ed = cylinder_edge(n, e);
    assert(edges[e] == ed);
    let a = ed.next_edge_clockwise as int;
    let b = ed.next_edge_counterclockwise as int;
    if e < n {
        assert(a == ring_next(e, n) + 2 * n);
        assert(edges[a] == cylinder_edge(n, a));
        assert(b == ring_prev(e, n));
        assert(edges[b] == cylinder_edge(n, b));
    } else if e < 2 * n {
        assert(edges[a] == cylinder_edge(n, a));
        assert(edges[b] == cylinder_edge(n, b));
    } else {
        assert(edges[a] == cylinder_edge(n, a));
        assert(edges[b] == cylinder_edge(n, b));
    }
}

/// Around every face of an `n`-sided cylinder with at least two sides, the
/// edges meet end to end (see `boundaries_chain`).
pub proof fn lemma_cylinder_boundaries_chain(n: int)
    requires
        2 <= n <= MAX_SUBDIVISIONS,
    ensures
        boundaries_chain(cylinder_edges(n)),
{
    let edges = cylinder_edges(n);
    assert forall|e: int| 0 <= e < edges.len() implies side_chains(edges, (#[trigger] edges[e]).face_clockwise, e)
        && side_chains(edges, edges[e].face_counterclockwise, e) by {
        lemma_cylinder_edge_chains(n, e);
    }
}

} // verus!
