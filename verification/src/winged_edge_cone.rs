use vstd::prelude::*;

use crate::winged_edge::{
    boundaries_chain, side_chains,
    drawable, face_cycle_len, face_walk_closes, gl_vertex_count, lemma_face_cycle_len, walk_closes_at,
    walk_edge, walk_step, Edge, Face, Vertex, WingedEdgeObject,
};
use crate::winged_edge_shapes::{has_topology, lemma_succ_mod, numbered_closed_surface, MAX_SUBDIVISIONS};
use vstd::arithmetic::div_mod::{lemma_mod_multiples_basic, lemma_small_mod};

verus! {

// ---------------------------------------------------------------------------
// Cone
// ---------------------------------------------------------------------------
/// Vertex `k` of a cone of `n` sides: the tip, then the base ring `1..=n`;
/// each base vertex starts the base edge with number `2k - 1`.
pub open spec fn cone_vertex(k: int) -> Vertex {
    if k == 0 {
        Vertex { id: 0, _edge: 0 }
    } else {
        Vertex { id: k as usize, _edge: (2 * k - 1) as usize }
    }
}

/// Edge `k` of a cone of `n` sides: edge 0 joins the tip to base vertex 1;
/// the odd edge `2i - 1` goes around the base from vertex `i` (face 0 on its
/// clockwise side, side face `i` on the other); the even edge `2i` joins the
/// tip to base vertex `i + 1`, between side faces `i` and `i + 1`.
pub open spec fn cone_edge(n: int, k: int) -> Edge {
    if k == 0 {
        Edge {
            id: 0,
            vertex_start: 0,
            vertex_end: 1,
            face_clockwise: n as usize,
            face_counterclockwise: 1,
            next_edge_clockwise: (2 * n - 1) as usize,
            next_edge_counterclockwise: 2,
        }
    } else if k % 2 == 1 {
        let i = (k + 1) / 2;
        Edge {
            id: k as usize,
            vertex_start: i as usize,
            vertex_end: if i == n {
                1
            } else {
                (i + 1) as usize
            },
            face_clockwise: 0,
            face_counterclockwise: i as usize,
            next_edge_clockwise: if i == n {
                1
            } else {
                (2 * i + 1) as usize
            },
            next_edge_counterclockwise: (2 * i - 2) as usize,
        }
    } else {
        let i = k / 2;
        Edge {
            id: k as usize,
            vertex_start: 0,
            vertex_end: (i + 1) as usize,
            face_clockwise: i as usize,
            face_counterclockwise: (i + 1) as usize,
            next_edge_clockwise: (2 * i - 1) as usize,
            next_edge_counterclockwise: if i + 1 == n {
                0
            } else {
                (2 * i + 2) as usize
            },
        }
    }
}

/// Face `k` of a cone of `n` sides: the base, then the sides.
pub open spec fn cone_face(n: int, k: int) -> Face {
    if k == 0 {
        Face { id: 0, edge: 1 }
    } else if k == n {
        Face { id: n as usize, edge: 0 }
    } else {
        Face { id: k as usize, edge: (2 * k) as usize }
    }
}

pub open spec fn cone_edges(n: int) -> Seq<Edge> {
    Seq::new((2 * n) as nat, |k: int| cone_edge(n, k))
}

pub open spec fn cone_faces(n: int) -> Seq<Face> {
    Seq::new((n + 1) as nat, |k: int| cone_face(n, k))
}

impl WingedEdgeObject {
    /// The topology of a cone with `subdivisions` sides.
    pub fn new_cone(name: String, subdivisions: usize) -> (object: Self)
        requires
            1 <= subdivisions <= MAX_SUBDIVISIONS,
        ensures
            has_topology(
                object,
                name@,
                Seq::new((subdivisions + 1) as nat, |k: int| cone_vertex(k)),
                cone_edges(subdivisions as int),
                cone_faces(subdivisions as int),
            ),
            numbered_closed_surface(object),
    {
        let n = subdivisions;
        let mut object = WingedEdgeObject::new(name);
        let mut vertices: Vec<Vertex> = Vec::new();
        let mut edges: Vec<Edge> = Vec::new();
        let mut faces: Vec<Face> = Vec::new();

        let tip_vertex = Vertex { id: 0, _edge: 0 };
        vertices.push(tip_vertex);
        let first_base_vertex = Vertex { id: 1, _edge: 1 };
        vertices.push(first_base_vertex);

        let first_edge = Edge {
            id: 0,
            vertex_start: 0,
            vertex_end: 1,
            face_clockwise: n,
            face_counterclockwise: 1,
            next_edge_clockwise: 2 * n - 1,
            next_edge_counterclockwise: 2,
        };
        edges.push(first_edge);

        let base_face = Face { id: 0, edge: 1 };
        faces.push(base_face);

        let mut i: usize = 1;
        while i <= n
            invariant
                n == subdivisions,
                1 <= n <= MAX_SUBDIVISIONS,
                1 <= i <= n + 1,
                first_edge == cone_edge(n as int, 0),
                vertices@ =~= Seq::new((if i <= n { i + 1 } else { n + 1 }) as nat, |k: int| cone_vertex(k)),
                edges@ =~= Seq::new((if i <= n { 2 * i - 1 } else { 2 * n }) as nat, |k: int| cone_edge(n as int, k)),
                faces@ =~= Seq::new(i as nat, |k: int| cone_face(n as int, k)),
            decreases n + 1 - i,
        {
            let vertex = if i == n {
                vertices[1]
            } else {
                let vertex = Vertex { id: i + 1, _edge: ((i % n) + 1) * 2 - 1 };
                proof {
                    lemma_small_mod(i as nat, n as nat);
                }
                vertices.push(vertex);
                vertex
            };
            proof {
                lemma_succ_mod(i as int - 1, n as int);
                if i < n {
                    lemma_small_mod(i as nat, n as nat);
                    lemma_succ_mod(i as int, n as int);
                } else {
                    lemma_mod_multiples_basic(1, n as int);
                    assert(1 * n == n);
                }
            }
            let base_edge = Edge {
                id: i * 2 - 1,
                vertex_start: i,
                vertex_end: vertex.id,
                face_clockwise: 0,
                face_counterclockwise: i,
                next_edge_clockwise: (i % n) * 2 + 1,
                next_edge_counterclockwise: i * 2 - 2,
            };
            assert(base_edge == cone_edge(n as int, 2 * i - 1));
            edges.push(base_edge);

            let lateral_edge = if i == n {
                first_edge
            } else {
                let edge = Edge {
                    id: i * 2,
                    vertex_start: 0,
                    vertex_end: vertex.id,
                    face_clockwise: i,
                    face_counterclockwise: (i % n) + 1,
                    next_edge_clockwise: i * 2 - 1,
                    next_edge_counterclockwise: ((i + 1) % n) * 2,
                };
                assert(edge == cone_edge(n as int, 2 * i));
                edges.push(edge);
                edge
            };

            let lateral_face = Face { id: i, edge: lateral_edge.id };
            assert(lateral_face == cone_face(n as int, i as int));
            faces.push(lateral_face);
            i += 1;
        }
        assert(vertices@ =~= Seq::new((subdivisions + 1) as nat, |k: int| cone_vertex(k)));
        assert(edges@ =~= cone_edges(n as int));
        assert(faces@ =~= cone_faces(n as int));
        object.vertices = vertices;
        object.edges = edges;
        object.faces = faces;
        object
    }
}

/// Around side face `i` of a cone: the edge from the tip to base vertex
/// `i + 1`, the base edge `i`, the edge from the tip to base vertex `i`.
proof fn lemma_cone_side_walk(n: int, i: int)
    requires
        2 <= n <= MAX_SUBDIVISIONS,
        1 <= i <= n,
    ensures
        ({
            let e = cone_edges(n);
            let f = cone_faces(n)[i];
            &&& f.id == i
            &&& walk_edge(e, f.id, f.edge, 1) == 2 * i - 1
            &&& walk_edge(e, f.id, f.edge, 2) == 2 * i - 2
            &&& walk_edge(e, f.id, f.edge, 3) == f.edge
            &&& f.edge == if i == n { 0 } else { 2 * i }
        }),
{
    let e = cone_edges(n);
    let f = cone_faces(n)[i];
    assert((2 * i - 1) % 2 == 1);
    assert((2 * i - 1 + 1) / 2 == i);
    if i >= 2 {
        assert((2 * i - 2) % 2 == 0);
        assert((2 * i - 2) / 2 == i - 1);
    }
    if i < n {
        assert((2 * i) % 2 == 0);
        assert((2 * i) / 2 == i);
    }
    assert(walk_edge(e, f.id, f.edge, 1) == walk_step(e, f.id, walk_edge(e, f.id, f.edge, 0)));
    assert(walk_edge(e, f.id, f.edge, 2) == walk_step(e, f.id, walk_edge(e, f.id, f.edge, 1)));
    assert(walk_edge(e, f.id, f.edge, 3) == walk_step(e, f.id, walk_edge(e, f.id, f.edge, 2)));
}

proof fn lemma_cone_base_walk(n: int, k: nat)
    requires
        1 <= n <= MAX_SUBDIVISIONS,
        k <= n,
    ensures
        walk_edge(cone_edges(n), 0, 1, k) == if k == n {
            1
        } else {
            2 * k + 1
        },
    decreases k,
{
    if k > 0 {
        lemma_cone_base_walk(n, (k - 1) as nat);
        let j = 2 * (k - 1) + 1;
        assert(j % 2 == 1);
        assert((j + 1) / 2 == k);
    }
}

/// Every face of a cone of two or more sides is bounded by a closed cycle
/// of edges: the base by `n` edges, each side by three.
pub proof fn lemma_cone_faces_close(n: int)
    requires
        2 <= n <= MAX_SUBDIVISIONS,
    ensures
        forall|j: int|
            0 <= j < n + 1 ==> face_walk_closes(cone_edges(n), #[trigger] cone_faces(n)[j]) && face_cycle_len(
                cone_edges(n),
                cone_faces(n)[j],
            ) == if j == 0 {
                n
            } else {
                3
            },
{
    let e = cone_edges(n);
    assert forall|j: int| 0 <= j < n + 1 implies face_walk_closes(e, #[trigger] cone_faces(n)[j]) && face_cycle_len(
        e,
        cone_faces(n)[j],
    ) == if j == 0 {
        n
    } else {
        3
    } by {
        let f = cone_faces(n)[j];
        if j == 0 {
            assert forall|k: nat| k <= n implies #[trigger] walk_edge(e, 0, 1, k) == if k == n {
                1
            } else {
                2 * k + 1
            } by {
                lemma_cone_base_walk(n, k);
            }
            assert(walk_closes_at(e, f.id, f.edge, n as nat));
            lemma_face_cycle_len(e, f, n as nat);
        } else {
            lemma_cone_side_walk(n, j);
            assert forall|k: nat| k < 3 implies #[trigger] walk_edge(e, f.id, f.edge, k) < e.len() by {
                if k == 0 {
                }
            }
            assert(walk_closes_at(e, f.id, f.edge, 3));
            lemma_face_cycle_len(e, f, 3);
        }
    }
}

proof fn lemma_cone_gl_vertex_count(n: int, k: int)
    requires
        2 <= n <= MAX_SUBDIVISIONS,
        0 <= k <= n + 1,
    ensures
        gl_vertex_count(cone_edges(n), cone_faces(n), k) == if k == 0 {
            0
        } else {
            n + 2 + 5 * (k - 1)
        },
    decreases k,
{
    lemma_cone_faces_close(n);
    if k > 0 {
        lemma_cone_gl_vertex_count(n, k - 1);
        assert(cone_faces(n)[k - 1] == cone_faces(n)[k - 1]);
    }
}

/// A cone of three or more sides can be drawn: `build_opengl` accepts the
/// topology that `new_cone` builds.
pub proof fn lemma_cone_drawable(n: int)
    requires
        3 <= n <= MAX_SUBDIVISIONS,
    ensures
        drawable(cone_edges(n), cone_faces(n)),
{
    lemma_cone_faces_close(n);
    lemma_cone_gl_vertex_count(n, n + 1);
}


/// The edges of an `n`-sided cone join: the tip 0 to base vertex `i + 1`
/// (the even edge `2i`); base vertex `i` to the next base vertex around the
/// base (the odd edge `2i - 1`); and only the even edges leave the tip. So
/// every base vertex is joined to the tip by exactly one edge.
pub proof fn lemma_cone_edge_ends(n: int)
    requires
        1 <= n <= MAX_SUBDIVISIONS,
    ensures
        forall|i: int|
            0 <= i < n ==> (#[trigger] cone_edges(n)[2 * i]).vertex_start == 0 && cone_edges(n)[2 * i].vertex_end
                == i + 1,
        forall|i: int|
            1 <= i <= n ==> (#[trigger] cone_edges(n)[2 * i - 1]).vertex_start == i && cone_edges(n)[2 * i
                - 1].vertex_end == (if i == n {
                1
            } else {
                i + 1
            }),
        forall|k: int|
            0 <= k < 2 * n && (#[trigger] cone_edges(n)[k]).vertex_start == 0 ==> k % 2 == 0
                && cone_edges(n)[k].vertex_end == k / 2 + 1,
{
    assert forall|i: int| 0 <= i < n implies (#[trigger] cone_edges(n)[2 * i]).vertex_start == 0
        && cone_edges(n)[2 * i].vertex_end == i + 1 by {
        assert((2 * i) % 2 == 0 && (2 * i) / 2 == i);
    }
    assert forall|i: int| 1 <= i <= n implies (#[trigger] cone_edges(n)[2 * i - 1]).vertex_start == i
        && cone_edges(n)[2 * i - 1].vertex_end == (if i == n { 1 } else { i + 1 }) by {
        assert((2 * i - 1) % 2 == 1 && (2 * i - 1 + 1) / 2 == i);
    }
}

/// Both sides of edge `e` of a cone chain to the next edge.
proof fn lemma_cone_edge_chains(n: int, e: int)
    requires
        2 <= n <= MAX_SUBDIVISIONS,
        0 <= e < 2 * n,
    ensures
        side_chains(cone_edges(n), cone_edges(n)[e].face_clockwise, e),
        side_chains(cone_edges(n), cone_edges(n)[e].face_counterclockwise, e),
{
    let edges = cone_edges(n);
    let ed = cone_edge(n, e);
    assert(edges[e] == ed);
    let a = ed.next_edge_clockwise as int;
    let b = ed.next_edge_counterclockwise as int;
    if e == 0 {
    } else if e % 2 == 1 {
        let i = (e + 1) / 2;
        assert(e == 2 * i - 1);
        assert((2 * i - 2) % 2 == 0 && (2 * i - 2) / 2 == i - 1);
        assert((2 * i + 1) % 2 == 1 && (2 * i + 1 + 1) / 2 == i + 1);
    } else {
        let i = e / 2;
        assert(e == 2 * i);
        assert((2 * i - 1) % 2 == 1 && (2 * i - 1 + 1) / 2 == i);
        assert((2 * i + 2) % 2 == 0 && (2 * i + 2) / 2 == i + 1);
    }
    assert(0 <= a < 2 * n && 0 <= b < 2 * n);
    assert(edges[a] == cone_edge(n, a));
    assert(edges[b] == cone_edge(n, b));
}

/// Around every face of an `n`-sided cone with at least two sides, the
/// edges meet end to end (see `boundaries_chain`).
pub proof fn lemma_cone_boundaries_chain(n: int)
    requires
        2 <= n <= MAX_SUBDIVISIONS,
    ensures
        boundaries_chain(cone_edges(n)),
{
    let edges = cone_edges(n);
    assert forall|e: int| 0 <= e < edges.len() implies side_chains(edges, (#[trigger] edges[e]).face_clockwise, e)
        && side_chains(edges, edges[e].face_counterclockwise, e) by {
        lemma_cone_edge_chains(n, e);
    }
}

} // verus!
