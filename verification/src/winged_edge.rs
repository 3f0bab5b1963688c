use std::collections::HashMap;
use vstd::prelude::*;

use crate::ids::{is_random_uuid, new_object_id};

verus! {

broadcast use vstd::std_specs::hash::group_hash_axioms;

/// Which kind of member of a winged-edge solid a query is about.
#[derive(Debug, Clone, Copy, PartialEq, Eq, Structural)]
pub enum MemberType {
    Vertex,
    Edge,
    Face,
}

/// The members adjacent to a member of a winged-edge solid.
pub struct Neighbors {
    pub vertices: Vec<usize>,
    pub edges: Vec<usize>,
    pub faces: Vec<usize>,
}

/// A vertex: its identifier and one of the edges that leave it.
#[derive(Debug, Clone, Copy, PartialEq, Eq, Structural)]
pub struct Vertex {
    pub id: usize,
    pub _edge: usize,
}

/// An edge, from `vertex_start` to `vertex_end`, between the face on its
/// clockwise side and the face on its counterclockwise side, with the edge
/// that follows it around each of the two faces.
#[derive(Debug, Clone, Copy, PartialEq, Eq, Structural)]
pub struct Edge {
    pub id: usize,
    pub vertex_start: usize,
    pub vertex_end: usize,
    pub face_clockwise: usize,
    pub face_counterclockwise: usize,
    pub next_edge_clockwise: usize,
    pub next_edge_counterclockwise: usize,
}

/// A face: its identifier and one edge of its boundary.
#[derive(Debug, Clone, Copy, PartialEq, Eq, Structural)]
pub struct Face {
    pub id: usize,
    pub edge: usize,
}

/// The topology of a solid in the winged-edge representation, with the
/// triangle indices that draw its faces and the members picked out for
/// highlighting.
pub struct WingedEdgeObject {
    pub id: u128,
    pub name: String,
    pub vertices: Vec<Vertex>,
    pub edges: Vec<Edge>,
    pub faces: Vec<Face>,
    pub opengl_indices: Vec<u32>,
    pub highlighted_vertices: Vec<usize>,
    pub highlighted_edges: Vec<usize>,
    pub highlighted_faces: Vec<usize>,
    pub face_index_ranges: HashMap<usize, (usize, i32)>,
    pub highlight_count_lines: i32,
    pub highlight_count_points: i32,
}

// ---------------------------------------------------------------------------
// Adjacency
// ---------------------------------------------------------------------------
pub open spec fn touches_vertex(e: Edge, v: usize) -> bool {
    e.vertex_start == v || e.vertex_end == v
}

pub open spec fn other_end(e: Edge, v: usize) -> usize {
    if e.vertex_start == v {
        e.vertex_end
    } else {
        e.vertex_start
    }
}

pub open spec fn borders_face(e: Edge, f: usize) -> bool {
    e.face_clockwise == f || e.face_counterclockwise == f
}

pub open spec fn other_face(e: Edge, f: usize) -> usize {
    if e.face_clockwise == f {
        e.face_counterclockwise
    } else {
        e.face_clockwise
    }
}

/// Two different edges that share an endpoint.
pub open spec fn adjacent_edges(e: Edge, other: Edge) -> bool {
    other.id != e.id && (other.vertex_start == e.vertex_start || other.vertex_start == e.vertex_end
        || other.vertex_end == e.vertex_start || other.vertex_end == e.vertex_end)
}

/// The edges among the first `k` of `edges` that touch vertex `v`, in order.
pub open spec fn edges_at_vertex(edges: Seq<Edge>, v: usize, k: int) -> Seq<Edge>
    decreases k,
{
    if 0 < k <= edges.len() {
        let rest = edges_at_vertex(edges, v, k - 1);
        if touches_vertex(edges[k - 1], v) {
            rest.push(edges[k - 1])
        } else {
            rest
        }
    } else {
        Seq::empty()
    }
}

/// The edges among the first `k` of `edges` that border face `f`, in order.
pub open spec fn edges_at_face(edges: Seq<Edge>, f: usize, k: int) -> Seq<Edge>
    decreases k,
{
    if 0 < k <= edges.len() {
        let rest = edges_at_face(edges, f, k - 1);
        if borders_face(edges[k - 1], f) {
            rest.push(edges[k - 1])
        } else {
            rest
        }
    } else {
        Seq::empty()
    }
}

/// The edges among the first `k` of `edges` adjacent to `e`, in order.
pub open spec fn edges_adjacent_to(edges: Seq<Edge>, e: Edge, k: int) -> Seq<Edge>
    decreases k,
{
    if 0 < k <= edges.len() {
        let rest = edges_adjacent_to(edges, e, k - 1);
        if adjacent_edges(e, edges[k - 1]) {
            rest.push(edges[k - 1])
        } else {
            rest
        }
    } else {
        Seq::empty()
    }
}

pub open spec fn ids_of(es: Seq<Edge>) -> Seq<usize> {
    es.map_values(|e: Edge| e.id)
}

pub open spec fn no_duplicates(s: Seq<usize>) -> bool {
    forall|i: int, j: int| 0 <= i < j < s.len() ==> s[i] != s[j]
}

fn vec_contains(v: &Vec<usize>, x: usize) -> (b: bool)
    ensures
        b == v@.contains(x),
{
    let mut i: usize = 0;
    while i < v.len()
        invariant
            0 <= i <= v.len(),
            forall|j: int| 0 <= j < i ==> v@[j] != x,
        decreases v.len() - i,
    {
        if v[i] == x {
            return true;
        }
        i += 1;
    }
    false
}

/// Adds `x` to a vector that holds each value once, unless it is there.
///
/// The neighbour sets are gathered in such vectors rather than in a
/// `HashSet`: what a query promises is the set of members, each once, and a
/// vector without repeats holds exactly that, in the order the members are
/// met, whereas the order in which a `HashSet` is walked into a list changes
/// from one process to the next.
fn push_unique(v: &mut Vec<usize>, x: usize)
    requires
        no_duplicates(old(v)@),
    ensures
        no_duplicates(final(v)@),
        final(v)@.to_set() == old(v)@.to_set().insert(x),
        old(v)@.contains(x) ==> final(v)@ == old(v)@,
        !old(v)@.contains(x) ==> final(v)@ == old(v)@.push(x),
{
    if !vec_contains(v, x) {
        v.push(x);
        assert(v@.to_set() =~= old(v)@.to_set().insert(x)) by {
            assert forall|y: usize| v@.to_set().contains(y) <==> old(v)@.to_set().insert(x).contains(y) by {
                if y != x && v@.contains(y) {
                    let j = choose|j: int| 0 <= j < v@.len() && v@[j] == y;
                    assert(old(v)@[j] == y);
                }
                if old(v)@.contains(y) {
                    let j = choose|j: int| 0 <= j < old(v)@.len() && old(v)@[j] == y;
                    assert(v@[j] == y);
                }
                if y == x {
                    assert(v@[v@.len() - 1] == x);
                }
            }
        }
    } else {
        assert(old(v)@.to_set().insert(x) =~= old(v)@.to_set());
    }
}

/// `vs`, `es`, `fs` are the neighbors of vertex `v`: the vertex itself
/// followed by the far end of each edge that touches it, the identifiers of
/// those edges in order, and the faces on either side of them, each once.
pub open spec fn is_vertex_neighborhood(edges: Seq<Edge>, v: usize, vs: Seq<usize>, es: Seq<usize>, fs: Seq<usize>) -> bool {
    let incident = edges_at_vertex(edges, v, edges.len() as int);
    &&& es == ids_of(incident)
    &&& vs == seq![v] + incident.map_values(|e: Edge| other_end(e, v))
    &&& no_duplicates(fs)
    &&& forall|f: usize|
        fs.contains(f) <==> exists|i: int|
            0 <= i < incident.len() && (#[trigger] incident[i]).face_clockwise == f || 0 <= i < incident.len()
                && incident[i].face_counterclockwise == f
}

/// `vs`, `es`, `fs` are the neighbors of edge `e`: its endpoints, the other
/// edges that share an endpoint with it followed by itself, and its faces.
pub open spec fn is_edge_neighborhood(edges: Seq<Edge>, e: Edge, vs: Seq<usize>, es: Seq<usize>, fs: Seq<usize>) -> bool {
    &&& vs == seq![e.vertex_start, e.vertex_end]
    &&& fs == seq![e.face_clockwise, e.face_counterclockwise]
    &&& es == ids_of(edges_adjacent_to(edges, e, edges.len() as int)).push(e.id)
}

/// `vs`, `es`, `fs` are the neighbors of face `f`: the endpoints of the
/// edges that border it (each once), those edges in order, and the faces
/// across them together with the face itself (each once).
pub open spec fn is_face_neighborhood(edges: Seq<Edge>, f: usize, vs: Seq<usize>, es: Seq<usize>, fs: Seq<usize>) -> bool {
    let bordering = edges_at_face(edges, f, edges.len() as int);
    &&& es == ids_of(bordering)
    &&& no_duplicates(vs)
    &&& forall|v: usize|
        vs.contains(v) <==> exists|i: int|
            0 <= i < bordering.len() && (#[trigger] bordering[i]).vertex_start == v || 0 <= i < bordering.len()
                && bordering[i].vertex_end == v
    &&& no_duplicates(fs)
    &&& forall|g: usize|
        fs.contains(g) <==> (g == f || exists|i: int|
            0 <= i < bordering.len() && other_face(#[trigger] bordering[i], f) == g)
}

impl Vertex {
    /// The vertex itself followed by the far end of each edge that touches
    /// it; those edges; and the faces on either side of them.
    pub fn get_neighbors(&self, object: &WingedEdgeObject) -> (n: Neighbors)
        ensures
            is_vertex_neighborhood(object.edges@, self.id, n.vertices@, n.edges@, n.faces@),
    {
        let ghost edges = object.edges@;
        let mut vertices: Vec<usize> = Vec::new();
        vertices.push(self.id);
        let mut edge_ids: Vec<usize> = Vec::new();
        let mut faces: Vec<usize> = Vec::new();
        let mut i: usize = 0;
        while i < object.edges.len()
            invariant
                0 <= i <= object.edges.len(),
                edges == object.edges@,
                edge_ids@ == ids_of(edges_at_vertex(edges, self.id, i as int)),
                vertices@ == seq![self.id] + edges_at_vertex(edges, self.id, i as int).map_values(
                    |e: Edge| other_end(e, self.id),
                ),
                no_duplicates(faces@),
                forall|f: usize|
                    faces@.contains(f) <==> exists|j: int|
                        0 <= j < edges_at_vertex(edges, self.id, i as int).len() && (#[trigger] edges_at_vertex(
                            edges,
                            self.id,
                            i as int,
                        )[j]).face_clockwise == f || 0 <= j < edges_at_vertex(edges, self.id, i as int).len()
                            && edges_at_vertex(edges, self.id, i as int)[j].face_counterclockwise == f,
            decreases object.edges.len() - i,
        {
            let edge = object.edges[i];
            let ghost before = edges_at_vertex(edges, self.id, i as int);
            let ghost old_faces = faces@;
            if edge.vertex_start == self.id || edge.vertex_end == self.id {
                let other = if edge.vertex_start == self.id {
                    edge.vertex_end
                } else {
                    edge.vertex_start
                };
                vertices.push(other);
                edge_ids.push(edge.id);
                push_unique(&mut faces, edge.face_clockwise);
                push_unique(&mut faces, edge.face_counterclockwise);
                let ghost after = edges_at_vertex(edges, self.id, i as int + 1);
                assert(after == before.push(edge));
                assert(ids_of(after) =~= ids_of(before).push(edge.id));
                assert(after.map_values(|e: Edge| other_end(e, self.id)) =~= before.map_values(
                    |e: Edge| other_end(e, self.id),
                ).push(other));
                assert forall|f: usize|
                    faces@.contains(f) <==> exists|j: int|
                        0 <= j < after.len() && (#[trigger] after[j]).face_clockwise == f || 0 <= j
                            < after.len() && after[j].face_counterclockwise == f by {
                    assert(faces@.contains(f) <==> faces@.to_set().contains(f));
                    assert(old_faces.contains(f) <==> old_faces.to_set().contains(f));
                    if f == edge.face_clockwise || f == edge.face_counterclockwise {
                        assert(after[after.len() - 1] == edge);
                    }
                    if exists|j: int|
                        0 <= j < after.len() && (#[trigger] after[j]).face_clockwise == f || 0 <= j
                            < after.len() && after[j].face_counterclockwise == f {
                        let j = choose|j: int|
                            0 <= j < after.len() && (#[trigger] after[j]).face_clockwise == f || 0 <= j
                                < after.len() && after[j].face_counterclockwise == f;
                        if j < before.len() {
                            assert(after[j] == before[j]);
                        }
                    }
                    if old_faces.contains(f) {
                        let j = choose|j: int|
                            0 <= j < before.len() && (#[trigger] before[j]).face_clockwise == f || 0 <= j
                                < before.len() && before[j].face_counterclockwise == f;
                        assert(after[j] == before[j]);
                    }
                }
            }
            i += 1;
        }
        assert(vertices@ == seq![self.id] + edges_at_vertex(edges, self.id, edges.len() as int).map_values(
            |e: Edge| other_end(e, self.id),
        ));
        Neighbors { vertices, edges: edge_ids, faces }
    }
}


impl Edge {
    /// Its two endpoints; the other edges that share an endpoint with it,
    /// followed by itself; and its two faces.
    pub fn get_neighbors(&self, object: &WingedEdgeObject) -> (n: Neighbors)
        ensures
            is_edge_neighborhood(object.edges@, *self, n.vertices@, n.edges@, n.faces@),
    {
        let ghost edges = object.edges@;
        let mut edge_ids: Vec<usize> = Vec::new();
        let mut i: usize = 0;
        while i < object.edges.len()
            invariant
                0 <= i <= object.edges.len(),
                edges == object.edges@,
                edge_ids@ == ids_of(edges_adjacent_to(edges, *self, i as int)),
            decreases object.edges.len() - i,
        {
            let e = object.edges[i];
            let ghost before = edges_adjacent_to(edges, *self, i as int);
            if e.id != self.id && (e.vertex_start == self.vertex_start || e.vertex_start == self.vertex_end
                || e.vertex_end == self.vertex_start || e.vertex_end == self.vertex_end) {
                edge_ids.push(e.id);
                assert(ids_of(before.push(e)) =~= ids_of(before).push(e.id));
            }
            i += 1;
        }
        edge_ids.push(self.id);
        let vertices = vec![self.vertex_start, self.vertex_end];
        let faces = vec![self.face_clockwise, self.face_counterclockwise];
        Neighbors { vertices, edges: edge_ids, faces }
    }
}

impl Face {
    /// The edges that border it; the endpoints of those edges; and the faces
    /// across those edges together with itself.
    pub fn get_neighbors(&self, object: &WingedEdgeObject) -> (n: Neighbors)
        ensures
            is_face_neighborhood(object.edges@, self.id, n.vertices@, n.edges@, n.faces@),
    {
        let ghost edges = object.edges@;
        let mut edge_ids: Vec<usize> = Vec::new();
        let mut vertices: Vec<usize> = Vec::new();
        let mut faces: Vec<usize> = Vec::new();
        let mut i: usize = 0;
        while i < object.edges.len()
            invariant
                0 <= i <= object.edges.len(),
                edges == object.edges@,
                edge_ids@ == ids_of(edges_at_face(edges, self.id, i as int)),
                no_duplicates(vertices@),
                forall|v: usize|
                    vertices@.contains(v) <==> exists|j: int|
                        0 <= j < edges_at_face(edges, self.id, i as int).len() && (#[trigger] edges_at_face(
                            edges,
                            self.id,
                            i as int,
                        )[j]).vertex_start == v || 0 <= j < edges_at_face(edges, self.id, i as int).len()
                            && edges_at_face(edges, self.id, i as int)[j].vertex_end == v,
                no_duplicates(faces@),
                forall|f: usize|
                    faces@.contains(f) <==> exists|j: int|
                        0 <= j < edges_at_face(edges, self.id, i as int).len() && other_face(
                            #[trigger] edges_at_face(edges, self.id, i as int)[j],
                            self.id,
                        ) == f,
            decreases object.edges.len() - i,
        {
            let edge = object.edges[i];
            let ghost before = edges_at_face(edges, self.id, i as int);
            let ghost old_vertices = vertices@;
            let ghost old_faces = faces@;
            if edge.face_clockwise == self.id || edge.face_counterclockwise == self.id {
                edge_ids.push(edge.id);
                push_unique(&mut vertices, edge.vertex_start);
                push_unique(&mut vertices, edge.vertex_end);
                let other = if edge.face_clockwise == self.id {
                    edge.face_counterclockwise
                } else {
                    edge.face_clockwise
                };
                push_unique(&mut faces, other);
                let ghost after = edges_at_face(edges, self.id, i as int + 1);
                assert(after == before.push(edge));
                assert(ids_of(after) =~= ids_of(before).push(edge.id));
                assert(after[after.len() - 1] == edge);
                assert forall|v: usize|
                    vertices@.contains(v) <==> exists|j: int|
                        0 <= j < after.len() && (#[trigger] after[j]).vertex_start == v || 0 <= j < after.len()
                            && after[j].vertex_end == v by {
                    assert(vertices@.contains(v) <==> vertices@.to_set().contains(v));
                    assert(old_vertices.contains(v) <==> old_vertices.to_set().contains(v));
                    if exists|j: int|
                        0 <= j < after.len() && (#[trigger] after[j]).vertex_start == v || 0 <= j < after.len()
                            && after[j].vertex_end == v {
                        let j = choose|j: int|
                            0 <= j < after.len() && (#[trigger] after[j]).vertex_start == v || 0 <= j
                                < after.len() && after[j].vertex_end == v;
                        if j < before.len() {
                            assert(after[j] == before[j]);
                        }
                    }
                    if old_vertices.contains(v) {
                        let j = choose|j: int|
                            0 <= j < before.len() && (#[trigger] before[j]).vertex_start == v || 0 <= j
                                < before.len() && before[j].vertex_end == v;
                        assert(after[j] == before[j]);
                    }
                }
                assert forall|f: usize|
                    faces@.contains(f) <==> exists|j: int|
                        0 <= j < after.len() && other_face(#[trigger] after[j], self.id) == f by {
                    assert(faces@.contains(f) <==> faces@.to_set().contains(f));
                    assert(old_faces.contains(f) <==> old_faces.to_set().contains(f));
                    if exists|j: int| 0 <= j < after.len() && other_face(#[trigger] after[j], self.id) == f {
                        let j = choose|j: int| 0 <= j < after.len() && other_face(#[trigger] after[j], self.id) == f;
                        if j < before.len() {
                            assert(after[j] == before[j]);
                        }
                    }
                    if old_faces.contains(f) {
                        let j = choose|j: int| 0 <= j < before.len() && other_face(#[trigger] before[j], self.id) == f;
                        assert(after[j] == before[j]);
                    }
                }
            }
            i += 1;
        }
        let ghost bordering = edges_at_face(edges, self.id, edges.len() as int);
        let ghost old_faces = faces@;
        push_unique(&mut faces, self.id);
        assert forall|f: usize|
            faces@.contains(f) <==> (f == self.id || exists|j: int|
                0 <= j < bordering.len() && other_face(#[trigger] bordering[j], self.id) == f) by {
            assert(faces@.contains(f) <==> faces@.to_set().contains(f));
            assert(old_faces.contains(f) <==> old_faces.to_set().contains(f));
        }
        Neighbors { vertices, edges: edge_ids, faces }
    }
}


// ---------------------------------------------------------------------------
// Walking around a face
// ---------------------------------------------------------------------------
/// The edge after `e` going around face `face`: the next edge on the side of
/// `e` where the face lies.
pub open spec fn walk_step(edges: Seq<Edge>, face: usize, e: usize) -> usize {
    if edges[e as int].face_clockwise == face {
        edges[e as int].next_edge_clockwise
    } else {
        edges[e as int].next_edge_counterclockwise
    }
}

/// The edge reached after `k` steps around `face` from edge `start`.
pub open spec fn walk_edge(edges: Seq<Edge>, face: usize, start: usize, k: nat) -> usize
    decreases k,
{
    if k == 0 {
        start
    } else {
        walk_step(edges, face, walk_edge(edges, face, start, (k - 1) as nat))
    }
}

/// The vertex at which edge `e` is entered going around `face`.
pub open spec fn walk_vertex(edges: Seq<Edge>, face: usize, e: usize) -> usize {
    if edges[e as int].face_clockwise == face {
        edges[e as int].vertex_start
    } else {
        edges[e as int].vertex_end
    }
}

/// The vertex at which edge `e` is left going around `face`.
pub open spec fn walk_exit(edges: Seq<Edge>, face: usize, e: usize) -> usize {
    if edges[e as int].face_clockwise == face {
        edges[e as int].vertex_end
    } else {
        edges[e as int].vertex_start
    }
}

/// Going around `face` from edge `e`, the next edge is one of the edges,
/// borders `face` too, and is entered at the vertex where `e` is left.
pub open spec fn side_chains(edges: Seq<Edge>, face: usize, e: int) -> bool {
    let next = walk_step(edges, face, e as usize);
    &&& next < edges.len()
    &&& (edges[next as int].face_clockwise == face || edges[next as int].face_counterclockwise == face)
    &&& walk_vertex(edges, face, next) == walk_exit(edges, face, e as usize)
}

/// The boundaries of the faces are chains of edges that meet end to end:
/// on both sides of every edge, the next edge around that side's face
/// borders the face and starts where the edge ends.
pub open spec fn boundaries_chain(edges: Seq<Edge>) -> bool {
    forall|e: int|
        0 <= e < edges.len() ==> side_chains(edges, (#[trigger] edges[e]).face_clockwise, e) && side_chains(
            edges,
            edges[e].face_counterclockwise,
            e,
        )
}

/// Going around `face` from `start` stays among the edges and first comes
/// back to `start` after `n` steps.
pub open spec fn walk_closes_at(edges: Seq<Edge>, face: usize, start: usize, n: nat) -> bool {
    &&& n >= 1
    &&& forall|k: nat| k < n ==> #[trigger] walk_edge(edges, face, start, k) < edges.len()
    &&& walk_edge(edges, face, start, n) == start
    &&& forall|k: nat| 0 < k < n ==> #[trigger] walk_edge(edges, face, start, k) != start
}

/// The boundary of face `f` is a closed cycle of edges.
pub open spec fn face_walk_closes(edges: Seq<Edge>, f: Face) -> bool {
    exists|n: nat| walk_closes_at(edges, f.id, f.edge, n)
}

/// The number of edges around face `f`.
pub open spec fn face_cycle_len(edges: Seq<Edge>, f: Face) -> nat {
    choose|n: nat| walk_closes_at(edges, f.id, f.edge, n)
}

/// The vertices of face `f` in the order of its boundary walk.
pub open spec fn face_vertices(edges: Seq<Edge>, f: Face) -> Seq<usize> {
    Seq::new(
        face_cycle_len(edges, f),
        |k: int| walk_vertex(edges, f.id, walk_edge(edges, f.id, f.edge, k as nat)),
    )
}

/// The identifiers of the edges of face `f` in the order of its boundary walk.
pub open spec fn face_edges(edges: Seq<Edge>, f: Face) -> Seq<usize> {
    Seq::new(face_cycle_len(edges, f), |k: int| edges[walk_edge(edges, f.id, f.edge, k as nat) as int].id)
}

/// A boundary walk closes after one number of steps only.
pub proof fn lemma_walk_closes_unique(edges: Seq<Edge>, face: usize, start: usize, n1: nat, n2: nat)
    requires
        walk_closes_at(edges, face, start, n1),
        walk_closes_at(edges, face, start, n2),
    ensures
        n1 == n2,
{
    if n1 < n2 {
        assert(walk_edge(edges, face, start, n1) != start);
    } else if n2 < n1 {
        assert(walk_edge(edges, face, start, n2) != start);
    }
}

pub proof fn lemma_face_cycle_len(edges: Seq<Edge>, f: Face, n: nat)
    requires
        walk_closes_at(edges, f.id, f.edge, n),
    ensures
        face_cycle_len(edges, f) == n,
        face_walk_closes(edges, f),
{
    lemma_walk_closes_unique(edges, f.id, f.edge, n, face_cycle_len(edges, f));
}

impl Face {
    /// The vertices of the face, going once around its boundary from its
    /// edge.
    pub fn get_neighbors_vertices_in_order(&self, object: &WingedEdgeObject) -> (ids: Vec<usize>)
        requires
            face_walk_closes(object.edges@, *self),
        ensures
            ids@ == face_vertices(object.edges@, *self),
    {
        let ghost edges = object.edges@;
        let ghost n = face_cycle_len(edges, *self);
        proof {
            lemma_face_cycle_len(edges, *self, n);
        }
        let mut ids: Vec<usize> = Vec::new();
        let start = self.edge;
        let mut current = start;
        let ghost mut i: nat = 0;
        loop
            invariant_except_break
                edges == object.edges@,
                walk_closes_at(edges, self.id, self.edge, n),
                start == self.edge,
                i < n,
                current == walk_edge(edges, self.id, start, i),
                ids@ == Seq::new(i, |k: int| walk_vertex(edges, self.id, walk_edge(edges, self.id, start, k as nat))),
            ensures
                ids@ == face_vertices(edges, *self),
            decreases n - i,
        {
            assert(current < object.edges.len());
            let edge = &object.edges[current];
            if edge.face_clockwise == self.id {
                ids.push(edge.vertex_start);
                current = edge.next_edge_clockwise;
            } else {
                ids.push(edge.vertex_end);
                current = edge.next_edge_counterclockwise;
            }
            proof {
                i = i + 1;
                assert(current == walk_edge(edges, self.id, start, i));
                assert(ids@ =~= Seq::new(i, |k: int| walk_vertex(edges, self.id, walk_edge(edges, self.id, start, k as nat))));
            }
            if current == start {
                assert(i == n);
                break;
            }
        }
        ids
    }

    /// The edges of the face, going once around its boundary from its edge.
    pub fn get_neighbors_edges_in_order(&self, object: &WingedEdgeObject) -> (ids: Vec<usize>)
        requires
            face_walk_closes(object.edges@, *self),
        ensures
            ids@ == face_edges(object.edges@, *self),
    {
        let ghost edges = object.edges@;
        let ghost n = face_cycle_len(edges, *self);
        proof {
            lemma_face_cycle_len(edges, *self, n);
        }
        let mut ids: Vec<usize> = Vec::new();
        let start = self.edge;
        let mut current = start;
        let ghost mut i: nat = 0;
        loop
            invariant_except_break
                edges == object.edges@,
                walk_closes_at(edges, self.id, self.edge, n),
                start == self.edge,
                i < n,
                current == walk_edge(edges, self.id, start, i),
                ids@ == Seq::new(i, |k: int| edges[walk_edge(edges, self.id, start, k as nat) as int].id),
            ensures
                ids@ == face_edges(edges, *self),
            decreases n - i,
        {
            assert(current < object.edges.len());
            let edge = &object.edges[current];
            if edge.face_clockwise == self.id {
                ids.push(edge.id);
                current = edge.next_edge_clockwise;
            } else {
                ids.push(edge.id);
                current = edge.next_edge_counterclockwise;
            }
            proof {
                i = i + 1;
                assert(current == walk_edge(edges, self.id, start, i));
                assert(ids@ =~= Seq::new(i, |k: int| edges[walk_edge(edges, self.id, start, k as nat) as int].id));
            }
            if current == start {
                assert(i == n);
                break;
            }
        }
        ids
    }
}


// ---------------------------------------------------------------------------
// Highlighting and drawing
// ---------------------------------------------------------------------------
/// How many of the first `k` identifiers in `ids` name an edge of `edges`.
pub open spec fn count_known_edges(ids: Seq<usize>, edges: Seq<Edge>, k: int) -> nat
    decreases k,
{
    if 0 < k <= ids.len() {
        count_known_edges(ids, edges, k - 1) + if exists|e: int| 0 <= e < edges.len() && #[trigger] edges[e].id == ids[k - 1] {
            1nat
        } else {
            0nat
        }
    } else {
        0
    }
}

/// How many of the first `k` identifiers in `ids` name a vertex of `vertices`.
pub open spec fn count_known_vertices(ids: Seq<usize>, vertices: Seq<Vertex>, k: int) -> nat
    decreases k,
{
    if 0 < k <= ids.len() {
        count_known_vertices(ids, vertices, k - 1) + if exists|v: int| 0 <= v < vertices.len() && #[trigger] vertices[v].id == ids[k - 1] {
            1nat
        } else {
            0nat
        }
    } else {
        0
    }
}

proof fn lemma_count_known_edges_bound(ids: Seq<usize>, edges: Seq<Edge>, k: int)
    requires
        0 <= k <= ids.len(),
    ensures
        count_known_edges(ids, edges, k) <= k,
    decreases k,
{
    if k > 0 {
        lemma_count_known_edges_bound(ids, edges, k - 1);
    }
}

proof fn lemma_count_known_vertices_bound(ids: Seq<usize>, vertices: Seq<Vertex>, k: int)
    requires
        0 <= k <= ids.len(),
    ensures
        count_known_vertices(ids, vertices, k) <= k,
    decreases k,
{
    if k > 0 {
        lemma_count_known_vertices_bound(ids, vertices, k - 1);
    }
}

proof fn lemma_edges_at_vertex_len(edges: Seq<Edge>, v: usize, k: int)
    ensures
        edges_at_vertex(edges, v, k).len() <= if 0 <= k <= edges.len() { k } else { 0 },
    decreases k,
{
    if 0 < k <= edges.len() {
        lemma_edges_at_vertex_len(edges, v, k - 1);
    }
}

proof fn lemma_edges_adjacent_len(edges: Seq<Edge>, e: Edge, k: int)
    ensures
        edges_adjacent_to(edges, e, k).len() <= if 0 <= k <= edges.len() { k } else { 0 },
    decreases k,
{
    if 0 < k <= edges.len() {
        lemma_edges_adjacent_len(edges, e, k - 1);
    }
}

proof fn lemma_edges_at_face_len(edges: Seq<Edge>, f: usize, k: int)
    ensures
        edges_at_face(edges, f, k).len() <= if 0 <= k <= edges.len() { k } else { 0 },
    decreases k,
{
    if 0 < k <= edges.len() {
        lemma_edges_at_face_len(edges, f, k - 1);
    }
}

/// A sequence without repeated values, all of which lie in `s`, is no longer
/// than the number of values in `s`.
proof fn lemma_distinct_within(vs: Seq<usize>, s: Set<usize>)
    requires
        no_duplicates(vs),
        s.finite(),
        forall|i: int| 0 <= i < vs.len() ==> s.contains(#[trigger] vs[i]),
    ensures
        vs.len() <= s.len(),
    decreases vs.len(),
{
    if vs.len() > 0 {
        let x = vs.last();
        let rest = vs.drop_last();
        assert forall|i: int| 0 <= i < rest.len() implies s.remove(x).contains(#[trigger] rest[i]) by {
            assert(rest[i] == vs[i]);
            assert(vs[i] != vs[vs.len() - 1]);
        }
        lemma_distinct_within(rest, s.remove(x));
    }
}

/// The endpoints of the first `k` edges of `es`.
pub open spec fn endpoints(es: Seq<Edge>, k: int) -> Set<usize>
    decreases k,
{
    if 0 < k <= es.len() {
        endpoints(es, k - 1).insert(es[k - 1].vertex_start).insert(es[k - 1].vertex_end)
    } else {
        Set::empty()
    }
}

proof fn lemma_endpoints(es: Seq<Edge>, k: int)
    requires
        0 <= k <= es.len(),
    ensures
        endpoints(es, k).finite(),
        endpoints(es, k).len() <= 2 * k,
        forall|i: int| 0 <= i < k ==> endpoints(es, k).contains(#[trigger] es[i].vertex_start) && endpoints(
            es,
            k,
        ).contains(es[i].vertex_end),
    decreases k,
{
    if k > 0 {
        lemma_endpoints(es, k - 1);
    }
}

fn has_edge_with_id(edges: &Vec<Edge>, id: usize) -> (b: bool)
    ensures
        b == exists|e: int| 0 <= e < edges@.len() && #[trigger] edges@[e].id == id,
{
    let mut i: usize = 0;
    while i < edges.len()
        invariant
            0 <= i <= edges.len(),
            forall|e: int| 0 <= e < i ==> edges@[e].id != id,
        decreases edges.len() - i,
    {
        if edges[i].id == id {
            return true;
        }
        i += 1;
    }
    false
}

fn has_vertex_with_id(vertices: &Vec<Vertex>, id: usize) -> (b: bool)
    ensures
        b == exists|v: int| 0 <= v < vertices@.len() && #[trigger] vertices@[v].id == id,
{
    let mut i: usize = 0;
    while i < vertices.len()
        invariant
            0 <= i <= vertices.len(),
            forall|v: int| 0 <= v < i ==> vertices@[v].id != id,
        decreases vertices.len() - i,
    {
        if vertices[i].id == id {
            return true;
        }
        i += 1;
    }
    false
}

/// The largest number of edges a solid may have for its highlight counts to
/// fit the counters.
pub const MAX_HIGHLIGHT_EDGES: usize = 0x1000_0000;

/// The three vertex indices of each triangle of the fan that draws a face of
/// `m` edges whose centre is vertex `c`: the centre, then two consecutive
/// boundary vertices, the later one first.
pub open spec fn fan_indices(c: int, m: int) -> Seq<u32> {
    Seq::new(
        (3 * m) as nat,
        |t: int|
            if t % 3 == 0 {
                c as u32
            } else if t % 3 == 1 {
                (c + 2 + t / 3) as u32
            } else {
                (c + 1 + t / 3) as u32
            },
    )
}

/// The number of drawing vertices the first `k` faces take: per face its
/// centre, then its first vertex, then each vertex again going around.
pub open spec fn gl_vertex_count(edges: Seq<Edge>, faces: Seq<Face>, k: int) -> int
    decreases k,
{
    if 0 < k <= faces.len() {
        gl_vertex_count(edges, faces, k - 1) + face_cycle_len(edges, faces[k - 1]) + 2
    } else {
        0
    }
}

/// The triangle indices of the first `k` faces.
pub open spec fn gl_indices(edges: Seq<Edge>, faces: Seq<Face>, k: int) -> Seq<u32>
    decreases k,
{
    if 0 < k <= faces.len() {
        gl_indices(edges, faces, k - 1) + fan_indices(
            gl_vertex_count(edges, faces, k - 1),
            face_cycle_len(edges, faces[k - 1]) as int,
        )
    } else {
        Seq::empty()
    }
}

/// Where the triangles of each of the first `k` faces start among the
/// indices, and how many indices they take.
pub open spec fn gl_ranges(edges: Seq<Edge>, faces: Seq<Face>, k: int) -> Map<usize, (usize, i32)>
    decreases k,
{
    if 0 < k <= faces.len() {
        gl_ranges(edges, faces, k - 1).insert(
            faces[k - 1].id,
            (
                gl_indices(edges, faces, k - 1).len() as usize,
                (3 * face_cycle_len(edges, faces[k - 1])) as i32,
            ),
        )
    } else {
        Map::empty()
    }
}

/// Every face can be drawn: its boundary closes and has at least three
/// edges, and the indices and counts fit their types.
pub open spec fn drawable(edges: Seq<Edge>, faces: Seq<Face>) -> bool {
    &&& forall|j: int|
        0 <= j < faces.len() ==> face_walk_closes(edges, #[trigger] faces[j]) && face_cycle_len(edges, faces[j])
            >= 3 && 3 * face_cycle_len(edges, faces[j]) <= i32::MAX
    &&& gl_vertex_count(edges, faces, faces.len() as int) <= u32::MAX
}

proof fn lemma_gl_vertex_count_monotone(edges: Seq<Edge>, faces: Seq<Face>, k: int, n: int)
    requires
        0 <= k <= n <= faces.len(),
    ensures
        gl_vertex_count(edges, faces, k) <= gl_vertex_count(edges, faces, n),
    decreases n - k,
{
    if k < n {
        lemma_gl_vertex_count_monotone(edges, faces, k, n - 1);
    }
}

proof fn lemma_gl_indices_len(edges: Seq<Edge>, faces: Seq<Face>, k: int)
    requires
        0 <= k <= faces.len(),
    ensures
        gl_indices(edges, faces, k).len() <= 3 * gl_vertex_count(edges, faces, k),
    decreases k,
{
    if k > 0 {
        lemma_gl_indices_len(edges, faces, k - 1);
    }
}

impl WingedEdgeObject {
    /// An empty solid with a fresh identifier.
    pub fn new(name: String) -> (object: Self)
        ensures
            object.name@ == name@,
            is_random_uuid(object.id),
            object.vertices@.len() == 0,
            object.edges@.len() == 0,
            object.faces@.len() == 0,
            object.opengl_indices@.len() == 0,
            object.highlighted_vertices@.len() == 0,
            object.highlighted_edges@.len() == 0,
            object.highlighted_faces@.len() == 0,
            object.face_index_ranges@ == Map::<usize, (usize, i32)>::empty(),
            object.highlight_count_lines == 0,
            object.highlight_count_points == 0,
    {
        WingedEdgeObject {
            id: new_object_id(),
            name,
            vertices: Vec::new(),
            edges: Vec::new(),
            faces: Vec::new(),
            opengl_indices: Vec::new(),
            highlighted_vertices: Vec::new(),
            highlighted_edges: Vec::new(),
            highlighted_faces: Vec::new(),
            face_index_ranges: HashMap::new(),
            highlight_count_lines: 0,
            highlight_count_points: 0,
        }
    }

    /// Picks out the neighbors of a vertex, edge or face for highlighting,
    /// and counts the line endpoints and points that draw them.
    pub fn highlight_member(&mut self, _type: MemberType, member_id: usize)
        requires
            match _type {
                MemberType::Vertex => member_id < old(self).vertices@.len(),
                MemberType::Edge => member_id < old(self).edges@.len(),
                MemberType::Face => member_id < old(self).faces@.len(),
            },
            old(self).edges@.len() <= MAX_HIGHLIGHT_EDGES,
        ensures
            final(self).id == old(self).id,
            final(self).name == old(self).name,
            final(self).vertices == old(self).vertices,
            final(self).edges == old(self).edges,
            final(self).faces == old(self).faces,
            final(self).opengl_indices == old(self).opengl_indices,
            final(self).face_index_ranges == old(self).face_index_ranges,
            match _type {
                MemberType::Vertex => is_vertex_neighborhood(
                    old(self).edges@,
                    old(self).vertices@[member_id as int].id,
                    final(self).highlighted_vertices@,
                    final(self).highlighted_edges@,
                    final(self).highlighted_faces@,
                ),
                MemberType::Edge => is_edge_neighborhood(
                    old(self).edges@,
                    old(self).edges@[member_id as int],
                    final(self).highlighted_vertices@,
                    final(self).highlighted_edges@,
                    final(self).highlighted_faces@,
                ),
                MemberType::Face => is_face_neighborhood(
                    old(self).edges@,
                    old(self).faces@[member_id as int].id,
                    final(self).highlighted_vertices@,
                    final(self).highlighted_edges@,
                    final(self).highlighted_faces@,
                ),
            },
            final(self).highlight_count_lines == 2 * count_known_edges(
                final(self).highlighted_edges@,
                old(self).edges@,
                final(self).highlighted_edges@.len() as int,
            ),
            final(self).highlight_count_points == count_known_vertices(
                final(self).highlighted_vertices@,
                old(self).vertices@,
                final(self).highlighted_vertices@.len() as int,
            ),
    {
        let neighbors = match _type {
            MemberType::Vertex => self.vertices[member_id].get_neighbors(self),
            MemberType::Edge => self.edges[member_id].get_neighbors(self),
            MemberType::Face => self.faces[member_id].get_neighbors(self),
        };
        let ghost edges = self.edges@;
        proof {
            let n = edges.len() as int;
            match _type {
                MemberType::Vertex => {
                    let v = self.vertices@[member_id as int].id;
                    lemma_edges_at_vertex_len(edges, v, n);
                    let incident = edges_at_vertex(edges, v, n);
                    assert(neighbors.edges@.len() == incident.len());
                    assert(neighbors.vertices@.len() == incident.len() + 1);
                    assert(neighbors.vertices@.len() <= 2 * MAX_HIGHLIGHT_EDGES + 1);
                },
                MemberType::Edge => {
                    lemma_edges_adjacent_len(edges, edges[member_id as int], n);
                },
                MemberType::Face => {
                    let f = self.faces@[member_id as int].id;
                    lemma_edges_at_face_len(edges, f, n);
                    let bordering = edges_at_face(edges, f, n);
                    lemma_endpoints(bordering, bordering.len() as int);
                    assert forall|i: int| 0 <= i < neighbors.vertices@.len() implies endpoints(
                        bordering,
                        bordering.len() as int,
                    ).contains(#[trigger] neighbors.vertices@[i]) by {
                        assert(neighbors.vertices@.contains(neighbors.vertices@[i]));
                    }
                    lemma_distinct_within(neighbors.vertices@, endpoints(bordering, bordering.len() as int));
                    assert(neighbors.vertices@.len() <= 2 * MAX_HIGHLIGHT_EDGES + 1);
                },
            }
        }
        self.highlighted_vertices = neighbors.vertices;
        self.highlighted_edges = neighbors.edges;
        self.highlighted_faces = neighbors.faces;
        let ghost hv = self.highlighted_vertices@;
        let ghost hf = self.highlighted_faces@;
        let ghost he = self.highlighted_edges@;

        self.highlight_count_lines = 0;
        let mut i: usize = 0;
        while i < self.highlighted_edges.len()
            invariant
                0 <= i <= self.highlighted_edges.len(),
                self.highlighted_edges@.len() <= MAX_HIGHLIGHT_EDGES + 1,
                self.highlighted_edges@ == he,
                self.highlighted_vertices@ == hv,
                self.highlighted_faces@ == hf,
                hv.len() <= 2 * MAX_HIGHLIGHT_EDGES + 1,
                self.id == old(self).id,
                self.name == old(self).name,
                self.vertices == old(self).vertices,
                self.edges == old(self).edges,
                self.faces == old(self).faces,
                self.opengl_indices == old(self).opengl_indices,
                self.face_index_ranges == old(self).face_index_ranges,
                self.highlight_count_lines == 2 * count_known_edges(self.highlighted_edges@, self.edges@, i as int),
            decreases self.highlighted_edges.len() - i,
        {
            proof {
                lemma_count_known_edges_bound(self.highlighted_edges@, self.edges@, i as int);
            }
            if has_edge_with_id(&self.edges, self.highlighted_edges[i]) {
                self.highlight_count_lines += 2;
            }
            i += 1;
        }

        let ghost final_edges = self.highlighted_edges@;
        self.highlight_count_points = 0;
        let mut i: usize = 0;
        while i < self.highlighted_vertices.len()
            invariant
                0 <= i <= self.highlighted_vertices.len(),
                self.highlighted_vertices@.len() <= 2 * MAX_HIGHLIGHT_EDGES + 1,
                self.highlight_count_lines == 2 * count_known_edges(
                    self.highlighted_edges@,
                    self.edges@,
                    self.highlighted_edges@.len() as int,
                ),
                self.highlighted_edges@ == final_edges,
                self.highlighted_vertices@ == hv,
                self.highlighted_faces@ == hf,
                self.id == old(self).id,
                self.name == old(self).name,
                self.vertices == old(self).vertices,
                self.edges == old(self).edges,
                self.faces == old(self).faces,
                self.opengl_indices == old(self).opengl_indices,
                self.face_index_ranges == old(self).face_index_ranges,
                self.highlight_count_points == count_known_vertices(
                    self.highlighted_vertices@,
                    self.vertices@,
                    i as int,
                ),
            decreases self.highlighted_vertices.len() - i,
        {
            proof {
                lemma_count_known_vertices_bound(self.highlighted_vertices@, self.vertices@, i as int);
            }
            if has_vertex_with_id(&self.vertices, self.highlighted_vertices[i]) {
                self.highlight_count_points += 1;
            }
            i += 1;
        }
    }

    /// Lays out the triangles that draw the faces: each face becomes a fan
    /// of triangles around its centre, and its place among the indices is
    /// recorded under its identifier.
    pub fn build_opengl(&mut self)
        requires
            drawable(old(self).edges@, old(self).faces@),
        ensures
            final(self).id == old(self).id,
            final(self).name == old(self).name,
            final(self).vertices == old(self).vertices,
            final(self).edges == old(self).edges,
            final(self).faces == old(self).faces,
            final(self).highlighted_vertices == old(self).highlighted_vertices,
            final(self).highlighted_edges == old(self).highlighted_edges,
            final(self).highlighted_faces == old(self).highlighted_faces,
            final(self).highlight_count_lines == old(self).highlight_count_lines,
            final(self).highlight_count_points == old(self).highlight_count_points,
            final(self).opengl_indices@ == gl_indices(old(self).edges@, old(self).faces@, old(self).faces@.len() as int),
            final(self).face_index_ranges@ == gl_ranges(old(self).edges@, old(self).faces@, old(self).faces@.len() as int),
    {
        let ghost edges = self.edges@;
        let ghost faces = self.faces@;
        self.opengl_indices = Vec::new();
        self.face_index_ranges = HashMap::new();
        let mut vertex_count: usize = 0;
        let mut j: usize = 0;
        while j < self.faces.len()
            invariant
                0 <= j <= self.faces.len(),
                edges == self.edges@,
                faces == self.faces@,
                drawable(edges, faces),
                vertex_count == gl_vertex_count(edges, faces, j as int),
                self.edges == old(self).edges,
                self.faces == old(self).faces,
                self.opengl_indices@ == gl_indices(edges, faces, j as int),
                self.face_index_ranges@ == gl_ranges(edges, faces, j as int),
                self.id == old(self).id,
                self.name == old(self).name,
                self.vertices == old(self).vertices,
                self.highlighted_vertices == old(self).highlighted_vertices,
                self.highlighted_edges == old(self).highlighted_edges,
                self.highlighted_faces == old(self).highlighted_faces,
                self.highlight_count_lines == old(self).highlight_count_lines,
                self.highlight_count_points == old(self).highlight_count_points,
            decreases self.faces.len() - j,
        {
            let face = self.faces[j];
            assert(face_walk_closes(edges, faces[j as int]));
            let face_vertices_ids = face.get_neighbors_vertices_in_order(self);
            let m = face_vertices_ids.len();
            proof {
                lemma_gl_vertex_count_monotone(edges, faces, j as int + 1, faces.len() as int);
                lemma_gl_indices_len(edges, faces, j as int);
            }
            let start_index = self.opengl_indices.len();
            let center_idx = vertex_count as u32;
            vertex_count = vertex_count + 2;
            let ghost before = self.opengl_indices@;
            let mut i: usize = 0;
            while i < m
                invariant
                    0 <= i <= m,
                    m == face_cycle_len(edges, faces[j as int]),
                    center_idx == gl_vertex_count(edges, faces, j as int),
                    gl_vertex_count(edges, faces, j as int + 1) <= u32::MAX,
                    gl_vertex_count(edges, faces, j as int + 1) == center_idx + m + 2,
                    vertex_count == center_idx + 2 + i,
                    self.opengl_indices@ == before + fan_indices(center_idx as int, i as int),
                    j < self.faces.len(),
                    edges == self.edges@,
                    faces == self.faces@,
                    drawable(edges, faces),
                    self.face_index_ranges@ == gl_ranges(edges, faces, j as int),
                    before == gl_indices(edges, faces, j as int),
                    start_index == before.len(),
                    self.id == old(self).id,
                    self.name == old(self).name,
                    self.vertices == old(self).vertices,
                    self.edges == old(self).edges,
                    self.faces == old(self).faces,
                    self.highlighted_vertices == old(self).highlighted_vertices,
                    self.highlighted_edges == old(self).highlighted_edges,
                    self.highlighted_faces == old(self).highlighted_faces,
                    self.highlight_count_lines == old(self).highlight_count_lines,
                    self.highlight_count_points == old(self).highlight_count_points,
                decreases m - i,
            {
                let start_vertex_index = (vertex_count as u32) - 1;
                let end_vertex_index = start_vertex_index + 1;
                vertex_count = vertex_count + 1;
                self.opengl_indices.push(center_idx);
                self.opengl_indices.push(end_vertex_index);
                self.opengl_indices.push(start_vertex_index);
                i += 1;
                assert(self.opengl_indices@ =~= before + fan_indices(center_idx as int, i as int)) by {
                    assert forall|t: int| 0 <= t < 3 * i implies #[trigger] fan_indices(center_idx as int, i as int)[t]
                        == if t < 3 * (i - 1) {
                        fan_indices(center_idx as int, i - 1)[t]
                    } else if t == 3 * (i - 1) {
                        center_idx
                    } else if t == 3 * (i - 1) + 1 {
                        end_vertex_index
                    } else {
                        start_vertex_index
                    } by {
                        if t >= 3 * (i - 1) {
                            assert(t / 3 == i - 1);
                        }
                    }
                }
            }
            let count = (3 * m) as i32;
            self.face_index_ranges.insert(face.id, (start_index, count));
            j += 1;
        }
    }
}

// ---------------------------------------------------------------------------
// Checking faces before walking or drawing them
// ---------------------------------------------------------------------------
/// Walking `a + m` steps around `face` from `start` ends where walking `m`
/// steps from the edge reached after `a` steps ends.
proof fn lemma_walk_shift(edges: Seq<Edge>, face: usize, start: usize, a: nat, m: nat)
    ensures
        walk_edge(edges, face, start, a + m) == walk_edge(edges, face, walk_edge(edges, face, start, a), m),
    decreases m,
{
    if m > 0 {
        lemma_walk_shift(edges, face, start, a, (m - 1) as nat);
        assert(walk_edge(edges, face, start, a + m) == walk_step(
            edges,
            face,
            walk_edge(edges, face, start, (a + m - 1) as nat),
        ));
        assert((a + m - 1) as nat == a + (m - 1) as nat);
    }
}

/// A boundary walk that closes passes no edge twice on the way, so it
/// closes within as many steps as there are edges.
proof fn lemma_cycle_len_bound(edges: Seq<Edge>, face: usize, start: usize, n: nat)
    requires
        walk_closes_at(edges, face, start, n),
    ensures
        n <= edges.len(),
{
    let s = Seq::new(n, |k: int| walk_edge(edges, face, start, k as nat) as int);
    assert forall|i: int, j: int| 0 <= i < s.len() && 0 <= j < s.len() && i != j implies s[i] != s[j] by {
        let lo = if i < j { i } else { j };
        let hi = if i < j { j } else { i };
        if s[lo] == s[hi] {
            let m = (n - hi) as nat;
            lemma_walk_shift(edges, face, start, lo as nat, m);
            lemma_walk_shift(edges, face, start, hi as nat, m);
            assert((hi as nat) + m == n);
            let k = (lo + m) as nat;
            assert(0 < k < n);
            assert(walk_edge(edges, face, start, k) != start);
        }
    }
    assert(s.no_duplicates());
    s.unique_seq_to_set();
    let range = vstd::set_lib::set_int_range(0, edges.len() as int);
    assert forall|x: int| s.to_set().contains(x) implies range.contains(x) by {
        assert(s.contains(x));
        let idx = choose|idx: int| 0 <= idx < s.len() && s[idx] == x;
        assert(walk_edge(edges, face, start, idx as nat) < edges.len());
    }
    vstd::set_lib::lemma_int_range(0, edges.len() as int);
    vstd::set_lib::lemma_len_subset(s.to_set(), range);
}

impl Face {
    /// The number of edges around the face, where its boundary walk closes
    /// (see `face_walk_closes`); `None` where it does not.
    fn cycle_length(&self, object: &WingedEdgeObject) -> (r: Option<usize>)
        ensures
            r is Some <==> face_walk_closes(object.edges@, *self),
            r is Some ==> r->0 == face_cycle_len(object.edges@, *self),
    {
        let ghost edges = object.edges@;
        let len = object.edges.len();
        let start = self.edge;
        if start >= len {
            proof {
                if face_walk_closes(edges, *self) {
                    let n = choose|n: nat| walk_closes_at(edges, self.id, start, n);
                    assert(walk_edge(edges, self.id, start, 0) < edges.len());
                }
            }
            return None;
        }
        let mut current = start;
        let mut i: usize = 0;
        while i < len
            invariant
                edges == object.edges@,
                len == edges.len(),
                start == self.edge,
                start < len,
                0 <= i <= len,
                current == walk_edge(edges, self.id, start, i as nat),
                current < len,
                forall|k: nat| k <= i ==> #[trigger] walk_edge(edges, self.id, start, k) < len,
                forall|k: nat| 0 < k <= i ==> #[trigger] walk_edge(edges, self.id, start, k) != start,
            decreases len - i,
        {
            let edge = &object.edges[current];
            if edge.face_clockwise == self.id {
                current = edge.next_edge_clockwise;
            } else {
                current = edge.next_edge_counterclockwise;
            }
            i += 1;
            assert(current == walk_edge(edges, self.id, start, i as nat));
            if current == start {
                proof {
                    assert(walk_closes_at(edges, self.id, start, i as nat));
                    lemma_face_cycle_len(edges, *self, i as nat);
                }
                return Some(i);
            }
            if current >= len {
                proof {
                    if face_walk_closes(edges, *self) {
                        let n = choose|n: nat| walk_closes_at(edges, self.id, start, n);
                        if n < i {
                            assert(walk_edge(edges, self.id, start, n) != start);
                        } else if n > i {
                            assert(walk_edge(edges, self.id, start, i as nat) < edges.len());
                        }
                    }
                }
                return None;
            }
        }
        proof {
            if face_walk_closes(edges, *self) {
                let n = choose|n: nat| walk_closes_at(edges, self.id, start, n);
                lemma_cycle_len_bound(edges, self.id, start, n);
                assert(walk_edge(edges, self.id, start, n) != start);
            }
        }
        None
    }

    /// Whether the boundary of the face is a closed cycle of edges (see
    /// `face_walk_closes`): what walking it in order needs.
    pub fn walk_closes(&self, object: &WingedEdgeObject) -> (b: bool)
        ensures
            b == face_walk_closes(object.edges@, *self),
    {
        self.cycle_length(object).is_some()
    }
}

impl WingedEdgeObject {
    /// Whether the faces can be laid out as triangles (see `drawable`): what
    /// `build_opengl` needs.
    pub fn is_drawable(&self) -> (b: bool)
        ensures
            b == drawable(self.edges@, self.faces@),
    {
        let ghost edges = self.edges@;
        let ghost faces = self.faces@;
        let mut count: u64 = 0;
        let mut j: usize = 0;
        while j < self.faces.len()
            invariant
                edges == self.edges@,
                faces == self.faces@,
                0 <= j <= faces.len(),
                count == gl_vertex_count(edges, faces, j as int),
                count <= u32::MAX,
                forall|k: int|
                    0 <= k < j ==> face_walk_closes(edges, #[trigger] faces[k]) && face_cycle_len(edges, faces[k])
                        >= 3 && 3 * face_cycle_len(edges, faces[k]) <= i32::MAX,
            decreases faces.len() - j,
        {
            let face = self.faces[j];
            match face.cycle_length(self) {
                None => {
                    assert(!face_walk_closes(edges, faces[j as int]));
                    return false;
                },
                Some(n) => {
                    if n < 3 || n > 715827882 {
                        assert(!(face_cycle_len(edges, faces[j as int]) >= 3 && 3 * face_cycle_len(edges, faces[j as int])
                            <= i32::MAX));
                        return false;
                    }
                    let total: u64 = count + n as u64 + 2;
                    assert(total == gl_vertex_count(edges, faces, j + 1));
                    if total > 0xffff_ffffu64 {
                        proof {
                            lemma_gl_vertex_count_monotone(edges, faces, j + 1, faces.len() as int);
                        }
                        return false;
                    }
                    count = total;
                    j += 1;
                },
            }
        }
        true
    }
}

} // verus!
