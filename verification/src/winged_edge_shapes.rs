use vstd::prelude::*;

use crate::ids::is_random_uuid;
use crate::winged_edge::{Edge, Face, Vertex, WingedEdgeObject};
use vstd::arithmetic::div_mod::{lemma_mod_multiples_basic, lemma_small_mod};

verus! {

pub proof fn lemma_succ_mod(i: int, n: int)
    requires
        0 <= i < n,
    ensures
        (i + 1) % n == if i + 1 == n {
            0
        } else {
            i + 1
        },
{
    if i + 1 < n {
        lemma_small_mod((i + 1) as nat, n as nat);
    } else {
        lemma_mod_multiples_basic(1, n);
        assert(1 * n == n);
    }
}

/// The identifier that follows `i` around a ring of `n`.
pub open spec fn ring_next(i: int, n: int) -> int {
    if i + 1 == n {
        0
    } else {
        i + 1
    }
}

/// The identifier that precedes `i` around a ring of `n`.
pub open spec fn ring_prev(i: int, n: int) -> int {
    if i == 0 {
        n - 1
    } else {
        i - 1
    }
}

/// The topology holds exactly the given vertices, edges and faces, and its
/// other parts are those of a new object.
pub open spec fn has_topology(
    object: WingedEdgeObject,
    name: Seq<char>,
    vertices: Seq<Vertex>,
    edges: Seq<Edge>,
    faces: Seq<Face>,
) -> bool {
    &&& object.name@ == name
    &&& is_random_uuid(object.id)
    &&& object.vertices@ == vertices
    &&& object.edges@ == edges
    &&& object.faces@ == faces
    &&& object.opengl_indices@.len() == 0
    &&& object.highlighted_vertices@.len() == 0
    &&& object.highlighted_edges@.len() == 0
    &&& object.highlighted_faces@.len() == 0
    &&& object.face_index_ranges@ == Map::<usize, (usize, i32)>::empty()
    &&& object.highlight_count_lines == 0
    &&& object.highlight_count_points == 0
}

/// Vertices, edges and faces are numbered by their positions, and the
/// counts satisfy Euler's formula for a closed surface without holes.
pub open spec fn numbered_closed_surface(object: WingedEdgeObject) -> bool {
    &&& forall|k: int| 0 <= k < object.vertices@.len() ==> (#[trigger] object.vertices@[k]).id == k
    &&& forall|k: int| 0 <= k < object.edges@.len() ==> (#[trigger] object.edges@[k]).id == k
    &&& forall|k: int| 0 <= k < object.faces@.len() ==> (#[trigger] object.faces@[k]).id == k
    &&& object.vertices@.len() - object.edges@.len() + object.faces@.len() == 2
}

/// The largest number of subdivisions for which the identifiers of the
/// builders' members fit.
pub const MAX_SUBDIVISIONS: usize = 0x1000_0000;

} // verus!
