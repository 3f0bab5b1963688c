use vstd::prelude::*;

use crate::winged_edge::{drawable, face_cycle_len, fan_indices, gl_indices, gl_vertex_count, Edge, Face, WingedEdgeObject};

verus! {

broadcast use vstd::std_specs::hash::group_hash_axioms;

/// The index ranges that draw the first `k` highlighted faces: for each in
/// order, its recorded range, where one is recorded.
pub open spec fn highlight_ranges(faces: Seq<usize>, ranges: Map<usize, (usize, i32)>, k: int) -> Seq<(usize, i32)>
    decreases k,
{
    if 0 < k <= faces.len() {
        let before = highlight_ranges(faces, ranges, k - 1);
        if ranges.contains_key(faces[k - 1]) {
            before.push(ranges[faces[k - 1]])
        } else {
            before
        }
    } else {
        Seq::empty()
    }
}

impl WingedEdgeObject {
    /// The index ranges (first index, number of indices) that draw the
    /// highlighted faces, in the order the faces were highlighted; a face
    /// without a recorded range is left out.
    pub fn highlighted_face_ranges(&self) -> (ranges: Vec<(usize, i32)>)
        ensures
            ranges@ == highlight_ranges(
                self.highlighted_faces@,
                self.face_index_ranges@,
                self.highlighted_faces@.len() as int,
            ),
    {
        let mut ranges: Vec<(usize, i32)> = Vec::new();
        let mut i: usize = 0;
        while i < self.highlighted_faces.len()
            invariant
                0 <= i <= self.highlighted_faces@.len(),
                ranges@ == highlight_ranges(self.highlighted_faces@, self.face_index_ranges@, i as int),
            decreases self.highlighted_faces@.len() - i,
        {
            let face_id = self.highlighted_faces[i];
            match self.face_index_ranges.get(&face_id) {
                Some(range) => {
                    ranges.push(*range);
                },
                None => {},
            }
            i += 1;
        }
        ranges
    }
}

proof fn lemma_gl_vertex_count_grows(edges: Seq<Edge>, faces: Seq<Face>, k: int, n: int)
    requires
        0 <= k <= n <= faces.len(),
    ensures
        gl_vertex_count(edges, faces, k) <= gl_vertex_count(edges, faces, n),
    decreases n - k,
{
    if k < n {
        lemma_gl_vertex_count_grows(edges, faces, k, n - 1);
    }
}

proof fn lemma_fan_in_range(c: int, m: int)
    requires
        0 <= c,
        1 <= m,
        c + m + 2 <= u32::MAX + 1,
    ensures
        forall|t: int| 0 <= t < 3 * m ==> #[trigger] fan_indices(c, m)[t] < c + m + 2,
{
    assert forall|t: int| 0 <= t < 3 * m implies #[trigger] fan_indices(c, m)[t] < c + m + 2 by {
        assert(0 <= t / 3 < m);
    }
}

proof fn lemma_gl_indices_below(edges: Seq<Edge>, faces: Seq<Face>, k: int)
    requires
        drawable(edges, faces),
        0 <= k <= faces.len(),
    ensures
        forall|i: int|
            0 <= i < gl_indices(edges, faces, k).len() ==> #[trigger] gl_indices(edges, faces, k)[i]
                < gl_vertex_count(edges, faces, k),
    decreases k,
{
    if k > 0 {
        lemma_gl_indices_below(edges, faces, k - 1);
        lemma_gl_vertex_count_grows(edges, faces, k, faces.len() as int);
        lemma_gl_vertex_count_grows(edges, faces, k - 1, k);
        let before = gl_indices(edges, faces, k - 1);
        let c = gl_vertex_count(edges, faces, k - 1);
        let m = face_cycle_len(edges, faces[k - 1]) as int;
        assert(face_cycle_len(edges, faces[k - 1]) >= 3);
        lemma_gl_vertex_count_nonneg(edges, faces, k - 1);
        lemma_fan_in_range(c, m);
        let all = gl_indices(edges, faces, k);
        assert(all == before + fan_indices(c, m));
        assert forall|i: int| 0 <= i < all.len() implies #[trigger] all[i] < gl_vertex_count(edges, faces, k) by {
            if i >= before.len() {
                assert(all[i] == fan_indices(c, m)[i - before.len()]);
            }
        }
    }
}

proof fn lemma_gl_vertex_count_nonneg(edges: Seq<Edge>, faces: Seq<Face>, k: int)
    requires
        0 <= k <= faces.len(),
    ensures
        gl_vertex_count(edges, faces, k) >= 0,
    decreases k,
{
    if k > 0 {
        lemma_gl_vertex_count_nonneg(edges, faces, k - 1);
    }
}

/// The triangles that draw a drawable solid name only its drawing
/// vertices: every index is below their number (each face's centre, its
/// first vertex, and each of its vertices again going around).
pub proof fn lemma_gl_indices_in_range(edges: Seq<Edge>, faces: Seq<Face>)
    requires
        drawable(edges, faces),
    ensures
        forall|i: int|
            0 <= i < gl_indices(edges, faces, faces.len() as int).len() ==> #[trigger] gl_indices(
                edges,
                faces,
                faces.len() as int,
            )[i] < gl_vertex_count(edges, faces, faces.len() as int),
{
    lemma_gl_indices_below(edges, faces, faces.len() as int);
}

} // verus!
