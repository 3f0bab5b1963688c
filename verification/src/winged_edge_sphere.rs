use vstd::prelude::*;

use crate::winged_edge::{
    boundaries_chain, side_chains,
    drawable, face_cycle_len, face_walk_closes, gl_vertex_count, lemma_face_cycle_len, walk_closes_at,
    walk_edge, walk_step, Edge, Face, Vertex, WingedEdgeObject,
};
use crate::winged_edge_shapes::{has_topology, lemma_succ_mod, numbered_closed_surface};
use vstd::arithmetic::div_mod::{
    lemma_mod_multiples_basic, lemma_mod_multiples_vanish, lemma_mod_sub_multiples_vanish, lemma_small_mod,
};

verus! {

// ---------------------------------------------------------------------------
// Sphere
// ---------------------------------------------------------------------------
/// The largest number of subdivisions of a sphere for which the counts of
/// its members fit.
pub const MAX_SPHERE_SUBDIVISIONS: usize = 0x4000;

/// Facts about the member `r * n + c` of row `r` and column `c` of a grid
/// with `n` columns.
proof fn lemma_row_col(n: int, r: int, c: int)
    requires
        2 <= n <= MAX_SPHERE_SUBDIVISIONS,
        0 <= r <= n,
        0 <= c < n,
    ensures
        0 <= r * n,
        r * n + n == (r + 1) * n,
        r * n <= n * n,
        n * n <= 0x1000_0000,
        r < n ==> r * n + c < n * n,
        r < n ==> r * n <= n * n - n,
        r < n - 1 ==> r * n <= n * n - 2 * n,
        r >= 1 ==> r * n >= n,
        r == 0 <==> r * n + c < n,
        r < n ==> (r == n - 1 <==> r * n + c >= n * n - n),
        (r * n + c) % n == c,
        (r * n + c + 1) % n == if c + 1 == n {
            0
        } else {
            c + 1
        },
{
    assert(0 <= r * n) by (nonlinear_arith)
        requires
            0 <= r,
            2 <= n,
    ;
    assert(r * n + n == (r + 1) * n) by (nonlinear_arith);
    assert(r * n <= n * n) by (nonlinear_arith)
        requires
            r <= n,
            0 <= n,
    ;
    assert(n * n <= 0x1000_0000) by (nonlinear_arith)
        requires
            2 <= n <= 0x4000,
    ;
    if r < n {
        assert(r * n <= n * n - n) by (nonlinear_arith)
            requires
                r <= n - 1,
                0 <= n,
        ;
    }
    if r >= 1 {
        assert(r * n >= n) by (nonlinear_arith)
            requires
                r >= 1,
                0 <= n,
        ;
    }
    if r < n - 1 {
        assert(r * n <= n * n - 2 * n) by (nonlinear_arith)
            requires
                r <= n - 2,
                0 <= n,
        ;
    }
    if r == n - 1 {
        assert(r * n == n * n - n) by (nonlinear_arith)
            requires
                r == n - 1,
        ;
    }
    lemma_mod_multiples_vanish(r, c, n);
    lemma_small_mod(c as nat, n as nat);
    assert(n * r == r * n) by (nonlinear_arith);
    lemma_mod_multiples_vanish(r, c + 1, n);
    lemma_succ_mod(c, n);
}

/// Vertex `k` of a sphere of `n` subdivisions: the north pole, the south
/// pole, then `n - 1` rings of `n` vertices. Each vertex starts the last
/// meridian edge that leaves it.
pub open spec fn sphere_vertex(n: int, k: int) -> Vertex {
    if k == 0 {
        Vertex { id: 0, _edge: (n - 1) as usize }
    } else if k == 1 {
        Vertex { id: 1, _edge: 0 }
    } else {
        Vertex { id: k as usize, _edge: (k - 2 + n) as usize }
    }
}

/// The face on the clockwise side of edge `k` of a sphere of `n`
/// subdivisions: for a meridian edge, the face of its row one column back;
/// for a parallel edge, the face of the next row.
pub open spec fn sphere_cw_face(n: int, k: int) -> int {
    if k < n * n {
        if k % n == 0 {
            k + n - 1
        } else {
            k - 1
        }
    } else {
        k - n * n + n
    }
}

/// The face on the counterclockwise side of edge `k`: the face with the
/// same row and column.
pub open spec fn sphere_ccw_face(n: int, k: int) -> int {
    if k < n * n {
        k
    } else {
        k - n * n
    }
}

/// Edge `k` of a sphere of `n` subdivisions once every face has been laid
/// around it. The first `n * n` edges are meridians, row by row from the
/// north pole, one per column; the next `n * n - n` go along the rings.
/// Face `r * n + c` lies in row `r` and column `c`.
pub open spec fn sphere_edge(n: int, k: int) -> Edge {
    sphere_edge_after(n, k, n * n)
}

/// Edge `k` after the first `f` faces have been laid: a side whose face is
/// not laid yet still has face 0 and next edge 0.
pub open spec fn sphere_edge_after(n: int, k: int, f: int) -> Edge {
    let cw_done = sphere_cw_face(n, k) < f;
    let ccw_done = sphere_ccw_face(n, k) < f;
    let cw = sphere_cw_face(n, k);
    if k < n * n {
        Edge {
            id: k as usize,
            vertex_start: if k < n {
                0
            } else {
                (2 + k - n) as usize
            },
            vertex_end: if k >= n * n - n {
                1
            } else {
                (2 + k) as usize
            },
            face_clockwise: if cw_done {
                cw as usize
            } else {
                0
            },
            next_edge_clockwise: if !cw_done {
                0
            } else if k >= n * n - n {
                cw as usize
            } else {
                (n * n + cw) as usize
            },
            face_counterclockwise: if ccw_done {
                k as usize
            } else {
                0
            },
            next_edge_counterclockwise: if !ccw_done {
                0
            } else if k < n {
                (if k + 1 == n {
                    0
                } else {
                    k + 1
                }) as usize
            } else {
                (n * n + k - n) as usize
            },
        }
    } else {
        let j = k - n * n;
        Edge {
            id: k as usize,
            vertex_start: (2 + j) as usize,
            vertex_end: (if (j + 1) % n == 0 {
                2 + j + 1 - n
            } else {
                2 + j + 1
            }) as usize,
            face_clockwise: if cw_done {
                (j + n) as usize
            } else {
                0
            },
            next_edge_clockwise: if !cw_done {
                0
            } else if (j + 1) % n == 0 {
                (j + 1) as usize
            } else {
                (j + n + 1) as usize
            },
            face_counterclockwise: if ccw_done {
                j as usize
            } else {
                0
            },
            next_edge_counterclockwise: if ccw_done {
                j as usize
            } else {
                0
            },
        }
    }
}

/// Face `k` of a sphere: the faces of the first row start from their
/// western meridian edge, the others from the ring edge above them.
pub open spec fn sphere_face(n: int, k: int) -> Face {
    Face {
        id: k as usize,
        edge: if k < n {
            k as usize
        } else {
            (n * n + k - n) as usize
        },
    }
}

pub open spec fn sphere_vertex_count(n: int) -> int {
    2 + n * n - n
}

pub open spec fn sphere_edge_count(n: int) -> int {
    2 * (n * n) - n
}

pub open spec fn sphere_vertices(n: int) -> Seq<Vertex> {
    Seq::new(sphere_vertex_count(n) as nat, |k: int| sphere_vertex(n, k))
}

pub open spec fn sphere_edges(n: int) -> Seq<Edge> {
    Seq::new(sphere_edge_count(n) as nat, |k: int| sphere_edge(n, k))
}

pub open spec fn sphere_faces(n: int) -> Seq<Face> {
    Seq::new((n * n) as nat, |k: int| sphere_face(n, k))
}

/// The vertex with number `ring_idx * n + long_idx` of the rings (the
/// column wraps around).
fn get_ring_vertex(n: usize, ring_idx: usize, long_idx: usize) -> (v: usize)
    requires
        2 <= n <= MAX_SPHERE_SUBDIVISIONS,
        ring_idx < n,
        long_idx <= n,
    ensures
        v == 2 + ring_idx * n + (if long_idx == n {
            0
        } else {
            long_idx as int
        }),
{
    proof {
        lemma_row_col(n as int, ring_idx as int, 0);
        if long_idx < n {
            lemma_small_mod(long_idx as nat, n as nat);
        } else {
            lemma_mod_multiples_basic(1, n as int);
            assert(1 * n == n);
        }
    }
    let wrapped_long = long_idx % n;
    2 + ring_idx * n + wrapped_long
}


/// Vertex `k` once the first `e` meridian edges have been made: each
/// meridian edge made so far is recorded at the vertex it leaves.
pub open spec fn sphere_vertex_partial(n: int, k: int, e: int) -> Vertex {
    if k == 0 {
        Vertex {
            id: 0,
            _edge: (if e == 0 {
                0
            } else if e <= n {
                e - 1
            } else {
                n - 1
            }) as usize,
        }
    } else if k == 1 {
        Vertex { id: 1, _edge: 0 }
    } else {
        Vertex {
            id: k as usize,
            _edge: (if k - 2 + n < e {
                k - 2 + n
            } else {
                0
            }) as usize,
        }
    }
}

/// The vertices and the edges of a sphere before its faces are laid.
fn sphere_skeleton(n: usize) -> (res: (Vec<Vertex>, Vec<Edge>))
    requires
        2 <= n <= MAX_SPHERE_SUBDIVISIONS,
    ensures
        res.0@ =~= sphere_vertices(n as int),
        res.1@ =~= Seq::new(sphere_edge_count(n as int) as nat, |k: int| sphere_edge_after(n as int, k, 0)),
{
    let ghost ni = n as int;
    proof {
        lemma_row_col(ni, n as int, 0);
        lemma_row_col(ni, n as int - 1, 0);
    }
    let n_long = n;
    let n_lat = n;
    let mut vertices: Vec<Vertex> = Vec::new();
    vertices.push(Vertex { id: 0, _edge: 0 });
    vertices.push(Vertex { id: 1, _edge: 0 });

    let rings_count = n_lat - 1;
    let mut j: usize = 1;
    while j <= rings_count
        invariant
            n_long == n,
            rings_count == n - 1,
            2 <= n <= MAX_SPHERE_SUBDIVISIONS,
            ni == n as int,
            1 <= j <= n,
            vertices@.len() == 2 + (j - 1) * n,
            forall|k: int| 0 <= k < vertices@.len() ==> #[trigger] vertices@[k] == sphere_vertex_partial(ni, k, 0),
        decreases n - j,
    {
        proof {
            lemma_row_col(ni, j as int - 1, 0);
            lemma_row_col(ni, j as int, 0);
        }
        let mut i: usize = 0;
        while i < n_long
            invariant
                n_long == n,
                2 <= n <= MAX_SPHERE_SUBDIVISIONS,
                ni == n as int,
                1 <= j <= n - 1,
                0 <= i <= n,
                vertices@.len() == 2 + (j - 1) * n + i,
                (j - 1) * n + n == j * n,
                j * n <= n * n - n,
                forall|k: int| 0 <= k < vertices@.len() ==> #[trigger] vertices@[k] == sphere_vertex_partial(ni, k, 0),
            decreases n - i,
        {
            let id = vertices.len();
            vertices.push(Vertex { id, _edge: 0 });
            i += 1;
        }
        j += 1;
    }
    assert(vertices@.len() == sphere_vertex_count(ni));

    let mut edges: Vec<Edge> = Vec::new();
    let mut row: usize = 0;
    while row < n_lat
        invariant
            n_long == n,
            n_lat == n,
            2 <= n <= MAX_SPHERE_SUBDIVISIONS,
            ni == n as int,
            0 <= row <= n,
            edges@.len() == row * n,
            vertices@.len() == sphere_vertex_count(ni),
            forall|k: int| 0 <= k < edges@.len() ==> #[trigger] edges@[k] == sphere_edge_after(ni, k, 0),
            forall|k: int|
                0 <= k < vertices@.len() ==> #[trigger] vertices@[k] == sphere_vertex_partial(ni, k, edges@.len() as int),
        decreases n - row,
    {
        proof {
            lemma_row_col(ni, row as int, 0);
        }
        let mut col: usize = 0;
        while col < n_long
            invariant
                n_long == n,
                n_lat == n,
                2 <= n <= MAX_SPHERE_SUBDIVISIONS,
                ni == n as int,
                0 <= row < n,
                0 <= col <= n,
                edges@.len() == row * n + col,
                row * n + n == (row + 1) * n,
                row * n <= n * n - n,
                row == 0 <==> row * n < n,
                vertices@.len() == sphere_vertex_count(ni),
                forall|k: int| 0 <= k < edges@.len() ==> #[trigger] edges@[k] == sphere_edge_after(ni, k, 0),
                forall|k: int|
                    0 <= k < vertices@.len() ==> #[trigger] vertices@[k] == sphere_vertex_partial(
                        ni,
                        k,
                        edges@.len() as int,
                    ),
            decreases n - col,
        {
            proof {
                lemma_row_col(ni, row as int, col as int);
                if row > 0 {
                    lemma_row_col(ni, row as int - 1, col as int);
                }
            }
            let v_start = if row == 0 {
                0
            } else {
                get_ring_vertex(n, row - 1, col)
            };
            let v_end = if row == n_lat - 1 {
                1
            } else {
                get_ring_vertex(n, row, col)
            };
            let edge_id = edges.len();
            let ghost e = edge_id as int;
            assert(v_start as int == if e < ni { 0 } else { 2 + e - ni });
            assert(v_end as int == if e >= ni * ni - ni { 1 } else { 2 + e });
            edges.push(
                Edge {
                    id: edge_id,
                    vertex_start: v_start,
                    vertex_end: v_end,
                    face_clockwise: 0,
                    face_counterclockwise: 0,
                    next_edge_clockwise: 0,
                    next_edge_counterclockwise: 0,
                },
            );
            assert(e < ni * ni);
            assert(e % ni == col as int);
            assert(sphere_cw_face(ni, e) >= 0);
            assert(sphere_ccw_face(ni, e) >= 0);
            assert(edges@[e] == sphere_edge_after(ni, e, 0));
            let old_vertex = vertices[v_start];
            vertices.set(v_start, Vertex { id: old_vertex.id, _edge: edge_id });
            assert forall|k: int| 0 <= k < vertices@.len() implies #[trigger] vertices@[k] == sphere_vertex_partial(
                ni,
                k,
                e + 1,
            ) by {
                if k == v_start as int {
                } else if k >= 2 {
                    assert(k - 2 + ni != e);
                }
            }
            col += 1;
        }
        row += 1;
    }

    let mut row: usize = 0;
    while row < rings_count
        invariant
            n_long == n,
            rings_count == n - 1,
            2 <= n <= MAX_SPHERE_SUBDIVISIONS,
            ni == n as int,
            0 <= row <= n - 1,
            edges@.len() == n * n + row * n,
            vertices@ =~= sphere_vertices(ni),
            forall|k: int| 0 <= k < edges@.len() ==> #[trigger] edges@[k] == sphere_edge_after(ni, k, 0),
        decreases n - row,
    {
        proof {
            lemma_row_col(ni, row as int, 0);
        }
        let mut col: usize = 0;
        while col < n_long
            invariant
                n_long == n,
                rings_count == n - 1,
                2 <= n <= MAX_SPHERE_SUBDIVISIONS,
                ni == n as int,
                0 <= row < n - 1,
                0 <= col <= n,
                edges@.len() == n * n + row * n + col,
                row * n + n == (row + 1) * n,
                row * n <= n * n - 2 * n,
                vertices@ =~= sphere_vertices(ni),
                forall|k: int| 0 <= k < edges@.len() ==> #[trigger] edges@[k] == sphere_edge_after(ni, k, 0),
            decreases n - col,
        {
            proof {
                lemma_row_col(ni, row as int, col as int);
            }
            let v_start = get_ring_vertex(n, row, col);
            let v_end = get_ring_vertex(n, row, col + 1);
            let edge_id = edges.len();
            edges.push(
                Edge {
                    id: edge_id,
                    vertex_start: v_start,
                    vertex_end: v_end,
                    face_clockwise: 0,
                    face_counterclockwise: 0,
                    next_edge_clockwise: 0,
                    next_edge_counterclockwise: 0,
                },
            );
            assert(edge_id >= ni * ni);
            assert(sphere_cw_face(ni, edge_id as int) >= 0);
            assert(edges@[edge_id as int] == sphere_edge_after(ni, edge_id as int, 0));
            col += 1;
        }
        row += 1;
    }
    (vertices, edges)
}


/// The meridian edge on the east side of face `f = r * n + c`.
pub open spec fn sphere_east(n: int, r: int, c: int) -> int {
    if c + 1 == n {
        r * n
    } else {
        r * n + c + 1
    }
}

/// Laying face `f = r * n + c` changes only the sides of its own edges.
proof fn lemma_sphere_other_edges(n: int, r: int, c: int, k: int)
    requires
        2 <= n <= MAX_SPHERE_SUBDIVISIONS,
        0 <= r < n,
        0 <= c < n,
        0 <= k < sphere_edge_count(n),
        k != r * n + c,
        !(r < n - 1 && k == n * n + r * n + c),
        k != sphere_east(n, r, c),
        !(r >= 1 && k == n * n + r * n + c - n),
    ensures
        sphere_edge_after(n, k, r * n + c + 1) == sphere_edge_after(n, k, r * n + c),
{
    let f = r * n + c;
    lemma_row_col(n, r, c);
    lemma_row_col(n, r, 0);
    assert(sphere_ccw_face(n, k) != f);
    if k < n * n {
        if k % n == 0 {
            if k + n - 1 == f {
                lemma_mod_sub_multiples_vanish(f + 1, n);
                assert(k == -n + (f + 1));
            }
        } else {
            if k - 1 == f {
                assert(k == r * n + c + 1);
            }
        }
    }
    assert(sphere_cw_face(n, k) != f);
}

/// The sides of face `f = r * n + c`'s own edges once it is laid.
proof fn lemma_sphere_face_edges(n: int, r: int, c: int)
    requires
        2 <= n <= MAX_SPHERE_SUBDIVISIONS,
        0 <= r < n,
        0 <= c < n,
    ensures
        ({
            let f = r * n + c;
            let east = sphere_east(n, r, c);
            let west = f;
            let below = n * n + f;
            let above = n * n + f - n;
            &&& 0 <= west < n * n
            &&& 0 <= east < n * n
            &&& r < n - 1 ==> n * n <= below < sphere_edge_count(n)
            &&& r >= 1 ==> n * n <= above < sphere_edge_count(n)
            &&& sphere_edge_after(n, east, f + 1) == (Edge {
                face_clockwise: f as usize,
                next_edge_clockwise: (if r == n - 1 {
                    west
                } else {
                    below
                }) as usize,
                ..sphere_edge_after(n, east, f)
            })
            &&& sphere_edge_after(n, west, f + 1) == (Edge {
                face_counterclockwise: f as usize,
                next_edge_counterclockwise: (if r == 0 {
                    east
                } else {
                    above
                }) as usize,
                ..sphere_edge_after(n, west, f)
            })
            &&& r < n - 1 ==> sphere_edge_after(n, below, f + 1) == (Edge {
                face_counterclockwise: f as usize,
                next_edge_counterclockwise: west as usize,
                ..sphere_edge_after(n, below, f)
            })
            &&& r >= 1 ==> sphere_edge_after(n, above, f + 1) == (Edge {
                face_clockwise: f as usize,
                next_edge_clockwise: east as usize,
                ..sphere_edge_after(n, above, f)
            })
            &&& sphere_face(n, f) == Face {
                id: f as usize,
                edge: (if r == 0 {
                    west
                } else {
                    above
                }) as usize,
            }
        }),
{
    let f = r * n + c;
    lemma_row_col(n, r, c);
    lemma_row_col(n, r, 0);
    if r >= 1 {
        lemma_row_col(n, r - 1, c);
        assert((f - n + 1) % n == (f + 1) % n) by {
            lemma_mod_sub_multiples_vanish(f + 1, n);
        }
    }
    if c + 1 == n {
        assert(sphere_east(n, r, c) % n == 0);
    } else {
        assert(sphere_east(n, r, c) % n == c + 1);
    }
}

/// Lays face `row * n + i` of a sphere: records it on the sides of the
/// edges around it, and gives the face.
#[verifier::rlimit(40)]
fn lay_sphere_face(n: usize, edges: &mut Vec<Edge>, row: usize, i: usize) -> (face: Face)
    requires
        2 <= n <= MAX_SPHERE_SUBDIVISIONS,
        row < n,
        i < n,
        row * n + i < n * n,
        old(edges)@.len() == sphere_edge_count(n as int),
        forall|k: int|
            0 <= k < old(edges)@.len() ==> #[trigger] old(edges)@[k] == sphere_edge_after(n as int, k, row * n + i),
    ensures
        face == sphere_face(n as int, row * n + i),
        final(edges)@.len() == sphere_edge_count(n as int),
        forall|k: int|
            0 <= k < final(edges)@.len() ==> #[trigger] final(edges)@[k] == sphere_edge_after(n as int, k, row * n + i + 1),
{
    let ghost ni = n as int;
    let n_long = n;
    let rings_count = n - 1;
    let ghost f = row * n + i;
    proof {
        lemma_row_col(ni, row as int, i as int);
        lemma_row_col(ni, row as int, 0);
        lemma_sphere_face_edges(ni, row as int, i as int);
        if row >= 1 {
            lemma_row_col(ni, row as int - 1, i as int);
        }
    }
    let face_id = row * n_long + i;
    let e_right = row * n_long + (i + 1) % n_long;
    let e_left = row * n_long + i;
    proof {
        lemma_succ_mod(i as int, ni);
        assert(e_right == sphere_east(ni, row as int, i as int));
    }
    let ghost before = edges@;
    let mut face = Face { id: 0, edge: 0 };
    if row == 0 {
        // Northern cap: a triangle below the north pole.
        let e_bottom = n * n + i;
        face = Face { id: face_id, edge: e_left };

        let mut er = edges[e_right];
        er.face_clockwise = face_id;
        er.next_edge_clockwise = e_bottom;
        edges.set(e_right, er);

        let mut eb = edges[e_bottom];
        eb.face_counterclockwise = face_id;
        eb.next_edge_counterclockwise = e_left;
        edges.set(e_bottom, eb);

        let mut el = edges[e_left];
        el.face_counterclockwise = face_id;
        el.next_edge_counterclockwise = e_right;
        edges.set(e_left, el);
    } else if row < rings_count {
        // A band between two rings.
        let e_top = n * n + (row - 1) * n_long + i;
        let e_bottom = n * n + row * n_long + i;
        face = Face { id: face_id, edge: e_top };

        let mut et = edges[e_top];
        et.face_clockwise = face_id;
        et.next_edge_clockwise = e_right;
        edges.set(e_top, et);

        let mut er = edges[e_right];
        er.face_clockwise = face_id;
        er.next_edge_clockwise = e_bottom;
        edges.set(e_right, er);

        let mut eb = edges[e_bottom];
        eb.face_counterclockwise = face_id;
        eb.next_edge_counterclockwise = e_left;
        edges.set(e_bottom, eb);

        let mut el = edges[e_left];
        el.face_counterclockwise = face_id;
        el.next_edge_counterclockwise = e_top;
        edges.set(e_left, el);
    } else {
        // Southern cap: a triangle above the south pole.
        let last_ring_idx = rings_count - 1;
        let e_top = n * n + last_ring_idx * n_long + i;
        face = Face { id: face_id, edge: e_top };

        let mut et = edges[e_top];
        et.face_clockwise = face_id;
        et.next_edge_clockwise = e_right;
        edges.set(e_top, et);

        let mut er = edges[e_right];
        er.face_clockwise = face_id;
        er.next_edge_clockwise = e_left;
        edges.set(e_right, er);

        let mut el = edges[e_left];
        el.face_counterclockwise = face_id;
        el.next_edge_counterclockwise = e_top;
        edges.set(e_left, el);
    }
    assert forall|k: int| 0 <= k < edges@.len() implies #[trigger] edges@[k] == sphere_edge_after(
        ni,
        k,
        f + 1,
    ) by {
        if k != f && !(row < n - 1 && k == ni * ni + f) && k != sphere_east(ni, row as int, i as int) && !(
        row >= 1 && k == ni * ni + f - ni) {
            lemma_sphere_other_edges(ni, row as int, i as int, k);
            assert(edges@[k] == before[k]);
        }
    }
    face
}

/// Lays the faces of a sphere over its edges, row by row from the north
/// pole, setting the sides of the edges around each face.
fn lay_sphere_faces(n: usize, edges: &mut Vec<Edge>) -> (faces: Vec<Face>)
    requires
        2 <= n <= MAX_SPHERE_SUBDIVISIONS,
        old(edges)@ =~= Seq::new(sphere_edge_count(n as int) as nat, |k: int| sphere_edge_after(n as int, k, 0)),
    ensures
        final(edges)@ =~= sphere_edges(n as int),
        faces@ =~= sphere_faces(n as int),
{
    let ghost ni = n as int;
    let n_long = n;
    let n_lat = n;
    let rings_count = n_lat - 1;
    let mut faces: Vec<Face> = Vec::new();
    proof {
        lemma_row_col(ni, n as int, 0);
        lemma_row_col(ni, n as int - 1, 0);
    }
    // One row of faces at a time: the northern cap, the bands between the
    // rings, the southern cap.
    let mut row: usize = 0;
    while row < n_lat
        invariant
            n_long == n,
            n_lat == n,
            rings_count == n - 1,
            2 <= n <= MAX_SPHERE_SUBDIVISIONS,
            ni == n as int,
            0 <= row <= n,
            faces@.len() == row * n,
            faces@ =~= Seq::new(faces@.len(), |k: int| sphere_face(ni, k)),
            edges@.len() == sphere_edge_count(ni),
            forall|k: int|
                0 <= k < edges@.len() ==> #[trigger] edges@[k] == sphere_edge_after(ni, k, faces@.len() as int),
        decreases n - row,
    {
        proof {
            lemma_row_col(ni, row as int, 0);
        }
        let mut i: usize = 0;
        while i < n_long
            invariant
                n_long == n,
                n_lat == n,
                rings_count == n - 1,
                2 <= n <= MAX_SPHERE_SUBDIVISIONS,
                ni == n as int,
                0 <= row < n,
                0 <= i <= n,
                row * n + n == (row + 1) * n,
                faces@.len() == row * n + i,
                faces@ =~= Seq::new(faces@.len(), |k: int| sphere_face(ni, k)),
                edges@.len() == sphere_edge_count(ni),
                forall|k: int|
                    0 <= k < edges@.len() ==> #[trigger] edges@[k] == sphere_edge_after(ni, k, faces@.len() as int),
            decreases n - i,
        {
            proof {
                lemma_row_col(ni, row as int, i as int);
            }
            let face = lay_sphere_face(n, edges, row, i);
            faces.push(face);
            assert(faces@ =~= Seq::new(faces@.len(), |k: int| sphere_face(ni, k)));
            i += 1;
        }
        row += 1;
    }
    assert(faces@.len() == ni * ni);
    faces
}


impl WingedEdgeObject {
    /// The topology of a sphere with `subdivisions` meridians and
    /// `subdivisions` rows of faces.
    pub fn new_sphere(name: String, subdivisions: usize) -> (object: Self)
        requires
            2 <= subdivisions <= MAX_SPHERE_SUBDIVISIONS,
        ensures
            has_topology(
                object,
                name@,
                sphere_vertices(subdivisions as int),
                sphere_edges(subdivisions as int),
                sphere_faces(subdivisions as int),
            ),
            numbered_closed_surface(object),
    {
        let mut object = WingedEdgeObject::new(name);
        let (vertices, mut edges) = sphere_skeleton(subdivisions);
        let faces = lay_sphere_faces(subdivisions, &mut edges);
        object.vertices = vertices;
        object.edges = edges;
        object.faces = faces;
        proof {
            lemma_row_col(subdivisions as int, subdivisions as int, 0);
        }
        object
    }
}

/// Every side of every edge of a sphere has its face once all faces are
/// laid.
proof fn lemma_sphere_sides_done(n: int, k: int)
    requires
        2 <= n <= MAX_SPHERE_SUBDIVISIONS,
        0 <= k < sphere_edge_count(n),
    ensures
        0 <= sphere_cw_face(n, k) < n * n,
        0 <= sphere_ccw_face(n, k) < n * n,
{
    lemma_row_col(n, n, 0);
    lemma_row_col(n, n - 1, 0);
    if k < n * n {
        let r = k / n;
        let c = k % n;
        vstd::arithmetic::div_mod::lemma_fundamental_div_mod(k, n);
        assert(0 <= c < n) by {
            vstd::arithmetic::div_mod::lemma_mod_bound(k, n);
        }
        assert(k == r * n + c) by (nonlinear_arith)
            requires
                k == n * r + c,
        ;
        assert(0 <= r < n) by (nonlinear_arith)
            requires
                k == r * n + c,
                0 <= c < n,
                0 <= k < n * n,
                n > 0,
        ;
        lemma_row_col(n, r, c);
    }
}

/// The edges that a walk around face `r * n + c` of a sphere meets, as
/// they stand once all faces are laid.
proof fn lemma_sphere_face_setup(n: int, r: int, c: int)
    requires
        2 <= n <= MAX_SPHERE_SUBDIVISIONS,
        0 <= r < n,
        0 <= c < n,
    ensures
        ({
            let e = sphere_edges(n);
            let fi = r * n + c;
            let f = sphere_faces(n)[fi];
            let east = sphere_east(n, r, c);
            let below = n * n + fi;
            let above = n * n + fi - n;
            &&& 0 <= fi < n * n
            &&& f.id == fi
            &&& f.edge == if r == 0 { fi } else { above }
            &&& 0 <= east < e.len()
            &&& 0 <= fi < e.len()
            &&& e[east].face_clockwise == fi
            &&& e[east].next_edge_clockwise == if r == n - 1 { fi } else { below }
            &&& e[fi as int].face_clockwise != fi
            &&& e[fi as int].face_counterclockwise == fi
            &&& e[fi as int].next_edge_counterclockwise == if r == 0 { east } else { above }
            &&& r < n - 1 ==> 0 <= below < e.len() && e[below].face_clockwise != fi
                && e[below].face_counterclockwise == fi && e[below].next_edge_counterclockwise == fi
            &&& r >= 1 ==> 0 <= above < e.len() && e[above].face_clockwise == fi
                && e[above].next_edge_clockwise == east
        }),
{
    let e = sphere_edges(n);
    let fi = r * n + c;
    lemma_row_col(n, r, c);
    lemma_row_col(n, r, 0);
    lemma_row_col(n, n, 0);
    lemma_sphere_face_edges(n, r, c);
    let east = sphere_east(n, r, c);
    let below = n * n + fi;
    let above = n * n + fi - n;
    lemma_sphere_sides_done(n, east);
    lemma_sphere_sides_done(n, fi);
    assert(sphere_cw_face(n, fi) != fi);
    assert(e[east] == sphere_edge(n, east));
    assert(e[fi] == sphere_edge(n, fi));
    if r < n - 1 {
        lemma_sphere_sides_done(n, below);
        assert(e[below] == sphere_edge(n, below));
    }
    if r >= 1 {
        lemma_row_col(n, r - 1, c);
        lemma_sphere_sides_done(n, above);
        assert(e[above] == sphere_edge(n, above));
    }
}

/// Around face `r * n + c` of a sphere: a cap face has three edges, a band
/// face four.
proof fn lemma_sphere_face_walk(n: int, r: int, c: int)
    requires
        2 <= n <= MAX_SPHERE_SUBDIVISIONS,
        0 <= r < n,
        0 <= c < n,
    ensures
        ({
            let f = sphere_faces(n)[r * n + c];
            let len: nat = if r == 0 || r == n - 1 { 3 } else { 4 };
            walk_closes_at(sphere_edges(n), f.id, f.edge, len)
        }),
{
    lemma_sphere_face_setup(n, r, c);
    let e = sphere_edges(n);
    let fi = r * n + c;
    let f = sphere_faces(n)[fi];
    let east = sphere_east(n, r, c);
    let below = n * n + fi;
    let above = n * n + fi - n;
    let w1 = walk_step(e, f.id, f.edge);
    let w2 = walk_step(e, f.id, w1);
    let w3 = walk_step(e, f.id, w2);
    assert(walk_edge(e, f.id, f.edge, 0) == f.edge);
    assert(walk_edge(e, f.id, f.edge, 1) == w1);
    assert(walk_edge(e, f.id, f.edge, 2) == w2);
    assert(walk_edge(e, f.id, f.edge, 3) == w3);
    if r == 0 {
        assert(w1 == east);
        assert(w2 == below);
        assert(w3 == fi);
    } else if r == n - 1 {
        assert(w1 == east);
        assert(w2 == fi);
        assert(w3 == above);
    } else {
        let w4 = walk_step(e, f.id, w3);
        assert(walk_edge(e, f.id, f.edge, 4) == w4);
        assert(w1 == east);
        assert(w2 == below);
        assert(w3 == fi);
        assert(w4 == above);
    }
    let len: nat = if r == 0 || r == n - 1 { 3 } else { 4 };
    assert forall|k: nat| k < len implies #[trigger] walk_edge(e, f.id, f.edge, k) < e.len() by {
        if k == 0 {
        }
    }
}


/// Every face of a sphere is bounded by a closed cycle of edges: the faces
/// of the two polar caps by three, the faces of the bands between the rings
/// by four.
pub proof fn lemma_sphere_faces_close(n: int)
    requires
        2 <= n <= MAX_SPHERE_SUBDIVISIONS,
    ensures
        forall|k: int|
            0 <= k < n * n ==> face_walk_closes(sphere_edges(n), #[trigger] sphere_faces(n)[k]) && face_cycle_len(
                sphere_edges(n),
                sphere_faces(n)[k],
            ) == if k < n || k >= n * n - n {
                3nat
            } else {
                4nat
            },
{
    assert forall|k: int| 0 <= k < n * n implies face_walk_closes(sphere_edges(n), #[trigger] sphere_faces(n)[k])
        && face_cycle_len(sphere_edges(n), sphere_faces(n)[k]) == if k < n || k >= n * n - n {
        3nat
    } else {
        4nat
    } by {
        let r = k / n;
        let c = k % n;
        vstd::arithmetic::div_mod::lemma_fundamental_div_mod(k, n);
        vstd::arithmetic::div_mod::lemma_mod_bound(k, n);
        assert(k == r * n + c) by (nonlinear_arith)
            requires
                k == n * r + c,
        ;
        assert(0 <= r < n) by (nonlinear_arith)
            requires
                k == r * n + c,
                0 <= c < n,
                0 <= k < n * n,
                n > 0,
        ;
        lemma_row_col(n, r, c);
        lemma_sphere_face_walk(n, r, c);
        let len: nat = if r == 0 || r == n - 1 { 3 } else { 4 };
        lemma_face_cycle_len(sphere_edges(n), sphere_faces(n)[k], len);
    }
}

proof fn lemma_sphere_gl_vertex_count(n: int, k: int)
    requires
        2 <= n <= MAX_SPHERE_SUBDIVISIONS,
        0 <= k <= n * n,
    ensures
        gl_vertex_count(sphere_edges(n), sphere_faces(n), k) <= 6 * k,
    decreases k,
{
    lemma_sphere_faces_close(n);
    if k > 0 {
        lemma_sphere_gl_vertex_count(n, k - 1);
        assert(sphere_faces(n)[k - 1] == sphere_faces(n)[k - 1]);
    }
}

/// A sphere can be drawn: `build_opengl` accepts the topology that
/// `new_sphere` builds.
pub proof fn lemma_sphere_drawable(n: int)
    requires
        2 <= n <= MAX_SPHERE_SUBDIVISIONS,
    ensures
        drawable(sphere_edges(n), sphere_faces(n)),
{
    lemma_sphere_faces_close(n);
    lemma_row_col(n, n, 0);
    lemma_sphere_gl_vertex_count(n, n * n);
}

/// The column before `c` in a ring of `n`.
pub open spec fn ring_west(n: int, c: int) -> int {
    if c == 0 {
        n - 1
    } else {
        c - 1
    }
}

/// The column after `c` in a ring of `n`.
pub open spec fn ring_east(n: int, c: int) -> int {
    if c + 1 == n {
        0
    } else {
        c + 1
    }
}

/// The meridian edge `r * n + c` of a sphere: from the north pole (first
/// row) or ring vertex `2 + (r - 1) n + c`, to the south pole (last row) or
/// ring vertex `2 + r n + c`; face `r n + c` on its counterclockwise side
/// and the face west of it on the other.
proof fn lemma_meridian_fields(n: int, r: int, c: int)
    requires
        2 <= n <= MAX_SPHERE_SUBDIVISIONS,
        0 <= r < n,
        0 <= c < n,
    ensures
        r * n + c < sphere_edges(n).len(),
        sphere_edges(n)[r * n + c].vertex_start == (if r == 0 { 0 } else { 2 + (r - 1) * n + c }),
        sphere_edges(n)[r * n + c].vertex_end == (if r == n - 1 { 1 } else { 2 + r * n + c }),
        sphere_edges(n)[r * n + c].face_clockwise == r * n + ring_west(n, c),
        sphere_edges(n)[r * n + c].next_edge_clockwise == (if r == n - 1 {
            r * n + ring_west(n, c)
        } else {
            n * n + r * n + ring_west(n, c)
        }),
        sphere_edges(n)[r * n + c].face_counterclockwise == r * n + c,
        sphere_edges(n)[r * n + c].next_edge_counterclockwise == (if r == 0 {
            ring_east(n, c)
        } else {
            n * n + (r - 1) * n + c
        }),
{
    let k = r * n + c;
    lemma_row_col(n, r, c);
    lemma_row_col(n, r, 0);
    if r >= 1 {
        assert((r - 1) * n == r * n - n) by (nonlinear_arith);
    }
    assert(sphere_edges(n)[k] == sphere_edge(n, k));
    if c == 0 {
        assert(k + n - 1 == r * n + ring_west(n, c));
    }
}

/// The ring edge `n * n + r * n + c` of a sphere: from ring vertex
/// `2 + r n + c` to the next one east; face `(r + 1) n + c` on its
/// clockwise side and face `r n + c` on the other.
proof fn lemma_ring_fields(n: int, r: int, c: int)
    requires
        2 <= n <= MAX_SPHERE_SUBDIVISIONS,
        0 <= r < n - 1,
        0 <= c < n,
    ensures
        n * n + r * n + c < sphere_edges(n).len(),
        n * n <= n * n + r * n + c,
        sphere_edges(n)[n * n + r * n + c].vertex_start == 2 + r * n + c,
        sphere_edges(n)[n * n + r * n + c].vertex_end == 2 + r * n + ring_east(n, c),
        sphere_edges(n)[n * n + r * n + c].face_clockwise == (r + 1) * n + c,
        sphere_edges(n)[n * n + r * n + c].next_edge_clockwise == (r + 1) * n + ring_east(n, c),
        sphere_edges(n)[n * n + r * n + c].face_counterclockwise == r * n + c,
        sphere_edges(n)[n * n + r * n + c].next_edge_counterclockwise == r * n + c,
{
    let j = r * n + c;
    let k = n * n + j;
    lemma_row_col(n, r, c);
    lemma_row_col(n, r + 1, 0);
    assert(sphere_edges(n)[k] == sphere_edge(n, k));
    assert(k - n * n == j);
    if c + 1 == n {
        assert(j + 1 == (r + 1) * n);
    }
}

/// Both sides of the meridian edge `r * n + c` of a sphere chain to the
/// next edge.
proof fn lemma_sphere_meridian_chains(n: int, r: int, c: int)
    requires
        2 <= n <= MAX_SPHERE_SUBDIVISIONS,
        0 <= r < n,
        0 <= c < n,
    ensures
        side_chains(sphere_edges(n), sphere_edges(n)[r * n + c].face_clockwise, r * n + c),
        side_chains(sphere_edges(n), sphere_edges(n)[r * n + c].face_counterclockwise, r * n + c),
{
    let w = ring_west(n, c);
    let e = ring_east(n, c);
    lemma_row_col(n, r, c);
    lemma_row_col(n, r, w);
    lemma_row_col(n, r, e);
    lemma_meridian_fields(n, r, c);
    if r == n - 1 {
        lemma_meridian_fields(n, r, w);
    } else {
        lemma_ring_fields(n, r, w);
        assert(ring_east(n, w) == c);
    }
    if r == 0 {
        lemma_meridian_fields(n, 0, e);
        assert(ring_west(n, e) == c);
    } else {
        lemma_ring_fields(n, r - 1, c);
        assert((r - 1 + 1) * n == r * n);
    }
}

/// Both sides of the ring edge `n * n + r * n + c` of a sphere chain to the
/// next edge.
proof fn lemma_sphere_ring_chains(n: int, r: int, c: int)
    requires
        2 <= n <= MAX_SPHERE_SUBDIVISIONS,
        0 <= r < n - 1,
        0 <= c < n,
    ensures
        side_chains(sphere_edges(n), sphere_edges(n)[n * n + r * n + c].face_clockwise, n * n + r * n + c),
        side_chains(sphere_edges(n), sphere_edges(n)[n * n + r * n + c].face_counterclockwise, n * n + r * n + c),
{
    let e = ring_east(n, c);
    lemma_row_col(n, r, c);
    lemma_row_col(n, r + 1, e);
    lemma_ring_fields(n, r, c);
    lemma_meridian_fields(n, r + 1, e);
    assert(ring_west(n, e) == c);
    assert((r + 1) * n == r * n + n) by (nonlinear_arith);
    assert((r + 1 - 1) * n == r * n);
    lemma_meridian_fields(n, r, c);
}

/// Around every face of a sphere, the edges meet end to end (see
/// `boundaries_chain`).
pub proof fn lemma_sphere_boundaries_chain(n: int)
    requires
        2 <= n <= MAX_SPHERE_SUBDIVISIONS,
    ensures
        boundaries_chain(sphere_edges(n)),
{
    let edges = sphere_edges(n);
    assert forall|e: int| 0 <= e < edges.len() implies side_chains(edges, (#[trigger] edges[e]).face_clockwise, e)
        && side_chains(edges, edges[e].face_counterclockwise, e) by {
        if e < n * n {
            let r = e / n;
            let c = e % n;
            vstd::arithmetic::div_mod::lemma_fundamental_div_mod(e, n);
            assert(n * r == r * n) by (nonlinear_arith);
            assert(r < n) by (nonlinear_arith)
                requires
                    e == r * n + c,
                    0 <= c < n,
                    e < n * n,
                    0 <= e,
                    2 <= n,
            ;
            assert(0 <= r) by (nonlinear_arith)
                requires
                    e == r * n + c,
                    0 <= c < n,
                    0 <= e,
                    2 <= n,
            ;
            lemma_sphere_meridian_chains(n, r, c);
        } else {
            let j = e - n * n;
            let r = j / n;
            let c = j % n;
            vstd::arithmetic::div_mod::lemma_fundamental_div_mod(j, n);
            assert(n * r == r * n) by (nonlinear_arith);
            assert(n <= n * n) by (nonlinear_arith)
                requires
                    2 <= n,
            ;
            assert(edges.len() == 2 * (n * n) - n);
            assert(j < n * n - n);
            assert(r < n - 1) by (nonlinear_arith)
                requires
                    j == r * n + c,
                    0 <= c < n,
                    j < n * n - n,
                    0 <= j,
                    2 <= n,
            ;
            assert(0 <= r) by (nonlinear_arith)
                requires
                    j == r * n + c,
                    0 <= c < n,
                    0 <= j,
                    2 <= n,
            ;
            lemma_sphere_ring_chains(n, r, c);
        }
    }
}

} // verus!
