use vstd::prelude::*;

verus! {

/// Whether `indices` lists, three by three, the triangles `tri(0)`,
/// `tri(1)`, ... of a mesh: `count` triangles in all.
pub open spec fn lists_triangles(indices: Seq<usize>, count: int, tri: spec_fn(int) -> (int, int, int)) -> bool {
    &&& indices.len() == 3 * count
    &&& forall|t: int|
        0 <= t < count ==> {
            &&& indices[3 * t] == (#[trigger] tri(t)).0
            &&& indices[3 * t + 1] == tri(t).1
            &&& indices[3 * t + 2] == tri(t).2
        }
}

/// Whether every index of a mesh names one of its `vertex_count` vertices.
pub open spec fn indices_in_range(indices: Seq<usize>, vertex_count: int) -> bool {
    forall|k: int| 0 <= k < indices.len() ==> #[trigger] indices[k] < vertex_count
}

fn push_triangle(indices: &mut Vec<usize>, a: usize, b: usize, c: usize)
    ensures
        final(indices)@ == old(indices)@.push(a).push(b).push(c),
{
    indices.push(a);
    indices.push(b);
    indices.push(c);
}

// ---------------------------------------------------------------------------
// Cone
// ---------------------------------------------------------------------------
/// The vertices of a cone mesh with `s` subdivisions: the base centre, the
/// `s + 1` base rim points (the last one repeats the first), then `s + 1`
/// pairs of apex and rim point for the sides.
pub open spec fn cone_vertex_count(s: int) -> int {
    3 * s + 4
}

/// Triangle `t` of a cone mesh with `s` subdivisions: the first `s` fan out
/// from the base centre over the rim, the next `s` join the apex copies to
/// the rim.
pub open spec fn cone_triangle(s: int, t: int) -> (int, int, int) {
    if t < s {
        (0, t + 1, t + 2)
    } else {
        let i = t - s + 1;
        let side = s + 2;
        (side + 2 * (i - 1) + 1, side + 2 * i, side + 2 * i + 1)
    }
}

/// The triangle indices of a cone mesh with `subdivisions` sides.
pub fn cone_mesh_indices(subdivisions: u32) -> (indices: Vec<usize>)
    requires
        3 * subdivisions + 4 <= usize::MAX,
    ensures
        lists_triangles(indices@, 2 * subdivisions, |t: int| cone_triangle(subdivisions as int, t)),
{
    let s = subdivisions as usize;
    let ghost tri = |t: int| cone_triangle(s as int, t);
    let mut indices: Vec<usize> = Vec::new();
    let base_center_index: usize = 0;
    let mut i: usize = 1;
    while i <= s
        invariant
            1 <= i <= s + 1,
            s == subdivisions,
            3 * s + 4 <= usize::MAX,
            base_center_index == 0,
            forall|t: int| #[trigger] tri(t) == cone_triangle(s as int, t),
            lists_triangles(indices@, i - 1, tri),
        decreases s + 1 - i,
    {
        let current = base_center_index + i + 1;
        let prev = base_center_index + i;
        push_triangle(&mut indices, base_center_index, prev, current);
        proof {
            assert(tri((i - 1) as int) == (0int, i as int, i + 1));
        }
        i += 1;
    }
    let side_start_index = s + 2;
    let mut i: usize = 1;
    while i <= s
        invariant
            1 <= i <= s + 1,
            s == subdivisions,
            3 * s + 4 <= usize::MAX,
            side_start_index == s + 2,
            forall|t: int| #[trigger] tri(t) == cone_triangle(s as int, t),
            lists_triangles(indices@, s + i - 1, tri),
        decreases s + 1 - i,
    {
        let top_curr = side_start_index + i * 2;
        let bottom_curr = side_start_index + i * 2 + 1;
        let bottom_prev = side_start_index + (i - 1) * 2 + 1;
        push_triangle(&mut indices, bottom_prev, top_curr, bottom_curr);
        proof {
            assert(tri(s + i - 1) == (bottom_prev as int, top_curr as int, bottom_curr as int));
        }
        i += 1;
    }
    indices
}

/// Every index of a cone mesh names one of its vertices.
pub proof fn lemma_cone_indices_in_range(indices: Seq<usize>, s: int)
    requires
        s >= 0,
        lists_triangles(indices, 2 * s, |t: int| cone_triangle(s, t)),
    ensures
        indices_in_range(indices, cone_vertex_count(s)),
{
    let tri = |t: int| cone_triangle(s, t);
    assert forall|k: int| 0 <= k < indices.len() implies #[trigger] indices[k] < cone_vertex_count(s) by {
        let t = k / 3;
        assert(0 <= t < 2 * s);
        assert(k == 3 * t || k == 3 * t + 1 || k == 3 * t + 2);
        assert(tri(t) == cone_triangle(s, t));
    }
}

// ---------------------------------------------------------------------------
// Cylinder
// ---------------------------------------------------------------------------
/// The vertices of a cylinder mesh with `s` subdivisions: the top centre
/// and its `s + 1` rim points, the bottom centre and its `s + 1` rim points,
/// then `s + 1` pairs of top and bottom points for the side.
pub open spec fn cylinder_vertex_count(s: int) -> int {
    4 * s + 6
}

/// Triangle `t` of a cylinder mesh with `s` subdivisions: `s + 1` fan out
/// from the top centre (the last one closes the fan), `s + 1` from the
/// bottom centre, then two per side quad, and two that close the side.
pub open spec fn cylinder_triangle(s: int, t: int) -> (int, int, int) {
    let side = 2 * s + 4;
    if t < s {
        (0, t + 2, t + 1)
    } else if t == s {
        (0, s + 1, 1)
    } else if t < 2 * s + 1 {
        let i = t - s;
        (s + 2, s + 2 + i, s + 3 + i)
    } else if t == 2 * s + 1 {
        (s + 2, s + 3, 2 * s + 3)
    } else if t < 4 * s + 2 {
        let j = t - (2 * s + 2);
        let i = j / 2 + 1;
        if j % 2 == 0 {
            (side + 2 * (i - 1) + 1, side + 2 * (i - 1), side + 2 * i + 1)
        } else {
            (side + 2 * (i - 1), side + 2 * i, side + 2 * i + 1)
        }
    } else if t == 4 * s + 2 {
        (side + s - 1, side + s, side + s - 1)
    } else {
        (side + s - 1, side + s, side + s)
    }
}

/// The triangle indices of a cylinder mesh with `subdivisions` sides.
pub fn cylinder_mesh_indices(subdivisions: u32) -> (indices: Vec<usize>)
    requires
        1 <= subdivisions,
        4 * subdivisions + 6 <= usize::MAX,
    ensures
        lists_triangles(indices@, 4 * subdivisions + 4, |t: int| cylinder_triangle(subdivisions as int, t)),
{
    let s = subdivisions as usize;
    let ghost tri = |t: int| cylinder_triangle(s as int, t);
    let mut indices: Vec<usize> = Vec::new();
    // top cap, centre at 0, rim from 1
    let start_index: usize = 1;
    let mut i: usize = 1;
    while i <= s
        invariant
            1 <= i <= s + 1,
            s == subdivisions,
            1 <= s,
            4 * s + 6 <= usize::MAX,
            start_index == 1,
            forall|t: int| #[trigger] tri(t) == cylinder_triangle(s as int, t),
            lists_triangles(indices@, i - 1, tri),
        decreases s + 1 - i,
    {
        push_triangle(&mut indices, start_index - 1, start_index + i, start_index + (i - 1));
        proof {
            assert(tri((i - 1) as int) == (0int, i + 1, i as int));
        }
        i += 1;
    }
    push_triangle(&mut indices, start_index - 1, start_index + s, start_index);
    assert(tri(s as int) == (0int, s + 1, 1int));
    // bottom cap, centre at s + 2, rim from s + 3
    let start_index: usize = s + 3;
    let mut i: usize = 1;
    while i <= s
        invariant
            1 <= i <= s + 1,
            s == subdivisions,
            1 <= s,
            4 * s + 6 <= usize::MAX,
            start_index == s + 3,
            forall|t: int| #[trigger] tri(t) == cylinder_triangle(s as int, t),
            lists_triangles(indices@, s + i, tri),
        decreases s + 1 - i,
    {
        push_triangle(&mut indices, start_index - 1, start_index + (i - 1), start_index + i);
        proof {
            assert(tri(s + i) == (s + 2, s + 2 + i, s + 3 + i));
        }
        i += 1;
    }
    push_triangle(&mut indices, start_index - 1, start_index, start_index + s);
    assert(tri(2 * s + 1) == (s + 2, s + 3, 2 * s + 3));
    // side quads, top and bottom points alternating from 2s + 4
    let start_index: usize = 2 * s + 4;
    let mut i: usize = 1;
    while i <= s
        invariant
            1 <= i <= s + 1,
            s == subdivisions,
            1 <= s,
            4 * s + 6 <= usize::MAX,
            start_index == 2 * s + 4,
            forall|t: int| #[trigger] tri(t) == cylinder_triangle(s as int, t),
            lists_triangles(indices@, 2 * s + 2 + 2 * (i - 1), tri),
        decreases s + 1 - i,
    {
        let top_left = start_index + (i - 1) * 2;
        let bottom_left = start_index + (i - 1) * 2 + 1;
        let top_right = start_index + i * 2;
        let bottom_right = start_index + i * 2 + 1;
        push_triangle(&mut indices, bottom_left, top_left, bottom_right);
        push_triangle(&mut indices, top_left, top_right, bottom_right);
        proof {
            let t0 = 2 * s + 2 + 2 * (i - 1);
            assert((t0 - (2 * s + 2)) / 2 + 1 == i);
            assert((t0 + 1 - (2 * s + 2)) / 2 + 1 == i);
            assert(tri(t0) == (bottom_left as int, top_left as int, bottom_right as int));
            assert(tri(t0 + 1) == (top_left as int, top_right as int, bottom_right as int));
        }
        i += 1;
    }
    let top_left = start_index + (s - 1);
    let bottom_left = start_index + (s - 1);
    let top_right = start_index + s;
    let bottom_right = start_index + s;
    push_triangle(&mut indices, bottom_left, bottom_right, top_left);
    push_triangle(&mut indices, top_left, bottom_right, top_right);
    assert(tri(4 * s + 2) == (bottom_left as int, bottom_right as int, top_left as int));
    assert(tri(4 * s + 3) == (top_left as int, bottom_right as int, top_right as int));
    indices
}

/// Every index of a cylinder mesh names one of its vertices.
pub proof fn lemma_cylinder_indices_in_range(indices: Seq<usize>, s: int)
    requires
        s >= 1,
        lists_triangles(indices, 4 * s + 4, |t: int| cylinder_triangle(s, t)),
    ensures
        indices_in_range(indices, cylinder_vertex_count(s)),
{
    let tri = |t: int| cylinder_triangle(s, t);
    assert forall|k: int| 0 <= k < indices.len() implies #[trigger] indices[k] < cylinder_vertex_count(s) by {
        let t = k / 3;
        assert(0 <= t < 4 * s + 4);
        assert(k == 3 * t || k == 3 * t + 1 || k == 3 * t + 2);
        assert(tri(t) == cylinder_triangle(s, t));
    }
}

// ---------------------------------------------------------------------------
// Sphere
// ---------------------------------------------------------------------------
/// The vertices of a sphere mesh with `s` subdivisions: each of the six
/// faces of a cube is a grid of `(s + 2) * (s + 2)` points pushed onto the
/// sphere.
pub open spec fn sphere_mesh_vertex_count(s: int) -> int {
    6 * (s + 2) * (s + 2)
}

/// The triangles of a sphere mesh with `s` subdivisions: two per cell of
/// the six `(s + 1) * (s + 1)` grids.
pub open spec fn sphere_triangle_count(s: int) -> int {
    12 * (s + 1) * (s + 1)
}

/// Triangle `k` (0 or 1) of the cell in column `x`, row `y` of grid `f`,
/// for grids of `res * res` cells: the lower-left and the upper-right half
/// of the cell's quad.
pub open spec fn sphere_cell_triangle(res: int, f: int, y: int, x: int, k: int) -> (int, int, int) {
    let i = f * (res + 1) * (res + 1) + x + y * (res + 1);
    if k == 0 {
        (i, i + 1, i + res + 1)
    } else {
        (i + res + 1, i + 1, i + res + 2)
    }
}

/// Triangle `t` of a sphere mesh with `s` subdivisions: cells are taken
/// grid by grid, row by row, column by column, two triangles each.
pub open spec fn sphere_triangle(s: int, t: int) -> (int, int, int) {
    let res = s + 1;
    let c = t / 2;
    sphere_cell_triangle(res, c / (res * res), (c % (res * res)) / res, c % res, t % 2)
}

proof fn lemma_sphere_triangle_at(s: int, f: int, y: int, x: int, k: int)
    requires
        s >= 0,
        0 <= f,
        0 <= y < s + 1,
        0 <= x < s + 1,
        0 <= k < 2,
    ensures
        sphere_triangle(s, 2 * ((f * (s + 1) + y) * (s + 1) + x) + k) == sphere_cell_triangle(s + 1, f, y, x, k),
{
    let res = s + 1;
    let c = (f * res + y) * res + x;
    let t = 2 * c + k;
    vstd::arithmetic::div_mod::lemma_fundamental_div_mod_converse(t, 2, c, k);
    let r = y * res + x;
    assert(c == f * (res * res) + r) by (nonlinear_arith)
        requires
            c == (f * res + y) * res + x,
            r == y * res + x,
    ;
    assert(0 <= r < res * res) by (nonlinear_arith)
        requires
            r == y * res + x,
            0 <= y < res,
            0 <= x < res,
    ;
    vstd::arithmetic::div_mod::lemma_fundamental_div_mod_converse(c, res * res, f, r);
    vstd::arithmetic::div_mod::lemma_fundamental_div_mod_converse(r, res, y, x);
    assert(c == (f * res + y) * res + x);
    vstd::arithmetic::div_mod::lemma_fundamental_div_mod_converse(c, res, f * res + y, x);
}

/// The triangle indices of a sphere mesh with `subdivisions` subdivisions,
/// as the six grids of a cube pushed onto the sphere make it. The indices
/// are computed in 32 bits, and the grids' vertex data (two vectors per
/// point) must stay below 2^32 numbers.
pub fn sphere_mesh_indices(subdivisions: u32) -> (indices: Vec<usize>)
    requires
        10 * (subdivisions + 2) * (subdivisions + 2) < 0x1_0000_0000,
    ensures
        lists_triangles(indices@, sphere_triangle_count(subdivisions as int), |t: int| sphere_triangle(subdivisions as int, t)),
{
    let ghost s = subdivisions as int;
    let ghost tri = |t: int| sphere_triangle(s, t);
    assert(subdivisions < 0x1_0000) by (nonlinear_arith)
        requires
            10 * (subdivisions + 2) * (subdivisions + 2) < 0x1_0000_0000,
    ;
    let resolution: u32 = subdivisions + 1;
    let side: u32 = resolution + 1;
    assert(6 * (side * side) < 0x1_0000_0000) by (nonlinear_arith)
        requires
            side == subdivisions + 2,
            10 * (subdivisions + 2) * (subdivisions + 2) < 0x1_0000_0000,
    ;
    let grid: u32 = side * side;
    let mut indices: Vec<usize> = Vec::new();
    let mut cell: usize = 0;
    let mut f: u32 = 0;
    while f < 6
        invariant
            0 <= f <= 6,
            s == subdivisions,
            resolution == s + 1,
            side == resolution + 1,
            grid == side * side,
            10 * (s + 2) * (s + 2) < 0x1_0000_0000,
            6 * grid < 0x1_0000_0000,
            forall|t: int| #[trigger] tri(t) == sphere_triangle(s, t),
            cell == f * resolution * resolution,
            lists_triangles(indices@, 2 * cell, tri),
        decreases 6 - f,
    {
        assert((f + 1) * grid <= 6 * grid) by (nonlinear_arith)
            requires
                f < 6,
                grid >= 0,
        ;
        assert(f * grid <= (f + 1) * grid) by (nonlinear_arith)
            requires
                grid >= 0,
                f >= 0,
        ;
        let start_index: u32 = f * grid;
        let mut y: u32 = 0;
        while y < resolution
            invariant
                0 <= f < 6,
                0 <= y <= resolution,
                s == subdivisions,
                resolution == s + 1,
                side == resolution + 1,
                grid == side * side,
                6 * grid < 0x1_0000_0000,
                (f + 1) * grid <= 6 * grid,
                start_index == f * grid,
                forall|t: int| #[trigger] tri(t) == sphere_triangle(s, t),
                cell == (f * resolution + y) * resolution,
                lists_triangles(indices@, 2 * cell, tri),
            decreases resolution - y,
        {
            let mut x: u32 = 0;
            while x < resolution
                invariant
                    0 <= f < 6,
                    0 <= y < resolution,
                    0 <= x <= resolution,
                    s == subdivisions,
                    resolution == s + 1,
                    side == resolution + 1,
                    grid == side * side,
                    6 * grid < 0x1_0000_0000,
                    (f + 1) * grid <= 6 * grid,
                    start_index == f * grid,
                    forall|t: int| #[trigger] tri(t) == sphere_triangle(s, t),
                    cell == (f * resolution + y) * resolution + x,
                    lists_triangles(indices@, 2 * cell, tri),
                decreases resolution - x,
            {
                assert(start_index + x + y * side + side + 1 < (f + 1) * grid) by (nonlinear_arith)
                    requires
                        start_index == f * grid,
                        grid == side * side,
                        side == resolution + 1,
                        x < resolution,
                        y < resolution,
                ;
                let i: u32 = start_index + x + y * side;
                let bottom_left = i;
                let bottom_right = i + 1;
                let top_left = i + side;
                let top_right = i + side + 1;
                push_triangle(&mut indices, bottom_left as usize, bottom_right as usize, top_left as usize);
                push_triangle(&mut indices, top_left as usize, bottom_right as usize, top_right as usize);
                proof {
                    lemma_sphere_triangle_at(s, f as int, y as int, x as int, 0);
                    lemma_sphere_triangle_at(s, f as int, y as int, x as int, 1);
                    assert(f * (resolution + 1) * (resolution + 1) == start_index) by (nonlinear_arith)
                        requires
                            start_index == f * grid,
                            grid == side * side,
                            side == resolution + 1,
                    ;
                }
                assert(cell + 1 <= 6 * grid) by (nonlinear_arith)
                    requires
                        cell == (f * resolution + y) * resolution + x,
                        f < 6,
                        y < resolution,
                        x < resolution,
                        grid == side * side,
                        side == resolution + 1,
                ;
                cell = cell + 1;
                x += 1;
            }
            assert((f * resolution + y) * resolution + resolution == (f * resolution + (y + 1)) * resolution)
                by (nonlinear_arith);
            y += 1;
        }
        assert((f * resolution + resolution) * resolution == (f + 1) * resolution * resolution) by (nonlinear_arith);
        f += 1;
    }
    assert(2 * cell == 12 * (s + 1) * (s + 1)) by (nonlinear_arith)
        requires
            cell == 6 * resolution * resolution,
            resolution == s + 1,
    ;
    assert(tri =~= |t: int| sphere_triangle(subdivisions as int, t));
    indices
}

/// Every index of a sphere mesh names one of its vertices.
pub proof fn lemma_sphere_indices_in_range(indices: Seq<usize>, s: int)
    requires
        s >= 0,
        lists_triangles(indices, sphere_triangle_count(s), |t: int| sphere_triangle(s, t)),
    ensures
        indices_in_range(indices, sphere_mesh_vertex_count(s)),
{
    let tri = |t: int| sphere_triangle(s, t);
    let res = s + 1;
    assert forall|k: int| 0 <= k < indices.len() implies #[trigger] indices[k] < sphere_mesh_vertex_count(s) by {
        let t = k / 3;
        assert(0 <= t < sphere_triangle_count(s));
        assert(k == 3 * t || k == 3 * t + 1 || k == 3 * t + 2);
        let c = t / 2;
        let f = c / (res * res);
        let y = (c % (res * res)) / res;
        let x = c % res;
        assert(res * res > 0) by (nonlinear_arith)
            requires
                res >= 1,
        ;
        assert(0 <= c < 6 * (res * res)) by (nonlinear_arith)
            requires
                0 <= t < 12 * res * res,
                c == t / 2,
        ;
        assert(0 <= f < 6) by (nonlinear_arith)
            requires
                0 <= c < 6 * (res * res),
                f == c / (res * res),
                res * res > 0,
        ;
        assert(0 <= y < res) by (nonlinear_arith)
            requires
                y == (c % (res * res)) / res,
                res >= 1,
        ;
        assert(0 <= x < res);
        let i = f * (res + 1) * (res + 1) + x + y * (res + 1);
        assert(i + res + 2 < 6 * (s + 2) * (s + 2)) by (nonlinear_arith)
            requires
                i == f * (res + 1) * (res + 1) + x + y * (res + 1),
                0 <= f < 6,
                0 <= y < res,
                0 <= x < res,
                res == s + 1,
        ;
        assert(tri(t) == sphere_cell_triangle(res, f, y, x, t % 2));
    }
}

// ---------------------------------------------------------------------------
// Meshes read from a file
// ---------------------------------------------------------------------------
/// The number of vertices of the first `k` models.
pub open spec fn vertex_offset(vertex_counts: Seq<usize>, k: int) -> int
    decreases k,
{
    if 0 < k <= vertex_counts.len() {
        vertex_offset(vertex_counts, k - 1) + vertex_counts[k - 1]
    } else {
        0
    }
}

/// The indices of model `m` shifted past the vertices of the models before
/// it.
pub open spec fn shifted(indices: Seq<u32>, offset: int) -> Seq<int> {
    Seq::new(indices.len(), |i: int| indices[i] + offset)
}

/// The triangle indices of the first `k` models joined into one mesh: each
/// model's vertices follow those of the models before it.
pub open spec fn joined_indices(vertex_counts: Seq<usize>, model_indices: Seq<Seq<u32>>, k: int) -> Seq<int>
    decreases k,
{
    if 0 < k <= model_indices.len() {
        joined_indices(vertex_counts, model_indices, k - 1) + shifted(
            model_indices[k - 1],
            vertex_offset(vertex_counts, k - 1),
        )
    } else {
        Seq::empty()
    }
}

proof fn lemma_vertex_offset_monotone(vertex_counts: Seq<usize>, j: int, k: int)
    requires
        0 <= j <= k <= vertex_counts.len(),
    ensures
        vertex_offset(vertex_counts, j) <= vertex_offset(vertex_counts, k),
    decreases k - j,
{
    if j < k {
        lemma_vertex_offset_monotone(vertex_counts, j, k - 1);
    }
}

/// Joins the models of a file into one mesh: the vertices of model `m`
/// follow those of models `0..m`, so its indices are shifted by their
/// number. The shifted indices must fit the machine's word.
pub fn join_model_indices(vertex_counts: &[usize], model_indices: &[Vec<u32>]) -> (indices: Vec<usize>)
    requires
        vertex_counts@.len() == model_indices@.len(),
        vertex_offset(vertex_counts@, vertex_counts@.len() as int) + 0x1_0000_0000 <= usize::MAX,
    ensures
        indices@.len() == joined_indices(vertex_counts@, model_indices.deep_view(), model_indices@.len() as int).len(),
        forall|i: int|
            0 <= i < indices@.len() ==> indices@[i] == #[trigger] joined_indices(
                vertex_counts@,
                model_indices.deep_view(),
                model_indices@.len() as int,
            )[i],
{
    let ghost mi = model_indices.deep_view();
    let mut indices: Vec<usize> = Vec::new();
    let mut vertex_offset_now: usize = 0;
    let mut m: usize = 0;
    while m < model_indices.len()
        invariant
            0 <= m <= model_indices@.len(),
            vertex_counts@.len() == model_indices@.len(),
            mi == model_indices.deep_view(),
            vertex_offset(vertex_counts@, vertex_counts@.len() as int) + 0x1_0000_0000 <= usize::MAX,
            vertex_offset_now == vertex_offset(vertex_counts@, m as int),
            indices@.len() == joined_indices(vertex_counts@, mi, m as int).len(),
            forall|i: int| 0 <= i < indices@.len() ==> indices@[i] == #[trigger] joined_indices(vertex_counts@, mi, m as int)[i],
        decreases model_indices@.len() - m,
    {
        proof {
            lemma_vertex_offset_monotone(vertex_counts@, m + 1, vertex_counts@.len() as int);
        }
        let model = &model_indices[m];
        let ghost before = joined_indices(vertex_counts@, mi, m as int);
        assert(mi[m as int] == model@);
        let mut i: usize = 0;
        while i < model.len()
            invariant
                0 <= i <= model@.len(),
                m < model_indices@.len(),
                mi[m as int] == model@,
                vertex_offset_now + 0x1_0000_0000 <= usize::MAX,
                indices@.len() == before.len() + i,
                forall|j: int| 0 <= j < before.len() ==> indices@[j] == before[j],
                forall|j: int| 0 <= j < i ==> indices@[before.len() + j] == model@[j] + vertex_offset_now,
            decreases model@.len() - i,
        {
            indices.push(model[i] as usize + vertex_offset_now);
            i += 1;
        }
        let ghost after = joined_indices(vertex_counts@, mi, m + 1);
        assert(after =~= before + shifted(model@, vertex_offset_now as int));
        assert forall|j: int| 0 <= j < indices@.len() implies indices@[j] == #[trigger] after[j] by {
            if j >= before.len() {
                assert(after[j] == shifted(model@, vertex_offset_now as int)[j - before.len()]);
            }
        }
        vertex_offset_now = vertex_offset_now + vertex_counts[m];
        m += 1;
    }
    indices
}

} // verus!
