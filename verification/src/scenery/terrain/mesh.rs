use vstd::arithmetic::div_mod::lemma_fundamental_div_mod_converse;
use vstd::prelude::*;

verus! {

/// Grid subdivisions of one terrain chunk.
pub const SUBDIV_PER_TILE: u32 = 32;

/// Vertices along one edge of a chunk's grid.
pub const GRID_VERTS: u32 = SUBDIV_PER_TILE + 2;

/// Index of grid vertex (`x`, `z`) in a chunk's vertex buffer.
pub open spec fn grid_index(z: int, x: int) -> int {
    z * GRID_VERTS + x
}

/// Corner `r` (0..6) of the two triangles of grid quad (`x`, `z`).
pub open spec fn quad_triangle_corner(z: int, x: int, r: int) -> int {
    if r == 0 {
        grid_index(z + 1, x + 1)
    } else if r == 1 || r == 5 {
        grid_index(z, x + 1)
    } else if r == 2 || r == 4 {
        grid_index(z + 1, x)
    } else {
        grid_index(z, x)
    }
}

/// The `j`-th grid vertex of edge `e`: 0 the first row, 1 the last row,
/// 2 the first column, 3 the last column.
pub open spec fn edge_vertex(e: int, j: int) -> int {
    if e == 0 {
        grid_index(0, j)
    } else if e == 1 {
        grid_index(GRID_VERTS - 1, j)
    } else if e == 2 {
        grid_index(j, 0)
    } else {
        grid_index(j, GRID_VERTS - 1)
    }
}

/// Every edge vertex lies on its edge of the grid, the `j`-th one `j` steps
/// along it: the first and last rows run along the columns, the first and
/// last columns along the rows. So an edge's vertices are all different.
pub proof fn lemma_edge_vertex_on_edge(e: int, j: int)
    requires
        0 <= e < 4,
        0 <= j < GRID_VERTS,
    ensures
        0 <= edge_vertex(e, j) < GRID_VERTS * GRID_VERTS,
        e == 0 ==> edge_vertex(e, j) / (GRID_VERTS as int) == 0 && edge_vertex(e, j) % (
        GRID_VERTS as int) == j,
        e == 1 ==> edge_vertex(e, j) / (GRID_VERTS as int) == GRID_VERTS - 1 && edge_vertex(e, j)
            % (GRID_VERTS as int) == j,
        e == 2 ==> edge_vertex(e, j) / (GRID_VERTS as int) == j && edge_vertex(e, j) % (
        GRID_VERTS as int) == 0,
        e == 3 ==> edge_vertex(e, j) / (GRID_VERTS as int) == j && edge_vertex(e, j) % (
        GRID_VERTS as int) == GRID_VERTS - 1,
        forall|k: int| 0 <= k < GRID_VERTS && k != j ==> edge_vertex(e, k) != edge_vertex(e, j),
{
    let v = edge_vertex(e, j);
    let n = GRID_VERTS as int;
    if e == 0 {
        lemma_fundamental_div_mod_converse(v, n, 0, j);
    } else if e == 1 {
        lemma_fundamental_div_mod_converse(v, n, n - 1, j);
    } else if e == 2 {
        lemma_fundamental_div_mod_converse(v, n, j, 0);
    } else {
        lemma_fundamental_div_mod_converse(v, n, j, n - 1);
    }
}

/// The two triangles of a grid quad: each has three different corners of the
/// quad, they share the diagonal from (`x + 1`, `z`) to (`x`, `z + 1`), and
/// together they use all four corners.
pub proof fn lemma_quad_triangles_cover_quad(z: int, x: int)
    requires
        0 <= z < GRID_VERTS - 1,
        0 <= x < GRID_VERTS - 1,
    ensures
        forall|r: int|
            0 <= r < 6 ==> #[trigger] quad_triangle_corner(z, x, r) == (z + (r == 0 || r == 2
                || r == 4) as int) * GRID_VERTS + x + (r == 0 || r == 1 || r == 5) as int,
        quad_triangle_corner(z, x, 0) != quad_triangle_corner(z, x, 1),
        quad_triangle_corner(z, x, 0) != quad_triangle_corner(z, x, 2),
        quad_triangle_corner(z, x, 1) != quad_triangle_corner(z, x, 2),
        quad_triangle_corner(z, x, 3) != quad_triangle_corner(z, x, 4),
        quad_triangle_corner(z, x, 3) != quad_triangle_corner(z, x, 5),
        quad_triangle_corner(z, x, 4) != quad_triangle_corner(z, x, 5),
        quad_triangle_corner(z, x, 0) == (z + 1) * GRID_VERTS + x + 1,
        quad_triangle_corner(z, x, 3) == z * GRID_VERTS + x,
        quad_triangle_corner(z, x, 1) == quad_triangle_corner(z, x, 5),
        quad_triangle_corner(z, x, 2) == quad_triangle_corner(z, x, 4),
{
}

/// The two skirt triangles between edge vertices `i` and `i + 1`: each has
/// three different corners among the four copies of the pair (numbered from
/// `first + 2 * i`), they share the copies `first + 2 * i + 1` and
/// `first + 2 * i + 2`, and together they use all four.
pub proof fn lemma_skirt_triangles_cover_pair(first: int, i: int)
    ensures
        forall|r: int|
            0 <= r < 6 ==> first + 2 * i <= #[trigger] skirt_corner(first, i, r) <= first + 2 * i + 3,
        skirt_corner(first, i, 0) == first + 2 * i,
        skirt_corner(first, i, 5) == first + 2 * i + 3,
        skirt_corner(first, i, 1) == skirt_corner(first, i, 4),
        skirt_corner(first, i, 2) == skirt_corner(first, i, 3),
        skirt_corner(first, i, 1) == first + 2 * i + 1,
        skirt_corner(first, i, 2) == first + 2 * i + 2,
{
}

/// Offset of corner `r` (0..6) of the two skirt triangles between a pair of
/// neighbouring edge vertices, from the first copy of the pair.
pub open spec fn skirt_corner_offset(r: int) -> int {
    if r == 0 {
        0
    } else if r == 1 || r == 4 {
        1
    } else if r == 2 || r == 3 {
        2
    } else {
        3
    }
}

/// Corner `r` of the two skirt triangles between edge vertices `i` and
/// `i + 1`, whose copies are numbered from `first`.
pub open spec fn skirt_corner(first: int, i: int, r: int) -> int {
    first + 2 * i + skirt_corner_offset(r)
}

/// The triangle list of a chunk's grid: two triangles per quad, quads in
/// row-major order.
pub fn quad_indices() -> (idx: Vec<u32>)
    ensures
        idx@.len() == (GRID_VERTS - 1) * (GRID_VERTS - 1) * 6,
        forall|z: int, x: int, r: int|
            0 <= z < GRID_VERTS - 1 && 0 <= x < GRID_VERTS - 1 && 0 <= r < 6 ==> idx@[(z * (
            GRID_VERTS - 1) + x) * 6 + r] == quad_triangle_corner(z, x, r),
        forall|n: int| 0 <= n < idx@.len() ==> #[trigger] idx@[n] < GRID_VERTS * GRID_VERTS,
{
    let verts = GRID_VERTS;
    let mut indices: Vec<u32> = Vec::new();
    let mut z: u32 = 0;
    while z < verts - 1
        invariant
            verts == GRID_VERTS,
            z <= verts - 1,
            indices@.len() == z * (verts - 1) * 6,
            forall|zz: int, x: int, r: int|
                0 <= zz < z && 0 <= x < verts - 1 && 0 <= r < 6 ==> indices@[(zz * (verts - 1) + x)
                    * 6 + r] == quad_triangle_corner(zz, x, r),
            forall|n: int| 0 <= n < indices@.len() ==> #[trigger] indices@[n] < verts * verts,
        decreases verts - 1 - z,
    {
        let mut x: u32 = 0;
        while x < verts - 1
            invariant
                verts == GRID_VERTS,
                z < verts - 1,
                x <= verts - 1,
                indices@.len() == (z * (verts - 1) + x) * 6,
                forall|zz: int, xx: int, r: int|
                    0 <= zz < verts - 1 && 0 <= xx < verts - 1 && 0 <= r < 6 && zz * (verts - 1)
                        + xx < z * (verts - 1) + x ==> indices@[(zz * (verts - 1) + xx) * 6 + r]
                        == quad_triangle_corner(zz, xx, r),
                forall|n: int| 0 <= n < indices@.len() ==> #[trigger] indices@[n] < verts * verts,
            decreases verts - 1 - x,
        {
            let quad = z * verts + x;
            let ghost before = indices@;
            indices.push(quad + verts + 1);
            indices.push(quad + 1);
            indices.push(quad + verts);
            indices.push(quad);
            indices.push(quad + verts);
            indices.push(quad + 1);
            assert forall|zz: int, xx: int, r: int|
                0 <= zz < verts - 1 && 0 <= xx < verts - 1 && 0 <= r < 6 && zz * (verts - 1) + xx
                    < z * (verts - 1) + x + 1 implies indices@[(zz * (verts - 1) + xx) * 6 + r]
                == quad_triangle_corner(zz, xx, r) by {
                if zz * (verts - 1) + xx == z * (verts - 1) + x {
                    assert(zz == z && xx == x) by (nonlinear_arith)
                        requires
                            zz * 33 + xx == z * 33 + x,
                            0 <= xx < 33,
                            0 <= x < 33,
                            0 <= zz,
                            0 <= z,
                    ;
                } else {
                    assert(indices@[(zz * (verts - 1) + xx) * 6 + r] == before[(zz * (verts - 1)
                        + xx) * 6 + r]);
                }
            }
            x = x + 1;
        }
        assert forall|zz: int, xx: int, r: int|
            0 <= zz < z + 1 && 0 <= xx < verts - 1 && 0 <= r < 6 implies indices@[(zz * (verts - 1)
            + xx) * 6 + r] == quad_triangle_corner(zz, xx, r) by {
            assert(zz * (verts - 1) + xx < (z + 1) * (verts - 1)) by (nonlinear_arith)
                requires
                    zz <= z,
                    xx < 33,
                    verts - 1 == 33,
            ;
        }
        z = z + 1;
    }
    indices
}

/// Grid vertices in a chunk's vertex buffer.
pub open spec fn grid_vertex_count() -> int {
    GRID_VERTS * GRID_VERTS
}

/// The grid vertices along the four edges of a chunk, in the order
/// first row, last row, first column, last column.
pub fn edge_rows() -> (rows: Vec<Vec<u32>>)
    ensures
        rows@.len() == 4,
        forall|e: int| 0 <= e < 4 ==> (#[trigger] rows@[e])@.len() == GRID_VERTS,
        forall|e: int, j: int| 0 <= e < 4 && 0 <= j < GRID_VERTS ==> rows@[e]@[j] == edge_vertex(e, j),
{
    let verts = GRID_VERTS;
    let mut rows: Vec<Vec<u32>> = Vec::new();
    let mut e: u32 = 0;
    while e < 4
        invariant
            verts == GRID_VERTS,
            e <= 4,
            rows@.len() == e,
            forall|ee: int| 0 <= ee < e ==> (#[trigger] rows@[ee])@.len() == verts,
            forall|ee: int, j: int|
                0 <= ee < e && 0 <= j < verts ==> rows@[ee]@[j] == edge_vertex(ee, j),
        decreases 4 - e,
    {
        let mut row: Vec<u32> = Vec::new();
        let mut j: u32 = 0;
        while j < verts
            invariant
                verts == GRID_VERTS,
                e < 4,
                j <= verts,
                row@.len() == j,
                forall|jj: int| 0 <= jj < j ==> row@[jj] == edge_vertex(e as int, jj),
            decreases verts - j,
        {
            let v = if e == 0 {
                j
            } else if e == 1 {
                (verts - 1) * verts + j
            } else if e == 2 {
                j * verts
            } else {
                j * verts + verts - 1
            };
            row.push(v);
            j = j + 1;
        }
        rows.push(row);
        e = e + 1;
    }
    rows
}

/// Appends the skirt hanging from `edge`: a copy of each edge vertex and a
/// lowered copy right after it (recorded in `sources` as the grid vertex they
/// copy, the new vertices numbered from `first_vertex`), and two triangles
/// between each pair of neighbouring edge vertices.
pub fn push_skirt(
    edge: &Vec<u32>,
    first_vertex: u32,
    sources: &mut Vec<u32>,
    indices: &mut Vec<u32>,
)
    requires
        edge@.len() >= 1,
        first_vertex + 2 * edge@.len() <= u32::MAX,
        old(indices)@.len() + 6 * edge@.len() <= usize::MAX,
    ensures
        final(sources)@.len() == old(sources)@.len() + 2 * edge@.len(),
        final(sources)@.take(old(sources)@.len() as int) == old(sources)@,
        forall|j: int|
            0 <= j < edge@.len() ==> final(sources)@[old(sources)@.len() + 2 * j] == #[trigger] edge@[j]
                && final(sources)@[old(sources)@.len() + 2 * j + 1] == edge@[j],
        final(indices)@.len() == old(indices)@.len() + 6 * (edge@.len() - 1),
        final(indices)@.take(old(indices)@.len() as int) == old(indices)@,
        forall|i: int, r: int|
            0 <= i < edge@.len() - 1 && 0 <= r < 6 ==> final(indices)@[old(indices)@.len() + 6 * i
                + r] == #[trigger] skirt_corner(first_vertex as int, i, r),
{
    let ghost s0 = sources@;
    let ghost i0 = indices@;
    let mut j: usize = 0;
    while j < edge.len()
        invariant
            j <= edge@.len(),
            sources@.len() == s0.len() + 2 * j,
            sources@.take(s0.len() as int) == s0,
            forall|jj: int|
                0 <= jj < j ==> sources@[s0.len() + 2 * jj] == #[trigger] edge@[jj] && sources@[s0.len()
                    + 2 * jj + 1] == edge@[jj],
        decreases edge@.len() - j,
    {
        let vi = edge[j];
        sources.push(vi);
        sources.push(vi);
        j = j + 1;
    }
    let mut i: usize = 0;
    while i < edge.len() - 1
        invariant
            edge@.len() >= 1,
            i <= edge@.len() - 1,
            first_vertex + 2 * edge@.len() <= u32::MAX,
            indices@.len() == i0.len() + 6 * i,
            i0.len() + 6 * edge@.len() <= usize::MAX,
            indices@.take(i0.len() as int) == i0,
            forall|ii: int, r: int|
                0 <= ii < i && 0 <= r < 6 ==> indices@[i0.len() + 6 * ii + r]
                    == #[trigger] skirt_corner(first_vertex as int, ii, r),
        decreases edge@.len() - 1 - i,
    {
        let top_a = first_vertex + 2 * (i as u32);
        let bot_a = top_a + 1;
        let top_b = top_a + 2;
        let bot_b = top_a + 3;
        indices.push(top_a);
        indices.push(bot_a);
        indices.push(top_b);
        indices.push(top_b);
        indices.push(bot_a);
        indices.push(bot_b);
        i = i + 1;
    }
}

/// Vertex count of a chunk mesh: the grid plus two copies of every edge
/// vertex for the skirts.
pub open spec fn chunk_vertex_count() -> int {
    grid_vertex_count() + 8 * GRID_VERTS
}

/// The integer layout of a chunk mesh.
pub struct MeshTopology {
    /// The triangle list.
    pub indices: Vec<u32>,
    /// For each skirt vertex appended after the grid, the grid vertex it
    /// copies; odd ones are lowered by the skirt depth.
    pub skirt_sources: Vec<u32>,
}

/// The triangle list and skirt layout of a chunk mesh: grid quads first,
/// then the skirts of the first row, last row, first column and last column.
/// Skirts help hide seams between different levels of detail.
pub fn build_mesh_topology() -> (t: MeshTopology)
    ensures
        t.indices@.len() == (GRID_VERTS - 1) * (GRID_VERTS - 1) * 6 + 4 * (GRID_VERTS - 1) * 6,
        forall|z: int, x: int, r: int|
            0 <= z < GRID_VERTS - 1 && 0 <= x < GRID_VERTS - 1 && 0 <= r < 6 ==> t.indices@[(z * (
            GRID_VERTS - 1) + x) * 6 + r] == quad_triangle_corner(z, x, r),
        forall|e: int, i: int, r: int|
            0 <= e < 4 && 0 <= i < GRID_VERTS - 1 && 0 <= r < 6 ==> t.indices@[(GRID_VERTS - 1) * (
            GRID_VERTS - 1) * 6 + (e * (GRID_VERTS - 1) + i) * 6 + r] == #[trigger] skirt_corner(
                grid_vertex_count() + 2 * GRID_VERTS * e,
                i,
                r,
            ),
        t.skirt_sources@.len() == 8 * GRID_VERTS,
        forall|e: int, j: int|
            0 <= e < 4 && 0 <= j < GRID_VERTS ==> t.skirt_sources@[(e * GRID_VERTS + j) * 2]
                == #[trigger] edge_vertex(e, j) && t.skirt_sources@[(e * GRID_VERTS + j) * 2 + 1]
                == edge_vertex(e, j),
        forall|n: int| 0 <= n < t.indices@.len() ==> #[trigger] t.indices@[n] < chunk_vertex_count(),
        forall|m: int|
            0 <= m < t.skirt_sources@.len() ==> #[trigger] t.skirt_sources@[m] < grid_vertex_count(),
{
    let verts = GRID_VERTS;
    let mut indices = quad_indices();
    let rows = edge_rows();
    let mut sources: Vec<u32> = Vec::new();
    let mut e: u32 = 0;
    let ghost q = indices@;
    while e < 4
        invariant
            verts == GRID_VERTS,
            e <= 4,
            rows@.len() == 4,
            forall|ee: int| 0 <= ee < 4 ==> (#[trigger] rows@[ee])@.len() == GRID_VERTS,
            forall|ee: int, j: int|
                0 <= ee < 4 && 0 <= j < GRID_VERTS ==> rows@[ee]@[j] == edge_vertex(ee, j),
            q.len() == 33 * 33 * 6,
            indices@.len() == q.len() + e * 33 * 6,
            indices@.take(q.len() as int) == q,
            sources@.len() == e * 68,
            forall|ee: int, i: int, r: int|
                0 <= ee < e && 0 <= i < 33 && 0 <= r < 6 ==> indices@[q.len() + (ee * 33 + i) * 6
                    + r] == #[trigger] skirt_corner(1156 + 68 * ee, i, r),
            forall|ee: int, j: int|
                0 <= ee < e && 0 <= j < 34 ==> sources@[(ee * 34 + j) * 2] == #[trigger] edge_vertex(
                    ee,
                    j,
                ) && sources@[(ee * 34 + j) * 2 + 1] == edge_vertex(ee, j),
        decreases 4 - e,
    {
        let ghost ib = indices@;
        let ghost sb = sources@;
        let per_edge = 2 * verts;
        assert(per_edge * e == 68 * e) by (nonlinear_arith)
            requires
                per_edge == 68,
        ;
        let first_vertex = verts * verts + per_edge * e;
        push_skirt(&rows[e as usize], first_vertex, &mut sources, &mut indices);
        assert forall|ee: int, i: int, r: int|
            0 <= ee < e + 1 && 0 <= i < 33 && 0 <= r < 6 implies indices@[q.len() + (ee * 33 + i)
            * 6 + r] == #[trigger] skirt_corner(1156 + 68 * ee, i, r) by {
            if ee == e {
                assert(indices@[ib.len() + 6 * i + r] == skirt_corner(first_vertex as int, i, r));
            } else {
                assert(indices@.take(ib.len() as int)[q.len() + (ee * 33 + i) * 6 + r] == ib[q.len()
                    + (ee * 33 + i) * 6 + r]);
            }
        }
        assert forall|ee: int, j: int|
            0 <= ee < e + 1 && 0 <= j < 34 implies sources@[(ee * 34 + j) * 2] == #[trigger] edge_vertex(
            ee,
            j,
        ) && sources@[(ee * 34 + j) * 2 + 1] == edge_vertex(ee, j) by {
            if ee < e {
                assert(sources@.take(sb.len() as int)[(ee * 34 + j) * 2] == sb[(ee * 34 + j) * 2]);
                assert(sources@.take(sb.len() as int)[(ee * 34 + j) * 2 + 1] == sb[(ee * 34 + j) * 2
                    + 1]);
            } else {
                assert(rows@[ee]@[j] == edge_vertex(ee, j));
            }
        }
        assert(indices@.take(q.len() as int) =~= ib.take(q.len() as int));
        e = e + 1;
    }
    assert forall|z: int, x: int, r: int|
        0 <= z < 33 && 0 <= x < 33 && 0 <= r < 6 implies indices@[(z * 33 + x) * 6 + r]
        == quad_triangle_corner(z, x, r) by {
        assert(indices@.take(q.len() as int)[(z * 33 + x) * 6 + r] == q[(z * 33 + x) * 6 + r]);
    }
    assert forall|n: int| 0 <= n < indices@.len() implies #[trigger] indices@[n] < 1428 by {
        if n < q.len() {
            assert(indices@.take(q.len() as int)[n] == q[n]);
        } else {
            let m = n - q.len();
            let ee = m / 198;
            let rest = m % 198;
            let i = rest / 6;
            let r = rest % 6;
            assert(n == q.len() + (ee * 33 + i) * 6 + r);
            assert(indices@[n] == skirt_corner(1156 + 68 * ee, i, r));
        }
    }
    assert forall|m: int| 0 <= m < sources@.len() implies #[trigger] sources@[m] < 1156 by {
        let ee = m / 68;
        let rest = m % 68;
        let j = rest / 2;
        let s = rest % 2;
        assert(m == (ee * 34 + j) * 2 + s);
        assert(edge_vertex(ee, j) < 1156);
    }
    MeshTopology { indices, skirt_sources: sources }
}

} // verus!
