use kestrel::scenery::terrain::mesh::{build_mesh_topology, edge_rows, push_skirt, quad_indices, GRID_VERTS};

#[test]
fn first_and_last_quads() {
    let idx = quad_indices();
    assert_eq!(idx.len(), 33 * 33 * 6);
    assert_eq!(&idx[0..6], &[35, 1, 34, 0, 34, 1]);
    // quad (x = 32, z = 32)
    let q = 32 * 34 + 32;
    assert_eq!(&idx[idx.len() - 6..], &[q + 35, q + 1, q + 34, q, q + 34, q + 1]);
}

#[test]
fn edges_of_the_grid() {
    let rows = edge_rows();
    assert_eq!(rows.len(), 4);
    assert_eq!(rows[0][..3], [0, 1, 2]);
    assert_eq!(rows[1][0], 33 * 34);
    assert_eq!(rows[2][2], 68);
    assert_eq!(rows[3][1], 34 + 33);
    assert!(rows.iter().all(|r| r.len() == GRID_VERTS as usize));
}

#[test]
fn skirt_of_a_short_edge() {
    let mut sources = vec![9];
    let mut indices = vec![];
    push_skirt(&vec![4, 5, 6], 100, &mut sources, &mut indices);
    assert_eq!(sources, vec![9, 4, 4, 5, 5, 6, 6]);
    assert_eq!(
        indices,
        vec![100, 101, 102, 102, 101, 103, 102, 103, 104, 104, 103, 105]
    );
}

#[test]
fn whole_chunk_topology() {
    let t = build_mesh_topology();
    let grid = 34 * 34;
    assert_eq!(t.indices.len(), 33 * 33 * 6 + 4 * 33 * 6);
    assert_eq!(t.skirt_sources.len(), 8 * 34);
    let skirt_start = 33 * 33 * 6;
    assert_eq!(&t.indices[skirt_start..skirt_start + 6], &[grid, grid + 1, grid + 2, grid + 2, grid + 1, grid + 3]);
    // the last column's skirt starts after three edges' copies
    let last = skirt_start + 3 * 33 * 6;
    assert_eq!(t.indices[last], grid + 3 * 68);
    assert_eq!(t.skirt_sources[3 * 68], 33);
    assert!(t.indices.iter().all(|&i| i < grid + 8 * 34));
    assert!(t.skirt_sources.iter().all(|&s| s < grid));
}
