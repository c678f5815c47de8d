use kestrel::scenery::terrain::quadtree::{CubeFace, NodeKey, QuadtreeNode};

fn key(face: CubeFace, level: u8, x: u32, y: u32) -> NodeKey {
    NodeKey { face, level, x, y }
}

#[test]
fn root_has_no_parent() {
    assert_eq!(key(CubeFace::PosY, 0, 0, 0).parent(), None);
}

#[test]
fn parent_halves_coordinates() {
    let k = key(CubeFace::NegZ, 3, 5, 6);
    assert_eq!(k.parent(), Some(key(CubeFace::NegZ, 2, 2, 3)));
}

#[test]
fn children_tile_the_node_in_order() {
    let k = key(CubeFace::PosX, 2, 1, 3);
    let c = k.children();
    assert_eq!(c[0], key(CubeFace::PosX, 3, 2, 6));
    assert_eq!(c[1], key(CubeFace::PosX, 3, 3, 6));
    assert_eq!(c[2], key(CubeFace::PosX, 3, 2, 7));
    assert_eq!(c[3], key(CubeFace::PosX, 3, 3, 7));
}

#[test]
fn every_child_names_its_parent() {
    let k = key(CubeFace::NegY, 7, 100, 27);
    for c in k.children() {
        assert_eq!(c.parent(), Some(k));
    }
}

#[test]
fn children_are_distinct() {
    let c = key(CubeFace::PosZ, 4, 9, 9).children();
    for i in 0..4 {
        for j in 0..4 {
            if i != j {
                assert_ne!(c[i], c[j]);
            }
        }
    }
}

#[test]
fn quadtree_node_root_and_children() {
    let root = QuadtreeNode::root();
    assert_eq!(root, QuadtreeNode { level: 0, x: 0, y: 0 });
    let c = root.children();
    assert_eq!(c[0], QuadtreeNode { level: 1, x: 0, y: 0 });
    assert_eq!(c[1], QuadtreeNode { level: 1, x: 1, y: 0 });
    assert_eq!(c[2], QuadtreeNode { level: 1, x: 0, y: 1 });
    assert_eq!(c[3], QuadtreeNode { level: 1, x: 1, y: 1 });
}

#[test]
fn faces_and_normals() {
    let faces = CubeFace::all();
    assert_eq!(faces.len(), 6);
    assert_eq!(faces[0], CubeFace::PosX);
    assert_eq!(faces[5], CubeFace::NegZ);
    assert_eq!(CubeFace::PosX.normal(), (1, 0, 0));
    assert_eq!(CubeFace::NegX.normal(), (-1, 0, 0));
    assert_eq!(CubeFace::PosY.normal(), (0, 1, 0));
    assert_eq!(CubeFace::NegY.normal(), (0, -1, 0));
    assert_eq!(CubeFace::PosZ.normal(), (0, 0, 1));
    assert_eq!(CubeFace::NegZ.normal(), (0, 0, -1));
}
