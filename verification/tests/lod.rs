use kestrel::scenery::terrain::keymap::KeySet;
use kestrel::scenery::terrain::lod::{collect_desired_all_faces, collect_desired_nodes, LodProbe};
use kestrel::scenery::terrain::quadtree::{CubeFace, NodeKey, QuadtreeNode};

fn descends(k: NodeKey, a: NodeKey) -> bool {
    let mut cur = k;
    loop {
        if cur == a {
            return true;
        }
        match cur.parent() {
            Some(p) => cur = p,
            None => return false,
        }
    }
}

#[test]
fn walk_refines_towards_a_corner() {
    // close only to nodes touching the corner (0, 0) of the face
    let probe = |k: NodeKey| {
        let near = k.x == 0 && k.y == 0;
        LodProbe { in_range: true, within_split: near, within_merge: near }
    };
    let mut desired = Vec::new();
    let mut split = Vec::new();
    collect_desired_nodes(
        CubeFace::PosX,
        QuadtreeNode::root(),
        3,
        &KeySet::new(),
        &probe,
        &mut desired,
        &mut split,
    );
    // levels 0, 1, 2 are split at the corner; 3 leaves per split node plus 4 at the bottom
    assert_eq!(split.len(), 3);
    assert_eq!(desired.len(), 3 + 3 + 4);
    for a in &desired {
        for b in &desired {
            if a != b {
                assert!(!descends(*a, *b));
            }
        }
    }
}

#[test]
fn culled_nodes_are_dropped() {
    let probe = |k: NodeKey| LodProbe {
        in_range: k.face == CubeFace::NegY,
        within_split: false,
        within_merge: false,
    };
    let (desired, split) = collect_desired_all_faces(5, &KeySet::new(), &probe);
    assert!(split.is_empty());
    assert_eq!(desired, vec![NodeKey { face: CubeFace::NegY, level: 0, x: 0, y: 0 }]);
}

#[test]
fn previously_split_node_stays_split_until_merge_distance() {
    let root = NodeKey { face: CubeFace::PosZ, level: 0, x: 0, y: 0 };
    let prev = KeySet::from_vec(&vec![root]);
    let probe = |_k: NodeKey| LodProbe { in_range: true, within_split: false, within_merge: true };
    let mut desired = Vec::new();
    let mut split = Vec::new();
    collect_desired_nodes(CubeFace::PosZ, QuadtreeNode::root(), 2, &prev, &probe, &mut desired, &mut split);
    assert_eq!(split, vec![root]);
    assert_eq!(desired.len(), 4);
}

#[test]
fn max_depth_stops_splitting() {
    let probe = |_k: NodeKey| LodProbe { in_range: true, within_split: true, within_merge: true };
    let (desired, split) = collect_desired_all_faces(2, &KeySet::new(), &probe);
    assert_eq!(desired.len(), 6 * 16);
    assert_eq!(split.len(), 6 * 5);
    assert!(desired.iter().all(|k| k.level == 2));
}
