use kestrel::scenery::terrain::keymap::{ChunkMap, KeySet};
use kestrel::scenery::terrain::quadtree::{CubeFace, NodeKey};

fn key(level: u8, x: u32) -> NodeKey {
    NodeKey { face: CubeFace::PosX, level, x, y: 0 }
}

#[test]
fn chunk_map_insert_get_remove() {
    let mut m = ChunkMap::new();
    assert_eq!(m.get(key(1, 0)), None);
    m.insert(key(1, 0), 10);
    m.insert(key(1, 1), 11);
    m.insert(key(1, 0), 12);
    assert_eq!(m.get(key(1, 0)), Some(12));
    assert_eq!(m.get(key(1, 1)), Some(11));
    assert_eq!(m.entries().len(), 2);
    assert_eq!(m.remove(key(1, 0)), Some(12));
    assert!(!m.contains_key(key(1, 0)));
    assert_eq!(m.remove(key(1, 0)), None);
    assert!(m.contains_key(key(1, 1)));
}

#[test]
fn key_set_deduplicates() {
    let v = vec![key(2, 1), key(2, 3), key(2, 1)];
    let mut s = KeySet::from_vec(&v);
    assert_eq!(s.keys().len(), 2);
    assert!(s.contains(key(2, 3)));
    s.insert(key(2, 3));
    assert_eq!(s.keys().len(), 2);
    s.remove(key(2, 1));
    assert!(!s.contains(key(2, 1)));
    assert_eq!(s.keys().len(), 1);
}

#[test]
fn keys_differing_in_one_field_stay_apart() {
    let full = NodeKey { face: CubeFace::NegZ, level: 255, x: u32::MAX, y: u32::MAX };
    let others = [
        NodeKey { face: CubeFace::PosZ, ..full },
        NodeKey { level: 254, ..full },
        NodeKey { x: u32::MAX - 1, ..full },
        NodeKey { y: 0, ..full },
    ];
    let mut m = ChunkMap::new();
    m.insert(full, 1);
    for (i, k) in others.iter().enumerate() {
        m.insert(*k, 10 + i as u64);
    }
    assert_eq!(m.get(full), Some(1));
    for (i, k) in others.iter().enumerate() {
        assert_eq!(m.get(*k), Some(10 + i as u64));
    }
    let mut entries: Vec<(NodeKey, u64)> = m.entries();
    entries.sort_by_key(|e| e.1);
    assert_eq!(entries[0], (full, 1));
    assert_eq!(entries[4], (others[3], 13));

    let s = KeySet::from_vec(&others.to_vec());
    let mut keys = s.keys();
    keys.sort_by_key(|k| (k.level, k.x, k.y));
    assert_eq!(keys.len(), 4);
    assert!(!s.contains(full));
    assert!(keys.contains(&others[0]) && keys.contains(&others[2]));
}
