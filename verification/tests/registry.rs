use kestrel::scenery::terrain::lod::LodProbe;
use kestrel::scenery::terrain::quadtree::{CubeFace, NodeKey};
use kestrel::scenery::terrain::registry::TerrainChunkRegistry;

fn key(level: u8, x: u32, y: u32) -> NodeKey {
    NodeKey { face: CubeFace::PosZ, level, x, y }
}

fn sorted(mut v: Vec<NodeKey>) -> Vec<(u8, u32, u32)> {
    let mut out: Vec<(u8, u32, u32)> = v.drain(..).map(|k| (k.level, k.x, k.y)).collect();
    out.sort();
    out
}

#[test]
fn desired_keys_are_spawned_once() {
    let mut r = TerrainChunkRegistry::new();
    let a = key(1, 0, 0);
    let b = key(1, 1, 0);
    let actions = r.reconcile(&vec![a, b, a], &vec![key(0, 0, 0)]);
    assert_eq!(sorted(actions.spawn), vec![(1, 0, 0), (1, 1, 0)]);
    assert!(actions.despawn.entries().is_empty());
    assert!(r.pending_keys().contains(a) && r.pending_keys().contains(b));
    assert!(r.split_keys().contains(key(0, 0, 0)));

    // the same desired keys again: nothing new to spawn
    let again = r.reconcile(&vec![a, b], &vec![key(0, 0, 0)]);
    assert!(again.spawn.is_empty());
}

#[test]
fn finished_build_goes_live() {
    let mut r = TerrainChunkRegistry::new();
    let a = key(1, 0, 0);
    r.reconcile(&vec![a], &vec![]);
    r.finish_chunk(a, Some(42));
    assert_eq!(r.live_chunks().get(a), Some(42));
    assert!(!r.pending_keys().contains(a));

    // a build that produced no mesh only stops pending
    let b = key(1, 1, 0);
    r.reconcile(&vec![a, b], &vec![]);
    r.finish_chunk(b, None);
    assert!(!r.live_chunks().contains_key(b));
    assert!(!r.pending_keys().contains(b));
}

#[test]
fn split_chunk_retires_until_children_are_live() {
    let mut r = TerrainChunkRegistry::new();
    let parent = key(1, 0, 0);
    r.reconcile(&vec![parent], &vec![]);
    r.finish_chunk(parent, Some(7));

    let children = parent.children().to_vec();
    let actions = r.reconcile(&children, &vec![parent]);
    assert_eq!(actions.spawn.len(), 4);
    assert!(actions.despawn.entries().is_empty());
    assert_eq!(r.retiring_chunks().get(parent), Some(7));
    assert!(!r.live_chunks().contains_key(parent));

    for (i, c) in children.iter().enumerate() {
        r.finish_chunk(*c, Some(100 + i as u64));
    }
    let actions = r.reconcile(&children, &vec![parent]);
    assert!(actions.spawn.is_empty());
    assert_eq!(actions.despawn.get(parent), Some(7));
    assert!(!r.retiring_chunks().contains_key(parent));
}

#[test]
fn merged_children_wait_for_parent() {
    let mut r = TerrainChunkRegistry::new();
    let parent = key(1, 1, 1);
    let children = parent.children().to_vec();
    r.reconcile(&children, &vec![parent]);
    for c in &children {
        r.finish_chunk(*c, Some(c.x as u64 * 10 + c.y as u64));
    }
    let actions = r.reconcile(&vec![parent], &vec![]);
    assert_eq!(sorted(actions.spawn), vec![(1, 1, 1)]);
    assert!(actions.despawn.entries().is_empty());
    assert_eq!(r.retiring_chunks().entries().len(), 4);

    r.finish_chunk(parent, Some(99));
    let actions = r.reconcile(&vec![parent], &vec![]);
    assert_eq!(actions.despawn.entries().len(), 4);
    assert_eq!(r.live_chunks().get(parent), Some(99));
}

#[test]
fn retiring_chunk_is_reclaimed_when_desired_again() {
    let mut r = TerrainChunkRegistry::new();
    let parent = key(2, 1, 2);
    r.reconcile(&vec![parent], &vec![]);
    r.finish_chunk(parent, Some(5));
    r.reconcile(&parent.children().to_vec(), &vec![parent]);
    assert_eq!(r.retiring_chunks().get(parent), Some(5));
    // the reference point moved back before the children were built
    let actions = r.reconcile(&vec![parent], &vec![]);
    assert!(actions.spawn.is_empty());
    assert_eq!(r.live_chunks().get(parent), Some(5));
    assert!(!r.retiring_chunks().contains_key(parent));
}

#[test]
fn update_terrain_walks_all_faces() {
    let mut r = TerrainChunkRegistry::new();
    // everything in range and close: split down to level 1 everywhere
    let near = |_k: NodeKey| LodProbe { in_range: true, within_split: true, within_merge: true };
    let actions = r.update_terrain(1, &near);
    assert_eq!(actions.spawn.len(), 24);
    assert_eq!(r.split_keys().keys().len(), 6);

    // far away on every face: the roots are the leaves, previously split
    // nodes merge only past the merge distance
    let mid = |_k: NodeKey| LodProbe { in_range: true, within_split: false, within_merge: true };
    let actions = r.update_terrain(1, &mid);
    assert!(actions.spawn.is_empty());
    let far = |_k: NodeKey| LodProbe { in_range: true, within_split: false, within_merge: false };
    let actions = r.update_terrain(1, &far);
    assert_eq!(actions.spawn.len(), 6);
}

#[test]
fn update_is_gated_by_movement() {
    let near = |_k: NodeKey| LodProbe { in_range: true, within_split: true, within_merge: true };
    let mut r = TerrainChunkRegistry::new();
    // first update: there is no last position
    let first = r.update_terrain_for_aircraft(1, &near, false, true, false);
    assert_eq!(first.map(|a| a.spawn.len()), Some(24));
    // barely moved: skipped, nothing changes
    assert!(r.update_terrain_for_aircraft(1, &near, true, true, false).is_none());
    assert_eq!(r.pending_keys().keys().len(), 24);
    // forced or far enough: walked again
    assert!(r.update_terrain_for_aircraft(1, &near, true, true, true).is_some());
    assert!(r.update_terrain_for_aircraft(1, &near, true, false, false).is_some());
}

#[test]
fn chunk_replaced_two_levels_down_waits_for_the_grandchild() {
    let mut r = TerrainChunkRegistry::new();
    let root = key(0, 0, 0);
    r.reconcile(&vec![root], &vec![]);
    assert!(r.finish_chunk(root, Some(1)).is_empty());

    let grandchild = key(2, 0, 0);
    let actions = r.reconcile(&vec![grandchild], &vec![root, key(1, 0, 0)]);
    assert_eq!(sorted(actions.spawn), vec![(2, 0, 0)]);
    assert!(actions.despawn.entries().is_empty());
    assert_eq!(r.retiring_chunks().get(root), Some(1));

    r.finish_chunk(grandchild, Some(2));
    let actions = r.reconcile(&vec![grandchild], &vec![root, key(1, 0, 0)]);
    assert_eq!(actions.despawn.get(root), Some(1));
    assert!(!r.retiring_chunks().contains_key(root));
}

#[test]
fn chunk_split_over_two_levels_waits_for_every_replacement() {
    let mut r = TerrainChunkRegistry::new();
    let parent = key(1, 0, 0);
    r.reconcile(&vec![parent], &vec![]);
    r.finish_chunk(parent, Some(7));

    let children = parent.children();
    let mut desired: Vec<NodeKey> = children[..3].to_vec();
    desired.extend(children[3].children().iter().copied());
    let split = vec![parent, children[3]];
    r.reconcile(&desired, &split);
    for (i, k) in desired.iter().enumerate() {
        let actions = r.reconcile(&desired, &split);
        assert!(actions.despawn.entries().is_empty());
        assert_eq!(r.retiring_chunks().get(parent), Some(7));
        r.finish_chunk(*k, Some(100 + i as u64));
    }
    let actions = r.reconcile(&desired, &split);
    assert_eq!(actions.despawn.get(parent), Some(7));
    assert!(r.retiring_chunks().entries().is_empty());
}

#[test]
fn second_build_of_a_live_key_hands_back_the_first_chunk() {
    let mut r = TerrainChunkRegistry::new();
    let a = key(1, 0, 0);
    r.reconcile(&vec![a], &vec![]);
    assert!(r.finish_chunk(a, Some(1)).is_empty());
    assert_eq!(r.finish_chunk(a, Some(2)), vec![1]);
    assert_eq!(r.live_chunks().get(a), Some(2));
    // finishing with the chunk already live displaces nothing
    assert!(r.finish_chunk(a, Some(2)).is_empty());
    // a build without a mesh leaves the live chunk alone
    assert!(r.finish_chunk(a, None).is_empty());
    assert_eq!(r.live_chunks().get(a), Some(2));
}

#[test]
fn node_between_split_and_merge_distance_keeps_its_state() {
    // never split before: between the two distances the roots stay leaves
    let mid = |_k: NodeKey| LodProbe { in_range: true, within_split: false, within_merge: true };
    let mut r = TerrainChunkRegistry::new();
    let actions = r.update_terrain(1, &mid);
    assert_eq!(actions.spawn.len(), 6);
    assert!(r.split_keys().keys().is_empty());
    assert!(actions.spawn.iter().all(|k| k.level == 0));
}
