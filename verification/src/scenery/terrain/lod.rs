use vstd::prelude::*;

use super::keymap::KeySet;
use super::quadtree::{
    ancestor_at, can_split, child_of, descends, lemma_ancestor_at, lemma_child_on_grid,
    lemma_descends_from_child, lemma_grid_size_bounds, on_grid, CubeFace, NodeKey, QuadtreeNode,
};

verus! {

/// What the engine measured for one quadtree node: whether it is within
/// render distance at all, and whether the reference point is within the
/// split distance (2.2 chunk widths) and the merge distance (2.8 chunk widths)
/// of the node's centre.
#[derive(Clone, Copy, Debug, PartialEq, Eq, Structural)]
pub struct LodProbe {
    pub in_range: bool,
    pub within_split: bool,
    pub within_merge: bool,
}

/// A node with probe `p` is split into children: it is in range, above the
/// maximum depth, and close enough — a node that was split on the last walk
/// stays split until the reference point retreats past the merge distance.
pub open spec fn splits(k: NodeKey, lod: u8, prev: Set<NodeKey>, p: LodProbe) -> bool {
    p.in_range && k.level < lod && (if prev.contains(k) {
        p.within_merge
    } else {
        p.within_split
    })
}

/// The probe may answer `k` with a result that splits it.
pub open spec fn probed_split<F: Fn(NodeKey) -> LodProbe>(
    probe: F,
    lod: u8,
    prev: Set<NodeKey>,
    k: NodeKey,
) -> bool {
    exists|p: LodProbe| #[trigger] call_ensures(probe, (k,), p) && splits(k, lod, prev, p)
}

/// The probe may answer `k` with a result that makes it a visible leaf.
pub open spec fn probed_leaf<F: Fn(NodeKey) -> LodProbe>(
    probe: F,
    lod: u8,
    prev: Set<NodeKey>,
    k: NodeKey,
) -> bool {
    exists|p: LodProbe|
        #[trigger] call_ensures(probe, (k,), p) && p.in_range && !splits(k, lod, prev, p)
}

/// The probe may answer `k` with a result that culls it.
pub open spec fn probed_out<F: Fn(NodeKey) -> LodProbe>(probe: F, k: NodeKey) -> bool {
    exists|p: LodProbe| #[trigger] call_ensures(probe, (k,), p) && !p.in_range
}

/// `k` was reached from `root`: it lies under `root`, on the grid, no deeper
/// than `lod`, and every ancestor from `root` down to its parent was split.
pub open spec fn reached(root: NodeKey, lod: u8, sp: Seq<NodeKey>, k: NodeKey) -> bool {
    &&& descends(k, root)
    &&& on_grid(k)
    &&& k.level <= lod
    &&& forall|l: int| root.level <= l < k.level ==> sp.contains(#[trigger] ancestor_at(k, l))
}

/// `leaves` and `sp` are what walking the quadtree under `root` produces:
/// each key once, no key both a leaf and split, every leaf and split key
/// reached with a probe answer that makes it so, `root` itself a leaf,
/// split or culled, and every child of a split key a leaf, split or culled.
pub open spec fn walk_result<F: Fn(NodeKey) -> LodProbe>(
    probe: F,
    lod: u8,
    prev: Set<NodeKey>,
    root: NodeKey,
    leaves: Seq<NodeKey>,
    sp: Seq<NodeKey>,
) -> bool {
    &&& leaves.no_duplicates()
    &&& sp.no_duplicates()
    &&& forall|k: NodeKey| leaves.contains(k) ==> !sp.contains(k)
    &&& forall|i: int|
        0 <= i < leaves.len() ==> reached(root, lod, sp, #[trigger] leaves[i]) && probed_leaf(
            probe,
            lod,
            prev,
            leaves[i],
        )
    &&& forall|i: int|
        0 <= i < sp.len() ==> reached(root, lod, sp, #[trigger] sp[i]) && probed_split(
            probe,
            lod,
            prev,
            sp[i],
        ) && can_split(sp[i])
    &&& sp.contains(root) || leaves.contains(root) || probed_out(probe, root)
    &&& forall|k: NodeKey, i: int|
        sp.contains(k) && 0 <= i < 4 ==> sp.contains(#[trigger] child_of(k, i)) || leaves.contains(
            child_of(k, i),
        ) || probed_out(probe, child_of(k, i))
}

/// Which child of `a` the subtree holding `k` hangs from.
pub open spec fn child_index(k: NodeKey, a: NodeKey) -> int {
    let c = ancestor_at(k, a.level + 1);
    (c.x % 2) as int + 2 * (c.y % 2) as int
}

/// `k` is a leaf, split, or culled by the probe.
pub open spec fn covered<F: Fn(NodeKey) -> LodProbe>(
    probe: F,
    leaves: Seq<NodeKey>,
    sp: Seq<NodeKey>,
    k: NodeKey,
) -> bool {
    sp.contains(k) || leaves.contains(k) || probed_out(probe, k)
}

/// The walk under a split `key` after its first `n` children were walked.
spec fn partial_walk<F: Fn(NodeKey) -> LodProbe>(
    probe: F,
    lod: u8,
    prev: Set<NodeKey>,
    key: NodeKey,
    n: int,
    leaves: Seq<NodeKey>,
    sp: Seq<NodeKey>,
) -> bool {
    &&& leaves.no_duplicates()
    &&& sp.no_duplicates()
    &&& forall|k: NodeKey| leaves.contains(k) ==> !sp.contains(k)
    &&& sp.len() >= 1
    &&& sp[0] == key
    &&& forall|j: int|
        0 <= j < leaves.len() ==> reached(key, lod, sp, #[trigger] leaves[j]) && probed_leaf(
            probe,
            lod,
            prev,
            leaves[j],
        ) && leaves[j].level > key.level && child_index(leaves[j], key) < n
    &&& forall|j: int|
        0 <= j < sp.len() ==> reached(key, lod, sp, #[trigger] sp[j]) && probed_split(
            probe,
            lod,
            prev,
            sp[j],
        ) && can_split(sp[j]) && (j == 0 || (sp[j].level > key.level && child_index(sp[j], key)
            < n))
    &&& forall|k: NodeKey, c: int|
        sp.contains(k) && k != key && 0 <= c < 4 ==> covered(probe, leaves, sp, #[trigger] child_of(k, c))
    &&& forall|c: int| 0 <= c < n ==> covered(probe, leaves, sp, #[trigger] child_of(key, c))
}

proof fn lemma_child_index_of_child(key: NodeKey, i: int)
    requires
        can_split(key),
        0 <= i < 4,
    ensures
        (child_of(key, i).x % 2) as int + 2 * (child_of(key, i).y % 2) as int == i,
{
    let c = child_of(key, i);
    if i == 0 {
        assert(c.x == 2 * key.x && c.y == 2 * key.y);
    } else if i == 1 {
        assert(c.x == 2 * key.x + 1 && c.y == 2 * key.y);
    } else if i == 2 {
        assert(c.x == 2 * key.x && c.y == 2 * key.y + 1);
    } else {
        assert(c.x == 2 * key.x + 1 && c.y == 2 * key.y + 1);
    }
}

/// A key reached under child `i` of `key` is reached under `key`, hanging
/// from child `i`.
proof fn lemma_reached_under_child(
    key: NodeKey,
    i: int,
    lod: u8,
    sc: Seq<NodeKey>,
    sp: Seq<NodeKey>,
    k: NodeKey,
)
    requires
        can_split(key),
        0 <= i < 4,
        reached(child_of(key, i), lod, sc, k),
        sp.contains(key),
        forall|x: NodeKey| sc.contains(x) ==> sp.contains(x),
    ensures
        reached(key, lod, sp, k),
        k.level > key.level,
        child_index(k, key) == i,
{
    let c = child_of(key, i);
    lemma_descends_from_child(k, key, i);
    lemma_child_index_of_child(key, i);
    assert forall|l: int| key.level <= l < k.level implies sp.contains(#[trigger] ancestor_at(k, l)) by {
        if l == key.level {
            assert(ancestor_at(k, l) == key);
        } else {
            assert(sc.contains(ancestor_at(k, l)));
        }
    }
}

/// Membership in the concatenation of two sequences.
proof fn lemma_add_contains<A>(a: Seq<A>, b: Seq<A>)
    ensures
        forall|x: A| #[trigger] (a + b).contains(x) == (a.contains(x) || b.contains(x)),
{
    assert forall|x: A| #[trigger] (a + b).contains(x) == (a.contains(x) || b.contains(x)) by {
        if a.contains(x) {
            let j = choose|j: int| 0 <= j < a.len() && a[j] == x;
            assert((a + b)[j] == x);
        }
        if b.contains(x) {
            let j = choose|j: int| 0 <= j < b.len() && b[j] == x;
            assert((a + b)[a.len() + j] == x);
        }
        if (a + b).contains(x) {
            let j = choose|j: int| 0 <= j < (a + b).len() && (a + b)[j] == x;
            if j < a.len() {
                assert(a[j] == x);
            } else {
                assert(b[j - a.len()] == x);
            }
        }
    }
}

/// Walking child `i` of a split `key` extends the partial walk by one child.
proof fn walk_step<F: Fn(NodeKey) -> LodProbe>(
    probe: F,
    lod: u8,
    prev: Set<NodeKey>,
    key: NodeKey,
    i: int,
    leaves: Seq<NodeKey>,
    sp: Seq<NodeKey>,
    lc: Seq<NodeKey>,
    sc: Seq<NodeKey>,
)
    requires
        can_split(key),
        0 <= i < 4,
        partial_walk(probe, lod, prev, key, i, leaves, sp),
        walk_result(probe, lod, prev, child_of(key, i), lc, sc),
    ensures
        partial_walk(probe, lod, prev, key, i + 1, leaves + lc, sp + sc),
{
    let l2 = leaves + lc;
    let s2 = sp + sc;
    lemma_add_contains(leaves, lc);
    lemma_add_contains(sp, sc);
    assert(sp.contains(sp[0]));
    assert forall|j: int| 0 <= j < lc.len() implies reached(key, lod, s2, #[trigger] lc[j])
        && lc[j].level > key.level && child_index(lc[j], key) == i by {
        lemma_reached_under_child(key, i, lod, sc, s2, lc[j]);
    }
    assert forall|j: int| 0 <= j < sc.len() implies reached(key, lod, s2, #[trigger] sc[j])
        && sc[j].level > key.level && child_index(sc[j], key) == i by {
        lemma_reached_under_child(key, i, lod, sc, s2, sc[j]);
    }
    assert forall|j: int| 0 <= j < leaves.len() implies reached(key, lod, s2, #[trigger] leaves[j]) by {
        let k = leaves[j];
        assert(reached(key, lod, sp, k));
        assert forall|l: int| key.level <= l < k.level implies s2.contains(#[trigger] ancestor_at(k, l)) by {
            assert(sp.contains(ancestor_at(k, l)));
        }
    }
    assert forall|j: int| 0 <= j < sp.len() implies reached(key, lod, s2, #[trigger] sp[j]) by {
        let k = sp[j];
        assert(reached(key, lod, sp, k));
        assert forall|l: int| key.level <= l < k.level implies s2.contains(#[trigger] ancestor_at(k, l)) by {
            assert(sp.contains(ancestor_at(k, l)));
        }
    }
    // the new keys are apart from the old ones
    assert forall|x: NodeKey| lc.contains(x) || sc.contains(x) implies !leaves.contains(x)
        && !sp.contains(x) by {
        let j = if lc.contains(x) {
            choose|j: int| 0 <= j < lc.len() && lc[j] == x
        } else {
            choose|j: int| 0 <= j < sc.len() && sc[j] == x
        };
        assert(x.level > key.level && child_index(x, key) == i);
        if leaves.contains(x) {
            let a = choose|a: int| 0 <= a < leaves.len() && leaves[a] == x;
            assert(child_index(leaves[a], key) < i);
        }
        if sp.contains(x) {
            let a = choose|a: int| 0 <= a < sp.len() && sp[a] == x;
            if a == 0 {
                assert(x == key);
            } else {
                assert(child_index(sp[a], key) < i);
            }
        }
    }
    assert forall|a: int, b: int| 0 <= a < b < l2.len() implies l2[a] != l2[b] by {
        if b < leaves.len() {
        } else if a >= leaves.len() {
            assert(l2[a] == lc[a - leaves.len()] && l2[b] == lc[b - leaves.len()]);
        } else {
            assert(lc.contains(l2[b]));
            assert(leaves.contains(l2[a]));
        }
    }
    assert forall|a: int, b: int| 0 <= a < b < s2.len() implies s2[a] != s2[b] by {
        if b < sp.len() {
        } else if a >= sp.len() {
            assert(s2[a] == sc[a - sp.len()] && s2[b] == sc[b - sp.len()]);
        } else {
            assert(sc.contains(s2[b]));
            assert(sp.contains(s2[a]));
        }
    }
    assert(l2.no_duplicates());
    assert(s2.no_duplicates());
    assert forall|j: int| 0 <= j < l2.len() implies reached(key, lod, s2, #[trigger] l2[j])
        && probed_leaf(probe, lod, prev, l2[j]) && l2[j].level > key.level && child_index(
        l2[j],
        key,
    ) < i + 1 by {
        if j >= leaves.len() {
            assert(l2[j] == lc[j - leaves.len()]);
        }
    }
    assert forall|j: int| 0 <= j < s2.len() implies reached(key, lod, s2, #[trigger] s2[j])
        && probed_split(probe, lod, prev, s2[j]) && can_split(s2[j]) && (j == 0 || (s2[j].level
        > key.level && child_index(s2[j], key) < i + 1)) by {
        if j >= sp.len() {
            assert(s2[j] == sc[j - sp.len()]);
        }
    }
    assert forall|k: NodeKey, c: int|
        s2.contains(k) && k != key && 0 <= c < 4 implies covered(probe, l2, s2, #[trigger] child_of(k, c)) by {
        if sc.contains(k) {
            assert(covered(probe, lc, sc, child_of(k, c)));
        } else {
            assert(covered(probe, leaves, sp, child_of(k, c)));
        }
    }
    assert forall|c: int| 0 <= c < i + 1 implies covered(probe, l2, s2, #[trigger] child_of(key, c)) by {
        if c == i {
            assert(covered(probe, lc, sc, child_of(key, c)));
        } else {
            assert(covered(probe, leaves, sp, child_of(key, c)));
        }
    }
    assert(s2[0] == key);
}

/// Once all four children of a split `key` are walked, the walk under `key`
/// is complete.
proof fn walk_finish<F: Fn(NodeKey) -> LodProbe>(
    probe: F,
    lod: u8,
    prev: Set<NodeKey>,
    key: NodeKey,
    leaves: Seq<NodeKey>,
    sp: Seq<NodeKey>,
)
    requires
        partial_walk(probe, lod, prev, key, 4, leaves, sp),
    ensures
        walk_result(probe, lod, prev, key, leaves, sp),
{
    assert(sp.contains(sp[0]));
    assert forall|k: NodeKey, c: int|
        sp.contains(k) && 0 <= c < 4 implies sp.contains(#[trigger] child_of(k, c))
        || leaves.contains(child_of(k, c)) || probed_out(probe, child_of(k, c)) by {
        assert(covered(probe, leaves, sp, child_of(k, c)));
    }
}

/// Hysteresis: since the merge distance exceeds the split distance, a node
/// that was split on the last walk stays split whenever a node that was not
/// would split, so chunks do not flicker between two levels.
pub proof fn lemma_split_hysteresis(k: NodeKey, lod: u8, prev: Set<NodeKey>, p: LodProbe)
    requires
        p.within_split ==> p.within_merge,
    ensures
        splits(k, lod, prev.remove(k), p) ==> splits(k, lod, prev.insert(k), p),
{
}

/// Walks the quadtree of one face from `node`, appending every node that
/// should currently be a visible leaf chunk to `desired` and every node that
/// is split to `newly_split`. `probe` measures a node against the reference
/// point; `previously_split` holds the nodes split on the last walk.
pub fn collect_desired_nodes<F: Fn(NodeKey) -> LodProbe>(
    face: CubeFace,
    node: QuadtreeNode,
    level_of_detail: u8,
    previously_split: &KeySet,
    probe: &F,
    desired: &mut Vec<NodeKey>,
    newly_split: &mut Vec<NodeKey>,
)
    requires
        level_of_detail <= 32,
        node.level <= level_of_detail,
        on_grid(node.key_on(face)),
        forall|k: NodeKey| call_requires(*probe, (k,)),
    ensures
        final(desired)@.len() >= old(desired)@.len(),
        final(newly_split)@.len() >= old(newly_split)@.len(),
        final(desired)@.take(old(desired)@.len() as int) == old(desired)@,
        final(newly_split)@.take(old(newly_split)@.len() as int) == old(newly_split)@,
        walk_result(
            *probe,
            level_of_detail,
            previously_split@,
            node.key_on(face),
            final(desired)@.skip(old(desired)@.len() as int),
            final(newly_split)@.skip(old(newly_split)@.len() as int),
        ),
    decreases level_of_detail - node.level,
{
    let key = NodeKey { face, level: node.level, x: node.x, y: node.y };
    let ghost prev = previously_split@;
    let ghost d0 = desired@;
    let ghost s0 = newly_split@;
    let p = probe(key);
    proof {
        lemma_ancestor_at(key, key.level as int);
    }
    if !p.in_range {
        assert(desired@.skip(d0.len() as int) =~= Seq::<NodeKey>::empty());
        assert(newly_split@.skip(s0.len() as int) =~= Seq::<NodeKey>::empty());
        assert(desired@.take(d0.len() as int) =~= d0);
        assert(newly_split@.take(s0.len() as int) =~= s0);
        assert(probed_out(*probe, key));
        return ;
    }
    let split_threshold_met = if previously_split.contains(key) {
        p.within_merge
    } else {
        p.within_split
    };
    let should_split = node.level < level_of_detail && split_threshold_met;
    if !should_split {
        desired.push(key);
        assert(desired@.skip(d0.len() as int) =~= seq![key]);
        assert(newly_split@.skip(s0.len() as int) =~= Seq::<NodeKey>::empty());
        assert(desired@.take(d0.len() as int) =~= d0);
        assert(newly_split@.take(s0.len() as int) =~= s0);
        assert(probed_leaf(*probe, level_of_detail, prev, key));
        assert(seq![key][0] == key);
        return ;
    }
    proof {
        lemma_grid_size_bounds(node.level as nat, 31);
    }
    assert(can_split(key));
    assert(probed_split(*probe, level_of_detail, prev, key));
    newly_split.push(key);
    proof {
        let sp = newly_split@.skip(s0.len() as int);
        assert(sp =~= seq![key]);
        assert(desired@.skip(d0.len() as int) =~= Seq::<NodeKey>::empty());
        assert(newly_split@.take(s0.len() as int) =~= s0);
        assert(desired@.take(d0.len() as int) =~= d0);
        assert(sp[0] == key);
        assert(sp.contains(key));
        assert(reached(key, level_of_detail, sp, key));
    }
    let children = node.children();
    let mut i: usize = 0;
    while i < 4
        invariant
            0 <= i <= 4,
            level_of_detail <= 32,
            node.level < level_of_detail,
            can_split(key),
            on_grid(key),
            key == node.key_on(face),
            prev == previously_split@,
            children@ == seq![node.child(0), node.child(1), node.child(2), node.child(3)],
            forall|f: CubeFace, j: int|
                0 <= j < 4 ==> #[trigger] node.child(j).key_on(f) == child_of(node.key_on(f), j),
            forall|k: NodeKey| call_requires(*probe, (k,)),
            probed_split(*probe, level_of_detail, prev, key),
            desired@.len() >= d0.len(),
            newly_split@.len() >= s0.len() + 1,
            desired@.take(d0.len() as int) == d0,
            newly_split@.take(s0.len() as int) == s0,
            newly_split@[s0.len() as int] == key,
            partial_walk(
                *probe,
                level_of_detail,
                prev,
                key,
                i as int,
                desired@.skip(d0.len() as int),
                newly_split@.skip(s0.len() as int),
            ),
        decreases 4 - i,
    {
        let ghost dl = desired@;
        let ghost sl = newly_split@;
        let child = children[i];
        proof {
            lemma_child_on_grid(key, i as int);
        }
        collect_desired_nodes(
            face,
            child,
            level_of_detail,
            previously_split,
            probe,
            desired,
            newly_split,
        );
        proof {
            assert(desired@.take(dl.len() as int) == dl);
            assert(newly_split@.take(sl.len() as int) == sl);
            assert(desired@.skip(d0.len() as int) =~= dl.skip(d0.len() as int) + desired@.skip(
                dl.len() as int,
            ));
            assert(newly_split@.skip(s0.len() as int) =~= sl.skip(s0.len() as int)
                + newly_split@.skip(sl.len() as int));
            assert(desired@.take(d0.len() as int) =~= dl.take(d0.len() as int));
            assert(newly_split@.take(s0.len() as int) =~= sl.take(s0.len() as int));
            walk_step(
                *probe,
                level_of_detail,
                prev,
                key,
                i as int,
                dl.skip(d0.len() as int),
                sl.skip(s0.len() as int),
                desired@.skip(dl.len() as int),
                newly_split@.skip(sl.len() as int),
            );
        }
        i = i + 1;
    }
    proof {
        walk_finish(
            *probe,
            level_of_detail,
            prev,
            key,
            desired@.skip(d0.len() as int),
            newly_split@.skip(s0.len() as int),
        );
    }
}

/// The key covering the whole of face `f`.
pub open spec fn face_root(f: CubeFace) -> NodeKey {
    NodeKey { face: f, level: 0, x: 0, y: 0 }
}

/// The position of `f` in `CubeFace::all()`.
pub open spec fn face_index(f: CubeFace) -> int {
    match f {
        CubeFace::PosX => 0,
        CubeFace::NegX => 1,
        CubeFace::PosY => 2,
        CubeFace::NegY => 3,
        CubeFace::PosZ => 4,
        CubeFace::NegZ => 5,
    }
}

/// `leaves` and `sp` are what walking the quadtrees of the faces before
/// index `n` produces (all six faces when `n` is 6), each key reached from
/// the root of its own face.
pub open spec fn faces_walk_result<F: Fn(NodeKey) -> LodProbe>(
    probe: F,
    lod: u8,
    prev: Set<NodeKey>,
    n: int,
    leaves: Seq<NodeKey>,
    sp: Seq<NodeKey>,
) -> bool {
    &&& leaves.no_duplicates()
    &&& sp.no_duplicates()
    &&& forall|k: NodeKey| leaves.contains(k) ==> !sp.contains(k)
    &&& forall|j: int|
        0 <= j < leaves.len() ==> reached(face_root(leaves[j].face), lod, sp, #[trigger] leaves[j])
            && probed_leaf(probe, lod, prev, leaves[j]) && face_index(leaves[j].face) < n
    &&& forall|j: int|
        0 <= j < sp.len() ==> reached(face_root(sp[j].face), lod, sp, #[trigger] sp[j])
            && probed_split(probe, lod, prev, sp[j]) && can_split(sp[j]) && face_index(sp[j].face)
            < n
    &&& forall|f: CubeFace|
        face_index(f) < n ==> covered(probe, leaves, sp, #[trigger] face_root(f))
    &&& forall|k: NodeKey, c: int|
        sp.contains(k) && 0 <= c < 4 ==> covered(probe, leaves, sp, #[trigger] child_of(k, c))
}

proof fn faces_walk_step<F: Fn(NodeKey) -> LodProbe>(
    probe: F,
    lod: u8,
    prev: Set<NodeKey>,
    f: CubeFace,
    leaves: Seq<NodeKey>,
    sp: Seq<NodeKey>,
    lc: Seq<NodeKey>,
    sc: Seq<NodeKey>,
)
    requires
        faces_walk_result(probe, lod, prev, face_index(f), leaves, sp),
        walk_result(probe, lod, prev, face_root(f), lc, sc),
    ensures
        faces_walk_result(probe, lod, prev, face_index(f) + 1, leaves + lc, sp + sc),
{
    let l2 = leaves + lc;
    let s2 = sp + sc;
    let r = face_root(f);
    lemma_add_contains(leaves, lc);
    lemma_add_contains(sp, sc);
    assert forall|k: NodeKey| lc.contains(k) || sc.contains(k) implies k.face == f && reached(
        r,
        lod,
        s2,
        k,
    ) by {
        let j = if lc.contains(k) {
            choose|j: int| 0 <= j < lc.len() && lc[j] == k
        } else {
            choose|j: int| 0 <= j < sc.len() && sc[j] == k
        };
        assert(reached(r, lod, sc, k));
        lemma_ancestor_at(k, 0);
        assert forall|l: int| r.level <= l < k.level implies s2.contains(#[trigger] ancestor_at(k, l)) by {
            assert(sc.contains(ancestor_at(k, l)));
        }
    }
    assert forall|k: NodeKey| leaves.contains(k) || sp.contains(k) implies face_index(k.face)
        < face_index(f) && reached(face_root(k.face), lod, s2, k) by {
        let j = if leaves.contains(k) {
            choose|j: int| 0 <= j < leaves.len() && leaves[j] == k
        } else {
            choose|j: int| 0 <= j < sp.len() && sp[j] == k
        };
        assert(reached(face_root(k.face), lod, sp, k));
        assert forall|l: int| 0 <= l < k.level implies s2.contains(#[trigger] ancestor_at(k, l)) by {
            assert(sp.contains(ancestor_at(k, l)));
        }
    }
    assert forall|a: int, b: int| 0 <= a < b < l2.len() implies l2[a] != l2[b] by {
        if b < leaves.len() {
        } else if a >= leaves.len() {
            assert(l2[a] == lc[a - leaves.len()] && l2[b] == lc[b - leaves.len()]);
        } else {
            assert(lc.contains(l2[b]));
            assert(leaves.contains(l2[a]));
        }
    }
    assert forall|a: int, b: int| 0 <= a < b < s2.len() implies s2[a] != s2[b] by {
        if b < sp.len() {
        } else if a >= sp.len() {
            assert(s2[a] == sc[a - sp.len()] && s2[b] == sc[b - sp.len()]);
        } else {
            assert(sc.contains(s2[b]));
            assert(sp.contains(s2[a]));
        }
    }
    assert(l2.no_duplicates());
    assert(s2.no_duplicates());
    assert forall|j: int| 0 <= j < l2.len() implies reached(
        face_root(l2[j].face),
        lod,
        s2,
        #[trigger] l2[j],
    ) && probed_leaf(probe, lod, prev, l2[j]) && face_index(l2[j].face) < face_index(f) + 1 by {
        if j >= leaves.len() {
            assert(l2[j] == lc[j - leaves.len()]);
            assert(lc.contains(l2[j]));
        } else {
            assert(leaves.contains(l2[j]));
        }
    }
    assert forall|j: int| 0 <= j < s2.len() implies reached(
        face_root(s2[j].face),
        lod,
        s2,
        #[trigger] s2[j],
    ) && probed_split(probe, lod, prev, s2[j]) && can_split(s2[j]) && face_index(s2[j].face)
        < face_index(f) + 1 by {
        if j >= sp.len() {
            assert(s2[j] == sc[j - sp.len()]);
            assert(sc.contains(s2[j]));
        } else {
            assert(sp.contains(s2[j]));
        }
    }
    assert forall|g: CubeFace| face_index(g) < face_index(f) + 1 implies covered(
        probe,
        l2,
        s2,
        #[trigger] face_root(g),
    ) by {
        if g == f {
            assert(covered(probe, lc, sc, r));
        } else {
            assert(covered(probe, leaves, sp, face_root(g)));
        }
    }
    assert forall|k: NodeKey, c: int|
        s2.contains(k) && 0 <= c < 4 implies covered(probe, l2, s2, #[trigger] child_of(k, c)) by {
        if sc.contains(k) {
            assert(covered(probe, lc, sc, child_of(k, c)));
        } else {
            assert(covered(probe, leaves, sp, child_of(k, c)));
        }
    }
}

/// Walks the quadtrees of all six faces: returns the keys that should be
/// visible leaf chunks and the keys that are split.
pub fn collect_desired_all_faces<F: Fn(NodeKey) -> LodProbe>(
    level_of_detail: u8,
    previously_split: &KeySet,
    probe: &F,
) -> (r: (Vec<NodeKey>, Vec<NodeKey>))
    requires
        level_of_detail <= 32,
        forall|k: NodeKey| call_requires(*probe, (k,)),
    ensures
        faces_walk_result(*probe, level_of_detail, previously_split@, 6, r.0@, r.1@),
{
    let mut desired: Vec<NodeKey> = Vec::new();
    let mut newly_split: Vec<NodeKey> = Vec::new();
    let faces = CubeFace::all();
    let mut n: usize = 0;
    while n < 6
        invariant
            0 <= n <= 6,
            level_of_detail <= 32,
            forall|k: NodeKey| call_requires(*probe, (k,)),
            faces@ == seq![
                CubeFace::PosX,
                CubeFace::NegX,
                CubeFace::PosY,
                CubeFace::NegY,
                CubeFace::PosZ,
                CubeFace::NegZ,
            ],
            faces_walk_result(
                *probe,
                level_of_detail,
                previously_split@,
                n as int,
                desired@,
                newly_split@,
            ),
        decreases 6 - n,
    {
        let f = faces[n];
        assert(face_index(f) == n);
        let ghost dl = desired@;
        let ghost sl = newly_split@;
        let root = QuadtreeNode::root();
        assert(root.key_on(f) == face_root(f));
        collect_desired_nodes(
            f,
            root,
            level_of_detail,
            previously_split,
            probe,
            &mut desired,
            &mut newly_split,
        );
        proof {
            assert(desired@ =~= dl + desired@.skip(dl.len() as int));
            assert(newly_split@ =~= sl + newly_split@.skip(sl.len() as int));
            faces_walk_step(
                *probe,
                level_of_detail,
                previously_split@,
                f,
                dl,
                sl,
                desired@.skip(dl.len() as int),
                newly_split@.skip(sl.len() as int),
            );
        }
        n = n + 1;
    }
    (desired, newly_split)
}

/// Every node the walk reports was answered in range by the probe: a split
/// node with an answer within the merge distance (if it was split on the last
/// walk) or the split distance (if not), above the maximum depth; a leaf with
/// an answer that is neither. A node beyond the render distance is neither a
/// leaf nor split, whatever the last walk did with it.
pub proof fn lemma_walk_nodes_answered_in_range<F: Fn(NodeKey) -> LodProbe>(
    probe: F,
    lod: u8,
    prev: Set<NodeKey>,
    leaves: Seq<NodeKey>,
    sp: Seq<NodeKey>,
)
    requires
        faces_walk_result(probe, lod, prev, 6, leaves, sp),
    ensures
        forall|k: NodeKey|
            #[trigger] sp.contains(k) ==> exists|p: LodProbe|
                #[trigger] call_ensures(probe, (k,), p) && p.in_range && k.level < lod && (if prev.contains(
                    k,
                ) {
                    p.within_merge
                } else {
                    p.within_split
                }),
        forall|k: NodeKey|
            #[trigger] leaves.contains(k) ==> exists|p: LodProbe|
                #[trigger] call_ensures(probe, (k,), p) && p.in_range && !(k.level < lod && (if prev.contains(
                    k,
                ) {
                    p.within_merge
                } else {
                    p.within_split
                })),
{
    assert forall|k: NodeKey| #[trigger] sp.contains(k) implies exists|p: LodProbe|
        #[trigger] call_ensures(probe, (k,), p) && p.in_range && k.level < lod && (if prev.contains(k) {
            p.within_merge
        } else {
            p.within_split
        }) by {
        let j = choose|j: int| 0 <= j < sp.len() && sp[j] == k;
        assert(probed_split(probe, lod, prev, sp[j]));
    }
    assert forall|k: NodeKey| #[trigger] leaves.contains(k) implies exists|p: LodProbe|
        #[trigger] call_ensures(probe, (k,), p) && p.in_range && !(k.level < lod && (if prev.contains(
            k,
        ) {
            p.within_merge
        } else {
            p.within_split
        })) by {
        let j = choose|j: int| 0 <= j < leaves.len() && leaves[j] == k;
        assert(probed_leaf(probe, lod, prev, leaves[j]));
    }
}

/// A node the walk reached is split exactly when the probe's answer for it
/// splits it: a node split on the last walk stays split while the reference
/// point is within the merge distance, any other node splits only within the
/// split distance. So between the two distances a node keeps the state it had
/// on the last walk, and chunks do not flicker between two levels.
pub proof fn lemma_walk_splits_by_distance<F: Fn(NodeKey) -> LodProbe>(
    probe: F,
    lod: u8,
    prev: Set<NodeKey>,
    leaves: Seq<NodeKey>,
    sp: Seq<NodeKey>,
    k: NodeKey,
    p: LodProbe,
)
    requires
        faces_walk_result(probe, lod, prev, 6, leaves, sp),
        call_ensures(probe, (k,), p),
        forall|q: LodProbe| #[trigger] call_ensures(probe, (k,), q) ==> q == p,
    ensures
        leaves.contains(k) || sp.contains(k) ==> (sp.contains(k) <==> splits(k, lod, prev, p)),
        leaves.contains(k) || sp.contains(k) ==> p.in_range && (sp.contains(k) <==> (k.level < lod
            && (if prev.contains(k) {
            p.within_merge
        } else {
            p.within_split
        }))),
        !p.in_range ==> !leaves.contains(k) && !sp.contains(k),
        (leaves.contains(k) || sp.contains(k)) && k.level < lod && p.within_merge
            && !p.within_split ==> (sp.contains(k) <==> prev.contains(k)),
{
    if sp.contains(k) {
        let j = choose|j: int| 0 <= j < sp.len() && sp[j] == k;
        assert(probed_split(probe, lod, prev, sp[j]));
        let q = choose|q: LodProbe| #[trigger] call_ensures(probe, (k,), q) && splits(k, lod, prev, q);
        assert(q == p);
    } else if leaves.contains(k) {
        let j = choose|j: int| 0 <= j < leaves.len() && leaves[j] == k;
        assert(probed_leaf(probe, lod, prev, leaves[j]));
        let q = choose|q: LodProbe|
            #[trigger] call_ensures(probe, (k,), q) && q.in_range && !splits(k, lod, prev, q);
        assert(q == p);
    }
}

/// Visible chunks never overlap: no leaf of a walk lies under another leaf.
pub proof fn lemma_walk_leaves_do_not_overlap<F: Fn(NodeKey) -> LodProbe>(
    probe: F,
    lod: u8,
    prev: Set<NodeKey>,
    leaves: Seq<NodeKey>,
    sp: Seq<NodeKey>,
)
    requires
        faces_walk_result(probe, lod, prev, 6, leaves, sp),
    ensures
        forall|i: int, j: int|
            0 <= i < leaves.len() && 0 <= j < leaves.len() && i != j ==> !descends(
                #[trigger] leaves[i],
                #[trigger] leaves[j],
            ),
{
    assert forall|i: int, j: int|
        0 <= i < leaves.len() && 0 <= j < leaves.len() && i != j implies !descends(
        #[trigger] leaves[i],
        #[trigger] leaves[j],
    ) by {
        let a = leaves[i];
        let b = leaves[j];
        if descends(a, b) {
            assert(a != b);
            lemma_ancestor_at(a, a.level as int);
            assert(a.level > b.level);
            assert(reached(face_root(a.face), lod, sp, a));
            assert(sp.contains(ancestor_at(a, b.level as int)));
            assert(leaves.contains(b));
        }
    }
}

/// Every split key and every leaf of a walk has all its ancestors split, and
/// every child of a split key is a leaf, split, or culled: the leaves tile
/// every face down to what the probe culled.
pub proof fn lemma_walk_is_closed<F: Fn(NodeKey) -> LodProbe>(
    probe: F,
    lod: u8,
    prev: Set<NodeKey>,
    leaves: Seq<NodeKey>,
    sp: Seq<NodeKey>,
)
    requires
        faces_walk_result(probe, lod, prev, 6, leaves, sp),
    ensures
        forall|k: NodeKey, l: int|
            (leaves.contains(k) || sp.contains(k)) && 0 <= l < k.level ==> sp.contains(
                #[trigger] ancestor_at(k, l),
            ),
        forall|f: CubeFace| #[trigger]
            sp.contains(face_root(f)) || leaves.contains(face_root(f)) || probed_out(
                probe,
                face_root(f),
            ),
        forall|k: NodeKey, c: int|
            sp.contains(k) && 0 <= c < 4 ==> sp.contains(#[trigger] child_of(k, c))
                || leaves.contains(child_of(k, c)) || probed_out(probe, child_of(k, c)),
{
    assert forall|k: NodeKey, l: int|
        (leaves.contains(k) || sp.contains(k)) && 0 <= l < k.level implies sp.contains(
        #[trigger] ancestor_at(k, l),
    ) by {
        if leaves.contains(k) {
            let j = choose|j: int| 0 <= j < leaves.len() && leaves[j] == k;
            assert(reached(face_root(k.face), lod, sp, leaves[j]));
        } else {
            let j = choose|j: int| 0 <= j < sp.len() && sp[j] == k;
            assert(reached(face_root(k.face), lod, sp, sp[j]));
        }
    }
    assert forall|f: CubeFace| #[trigger]
        sp.contains(face_root(f)) || leaves.contains(face_root(f)) || probed_out(
            probe,
            face_root(f),
        ) by {
        assert(covered(probe, leaves, sp, face_root(f)));
    }
    assert forall|k: NodeKey, c: int|
        sp.contains(k) && 0 <= c < 4 implies sp.contains(#[trigger] child_of(k, c))
        || leaves.contains(child_of(k, c)) || probed_out(probe, child_of(k, c)) by {
        assert(covered(probe, leaves, sp, child_of(k, c)));
    }
}

} // verus!
