use vstd::prelude::*;

use super::keymap::{
    keys_distinct, lemma_map_of_at, lemma_map_of_take_step, lemma_push_contains, lemma_take_full, map_of, ChunkMap,
    KeySet,
};
use super::lod::{collect_desired_all_faces, faces_walk_result, LodProbe};
use super::quadtree::{descends, NodeKey};

verus! {

/// The abstract state of the chunk registry.
pub struct RegistryView {
    /// Chunks that are spawned, by key.
    pub live: Map<NodeKey, u64>,
    /// Keys whose chunk is being built.
    pub pending: Set<NodeKey>,
    /// Chunks waiting to be despawned once their replacement is live.
    pub retiring: Map<NodeKey, u64>,
    /// Keys that were split on the last walk.
    pub split: Set<NodeKey>,
}

/// Keys whose chunk gets built by a reconcile against `d`: desired, and
/// neither live, building nor retiring.
pub open spec fn chunks_to_spawn(v: RegistryView, d: Set<NodeKey>) -> Set<NodeKey> {
    Set::new(
        |k: NodeKey|
            d.contains(k) && !v.live.dom().contains(k) && !v.pending.contains(k)
                && !v.retiring.dom().contains(k),
    )
}

/// Live chunks after a reconcile against `d`: the desired live ones, plus
/// desired retiring ones that are reclaimed because nothing else covers them.
pub open spec fn reconciled_live(v: RegistryView, d: Set<NodeKey>) -> Map<NodeKey, u64> {
    Map::new(
        |k: NodeKey|
            d.contains(k) && (v.live.dom().contains(k) || (!v.pending.contains(k)
                && v.retiring.dom().contains(k))),
        |k: NodeKey|
            if v.live.dom().contains(k) {
                v.live[k]
            } else {
                v.retiring[k]
            },
    )
}

/// Building keys after a reconcile against `d`: the desired ones that were
/// already building, plus the freshly spawned ones.
pub open spec fn reconciled_pending(v: RegistryView, d: Set<NodeKey>) -> Set<NodeKey> {
    Set::new(
        |k: NodeKey|
            d.contains(k) && (v.pending.contains(k) || (!v.live.dom().contains(k)
                && !v.retiring.dom().contains(k))),
    )
}

/// Retiring chunks before the readiness check: every chunk that is no longer
/// desired (a live one replacing a retiring one under the same key), plus
/// desired retiring ones that were not reclaimed.
pub open spec fn retiring_candidates(v: RegistryView, d: Set<NodeKey>) -> Map<NodeKey, u64> {
    Map::new(
        |k: NodeKey|
            if d.contains(k) {
                v.retiring.dom().contains(k) && (v.live.dom().contains(k) || v.pending.contains(
                    k,
                ))
            } else {
                v.live.dom().contains(k) || v.retiring.dom().contains(k)
            },
        |k: NodeKey|
            if !d.contains(k) && v.live.dom().contains(k) {
                v.live[k]
            } else {
                v.retiring[k]
            },
    )
}

/// Whatever replaces the retiring chunk `k` is live: every desired key
/// covering part of its area (a desired ancestor, descendant, or `k` itself)
/// is live. A chunk that no desired key overlaps is ready at once.
pub open spec fn replacement_is_live(k: NodeKey, d: Set<NodeKey>, live: Set<NodeKey>) -> bool {
    forall|x: NodeKey| #[trigger] d.contains(x) && overlaps(x, k) ==> live.contains(x)
}

/// The areas of `a` and `b` overlap: one lies under the other.
pub open spec fn overlaps(a: NodeKey, b: NodeKey) -> bool {
    descends(a, b) || descends(b, a)
}

/// Retiring chunks that stay after a reconcile against `d`.
pub open spec fn reconciled_retiring(v: RegistryView, d: Set<NodeKey>) -> Map<NodeKey, u64> {
    let c = retiring_candidates(v, d);
    let live = reconciled_live(v, d).dom();
    Map::new(|k: NodeKey| c.dom().contains(k) && !replacement_is_live(k, d, live), |k: NodeKey| c[k])
}

/// Retiring chunks despawned by a reconcile against `d`.
pub open spec fn despawned_chunks(v: RegistryView, d: Set<NodeKey>) -> Map<NodeKey, u64> {
    let c = retiring_candidates(v, d);
    let live = reconciled_live(v, d).dom();
    Map::new(|k: NodeKey| c.dom().contains(k) && replacement_is_live(k, d, live), |k: NodeKey| c[k])
}

/// After a reconcile, every desired key is live or building, and only desired
/// keys are.
pub proof fn lemma_reconcile_covers_exactly_desired(v: RegistryView, d: Set<NodeKey>)
    ensures
        forall|k: NodeKey|
            d.contains(k) ==> #[trigger] reconciled_live(v, d).dom().contains(k)
                || #[trigger] reconciled_pending(v, d).contains(k),
        forall|k: NodeKey| #[trigger] reconciled_live(v, d).dom().contains(k) ==> d.contains(k),
        forall|k: NodeKey| #[trigger] reconciled_pending(v, d).contains(k) ==> d.contains(k),
{
}

/// What a reconcile does to each key: a desired live chunk stays live as it
/// was; a desired key whose chunk is retiring and not being rebuilt gets that
/// chunk back instead of a new build; a key no longer desired is neither live
/// nor building afterwards; and the keys handed out to be spawned are exactly
/// the newly building ones.
pub proof fn lemma_reconcile_per_key(v: RegistryView, d: Set<NodeKey>, k: NodeKey)
    ensures
        d.contains(k) && v.live.dom().contains(k) ==> reconciled_live(v, d).dom().contains(k)
            && reconciled_live(v, d)[k] == v.live[k],
        d.contains(k) && !v.live.dom().contains(k) && !v.pending.contains(k)
            && v.retiring.dom().contains(k) ==> reconciled_live(v, d).dom().contains(k)
            && reconciled_live(v, d)[k] == v.retiring[k] && !chunks_to_spawn(v, d).contains(k),
        d.contains(k) && v.pending.contains(k) ==> reconciled_pending(v, d).contains(k)
            && !chunks_to_spawn(v, d).contains(k),
        !d.contains(k) ==> !reconciled_live(v, d).dom().contains(k) && !reconciled_pending(
            v,
            d,
        ).contains(k) && !chunks_to_spawn(v, d).contains(k),
        chunks_to_spawn(v, d).contains(k) <==> reconciled_pending(v, d).contains(k)
            && !v.pending.contains(k),
        !d.contains(k) && v.live.dom().contains(k) ==> (reconciled_retiring(v, d).dom().contains(k)
            && reconciled_retiring(v, d)[k] == v.live[k]) || (despawned_chunks(v, d).dom().contains(k)
            && despawned_chunks(v, d)[k] == v.live[k]),
{
}

/// A finished build with a chunk makes that chunk live under its key and
/// stops the key building and retiring; one without a chunk only stops the
/// key building. Nothing else changes.
pub proof fn lemma_finish_makes_live(v: RegistryView, key: NodeKey, entity: Option<u64>, k: NodeKey)
    ensures
        !finished(v, key, entity).pending.contains(key),
        entity matches Some(e) ==> finished(v, key, entity).live.dom().contains(key)
            && finished(v, key, entity).live[key] == e && !finished(
            v,
            key,
            entity,
        ).retiring.dom().contains(key),
        entity is None ==> finished(v, key, entity).live == v.live && finished(
            v,
            key,
            entity,
        ).retiring == v.retiring,
        k != key ==> finished(v, key, entity).live.dom().contains(k) == v.live.dom().contains(k)
            && finished(v, key, entity).live[k] == v.live[k] && finished(v, key, entity).pending.contains(k)
            == v.pending.contains(k) && finished(v, key, entity).retiring.dom().contains(k)
            == v.retiring.dom().contains(k) && finished(v, key, entity).retiring[k]
            == v.retiring[k],
        finished(v, key, entity).split == v.split,
{
}

/// The registry's own consistency: no key is live and building at once, and
/// no key is live and retiring at once.
pub open spec fn chunks_apart(v: RegistryView) -> bool {
    &&& forall|k: NodeKey| !(#[trigger] v.live.dom().contains(k) && v.pending.contains(k))
    &&& forall|k: NodeKey| !(#[trigger] v.live.dom().contains(k) && v.retiring.dom().contains(k))
}

/// Reconciling keeps the registry consistent.
pub proof fn lemma_reconcile_keeps_chunks_apart(v: RegistryView, d: Set<NodeKey>, s: Set<NodeKey>)
    requires
        chunks_apart(v),
    ensures
        chunks_apart(
            RegistryView {
                live: reconciled_live(v, d),
                pending: reconciled_pending(v, d),
                retiring: reconciled_retiring(v, d),
                split: s,
            },
        ),
{
}

/// The registry after the build of `key` finished with `entity`.
pub open spec fn finished(v: RegistryView, key: NodeKey, entity: Option<u64>) -> RegistryView {
    match entity {
        Some(e) => RegistryView {
            live: v.live.insert(key, e),
            pending: v.pending.remove(key),
            retiring: v.retiring.remove(key),
            split: v.split,
        },
        None => RegistryView { pending: v.pending.remove(key), ..v },
    }
}

/// The chunks a finished build of `key` into `e` supersedes: an earlier live
/// chunk and a retiring chunk under the same key (other than `e` itself).
pub open spec fn displaced_by(v: RegistryView, key: NodeKey, e: u64) -> Seq<u64> {
    let a = if v.live.dom().contains(key) && v.live[key] != e {
        seq![v.live[key]]
    } else {
        Seq::<u64>::empty()
    };
    let b = if v.retiring.dom().contains(key) && v.retiring[key] != e {
        seq![v.retiring[key]]
    } else {
        Seq::<u64>::empty()
    };
    a + b
}

/// Finishing a build keeps the registry consistent.
pub proof fn lemma_finish_keeps_chunks_apart(v: RegistryView, key: NodeKey, entity: Option<u64>)
    requires
        chunks_apart(v),
    ensures
        chunks_apart(finished(v, key, entity)),
{
}

/// Finishing a build loses no chunk: every chunk live or retiring before is
/// afterwards live, retiring, or handed out to be despawned.
pub proof fn lemma_finish_keeps_every_chunk(v: RegistryView, key: NodeKey, entity: Option<u64>)
    ensures
        ({
            let w = finished(v, key, entity);
            let gone = match entity {
                Some(e) => displaced_by(v, key, e),
                None => Seq::<u64>::empty(),
            };
            &&& forall|k: NodeKey| #[trigger]
                v.live.dom().contains(k) ==> (w.live.dom().contains(k) && w.live[k] == v.live[k])
                    || (w.retiring.dom().contains(k) && w.retiring[k] == v.live[k]) || gone.contains(
                    v.live[k],
                )
            &&& forall|k: NodeKey| #[trigger]
                v.retiring.dom().contains(k) ==> (w.live.dom().contains(k) && w.live[k]
                    == v.retiring[k]) || (w.retiring.dom().contains(k) && w.retiring[k]
                    == v.retiring[k]) || gone.contains(v.retiring[k])
        }),
{
    if let Some(e) = entity {
        let d = displaced_by(v, key, e);
        if v.live.dom().contains(key) && v.live[key] != e {
            assert(d[0] == v.live[key]);
        }
        if v.retiring.dom().contains(key) && v.retiring[key] != e {
            assert(d[d.len() - 1] == v.retiring[key]);
        }
    }
}

/// A retiring chunk is despawned only once whatever replaces it is live,
/// and one that stays retiring is still waiting for its replacement.
pub proof fn lemma_despawn_waits_for_replacement(v: RegistryView, d: Set<NodeKey>)
    ensures
        forall|k: NodeKey| #[trigger]
            despawned_chunks(v, d).dom().contains(k) ==> replacement_is_live(
                k,
                d,
                reconciled_live(v, d).dom(),
            ),
        forall|k: NodeKey| #[trigger]
            reconciled_retiring(v, d).dom().contains(k) ==> !replacement_is_live(
                k,
                d,
                reconciled_live(v, d).dom(),
            ),
{
}

/// The chunk `e` is still held under `k` after a reconcile against `d`: live,
/// retiring, or handed out to be despawned.
pub open spec fn still_held(v: RegistryView, d: Set<NodeKey>, k: NodeKey, e: u64) -> bool {
    ||| reconciled_live(v, d).dom().contains(k) && reconciled_live(v, d)[k] == e
    ||| reconciled_retiring(v, d).dom().contains(k) && reconciled_retiring(v, d)[k] == e
    ||| despawned_chunks(v, d).dom().contains(k) && despawned_chunks(v, d)[k] == e
}

/// No chunk goes missing: in a consistent registry, every live and every
/// retiring chunk is afterwards live, retiring or despawned.
pub proof fn lemma_reconcile_keeps_every_chunk(v: RegistryView, d: Set<NodeKey>)
    requires
        chunks_apart(v),
    ensures
        forall|k: NodeKey| #[trigger]
            v.live.dom().contains(k) ==> still_held(v, d, k, v.live[k]),
        forall|k: NodeKey| #[trigger]
            v.retiring.dom().contains(k) ==> still_held(v, d, k, v.retiring[k]),
{
}

/// Reconciling twice against the same desired keys: the second time spawns
/// and despawns nothing and leaves the registry as it was.
pub proof fn lemma_reconcile_settles(v: RegistryView, d: Set<NodeKey>, s: Set<NodeKey>)
    ensures
        ({
            let w = RegistryView {
                live: reconciled_live(v, d),
                pending: reconciled_pending(v, d),
                retiring: reconciled_retiring(v, d),
                split: s,
            };
            &&& chunks_to_spawn(w, d) == Set::<NodeKey>::empty()
            &&& despawned_chunks(w, d) == Map::<NodeKey, u64>::empty()
            &&& reconciled_live(w, d) == w.live
            &&& reconciled_pending(w, d) == w.pending
            &&& reconciled_retiring(w, d) == w.retiring
        }),
{
    let w = RegistryView {
        live: reconciled_live(v, d),
        pending: reconciled_pending(v, d),
        retiring: reconciled_retiring(v, d),
        split: s,
    };
    assert(chunks_to_spawn(w, d) =~= Set::<NodeKey>::empty());
    assert(reconciled_live(w, d) =~= w.live);
    assert(reconciled_pending(w, d) =~= w.pending);
    assert(retiring_candidates(w, d) =~= w.retiring);
    assert(despawned_chunks(w, d) =~= Map::<NodeKey, u64>::empty());
    assert(reconciled_retiring(w, d) =~= w.retiring);
}

/// What the engine has to do after a reconcile.
pub struct ChunkActions {
    /// Keys whose chunk must be built, each once.
    pub spawn: Vec<NodeKey>,
    /// Chunks to despawn.
    pub despawn: ChunkMap,
}

/// Tracks which quadtree leaf chunks are currently spawned (or in flight).
pub struct TerrainChunkRegistry {
    live: ChunkMap,
    pending: KeySet,
    /// To be despawned
    retiring: ChunkMap,
    /// To be split
    split: KeySet,
}

impl Default for TerrainChunkRegistry {
    fn default() -> (r: TerrainChunkRegistry)
        ensures
            r@.live == Map::<NodeKey, u64>::empty(),
            r@.pending == Set::<NodeKey>::empty(),
            r@.retiring == Map::<NodeKey, u64>::empty(),
            r@.split == Set::<NodeKey>::empty(),
    {
        TerrainChunkRegistry::new()
    }
}

impl TerrainChunkRegistry {
    /// The registry's abstract state.
    pub closed spec fn view(&self) -> RegistryView {
        RegistryView {
            live: self.live@,
            pending: self.pending@,
            retiring: self.retiring@,
            split: self.split@,
        }
    }

    /// An empty registry.
    pub fn new() -> (r: TerrainChunkRegistry)
        ensures
            r@.live == Map::<NodeKey, u64>::empty(),
            r@.pending == Set::<NodeKey>::empty(),
            r@.retiring == Map::<NodeKey, u64>::empty(),
            r@.split == Set::<NodeKey>::empty(),
    {
        TerrainChunkRegistry {
            live: ChunkMap::new(),
            pending: KeySet::new(),
            retiring: ChunkMap::new(),
            split: KeySet::new(),
        }
    }

    /// The live chunks.
    pub fn live_chunks(&self) -> (m: &ChunkMap)
        ensures
            m@ == self@.live,
    {
        &self.live
    }

    /// The keys whose chunk is being built.
    pub fn pending_keys(&self) -> (s: &KeySet)
        ensures
            s@ == self@.pending,
    {
        &self.pending
    }

    /// The chunks waiting for their replacement.
    pub fn retiring_chunks(&self) -> (m: &ChunkMap)
        ensures
            m@ == self@.retiring,
    {
        &self.retiring
    }

    /// The keys split on the last walk.
    pub fn split_keys(&self) -> (s: &KeySet)
        ensures
            s@ == self@.split,
    {
        &self.split
    }

    /// Records that the build of `key` finished: it no longer builds, and the
    /// chunk `entity`, when the build produced one, is live under `key`. The
    /// chunks it supersedes (an earlier live chunk and a retiring chunk under
    /// the same key) are returned to be despawned, so no chunk is left
    /// spawned without being tracked.
    pub fn finish_chunk(&mut self, key: NodeKey, entity: Option<u64>) -> (displaced: Vec<u64>)
        ensures
            final(self)@ == finished(old(self)@, key, entity),
            displaced@ == match entity {
                Some(e) => displaced_by(old(self)@, key, e),
                None => Seq::<u64>::empty(),
            },
    {
        let ghost v = self@;
        self.pending.remove(key);
        let mut displaced: Vec<u64> = Vec::new();
        if let Some(e) = entity {
            if let Some(old_live) = self.live.get(key) {
                if old_live != e {
                    displaced.push(old_live);
                }
            }
            if let Some(old_retiring) = self.retiring.remove(key) {
                if old_retiring != e {
                    displaced.push(old_retiring);
                }
            }
            self.live.insert(key, e);
            assert(displaced@ =~= displaced_by(v, key, e));
        }
        displaced
    }

    /// Whether the chunk replacing retiring `k` is live: every desired key
    /// overlapping it is live.
    fn replacement_ready(k: NodeKey, desired: &KeySet, live: &ChunkMap) -> (b: bool)
        ensures
            b == replacement_is_live(k, desired@, live@.dom()),
    {
        let keys = desired.keys();
        let mut i: usize = 0;
        while i < keys.len()
            invariant
                i <= keys@.len(),
                keys@.to_set() == desired@,
                forall|j: int|
                    0 <= j < i && overlaps(#[trigger] keys@[j], k) ==> live@.dom().contains(
                        keys@[j],
                    ),
            decreases keys@.len() - i,
        {
            let x = keys[i];
            if (x.lies_under(k) || k.lies_under(x)) && !live.contains_key(x) {
                assert(keys@.contains(x));
                assert(desired@.contains(x));
                return false;
            }
            i = i + 1;
        }
        assert forall|x: NodeKey| #[trigger]
            desired@.contains(x) && overlaps(x, k) implies live@.dom().contains(x) by {
            assert(keys@.to_set().contains(x));
            let j = choose|j: int| 0 <= j < keys@.len() && keys@[j] == x;
            assert(overlaps(keys@[j], k));
        }
        true
    }

    /// Brings the registry in line with a new set of desired leaf keys and
    /// the keys that were split to reach them. Desired chunks that are
    /// neither live nor building are either reclaimed from the retiring ones
    /// or returned to be spawned; chunks no longer desired retire, and a
    /// retiring chunk is returned to be despawned only once whatever replaces
    /// it is live.
    pub fn reconcile(&mut self, desired: &Vec<NodeKey>, newly_split: &Vec<NodeKey>) -> (actions:
        ChunkActions)
        ensures
            final(self)@.live == reconciled_live(old(self)@, desired@.to_set()),
            final(self)@.pending == reconciled_pending(old(self)@, desired@.to_set()),
            final(self)@.retiring == reconciled_retiring(old(self)@, desired@.to_set()),
            final(self)@.split == newly_split@.to_set(),
            actions.spawn@.no_duplicates(),
            actions.spawn@.to_set() == chunks_to_spawn(old(self)@, desired@.to_set()),
            actions.despawn@ == despawned_chunks(old(self)@, desired@.to_set()),
    {
        let ghost v = self@;
        let ghost d = desired@.to_set();
        let dset = KeySet::from_vec(desired);

        // Live chunks that are no longer desired start retiring.
        let mut live = ChunkMap::new();
        let mut retiring = ChunkMap::new();
        std::mem::swap(&mut retiring, &mut self.retiring);
        let old_live = self.live.entries();
        let mut i: usize = 0;
        while i < old_live.len()
            invariant
                i <= old_live@.len(),
                keys_distinct(old_live@),
                map_of(old_live@) == v.live,
                dset@ == d,
                live@ =~= Map::new(
                    |k: NodeKey| map_of(old_live@.take(i as int)).dom().contains(k) && d.contains(k),
                    |k: NodeKey| map_of(old_live@.take(i as int))[k],
                ),
                retiring@ =~= Map::new(
                    |k: NodeKey|
                        v.retiring.dom().contains(k) || (map_of(
                            old_live@.take(i as int),
                        ).dom().contains(k) && !d.contains(k)),
                    |k: NodeKey|
                        if map_of(old_live@.take(i as int)).dom().contains(k) && !d.contains(k) {
                            map_of(old_live@.take(i as int))[k]
                        } else {
                            v.retiring[k]
                        },
                ),
            decreases old_live@.len() - i,
        {
            let (k, e) = old_live[i];
            proof {
                lemma_map_of_take_step(old_live@, i as int);
            }
            if dset.contains(k) {
                live.insert(k, e);
            } else {
                retiring.insert(k, e);
            }
            i = i + 1;
        }
        proof {
            lemma_take_full(old_live@);
        }

        // Only the still desired keys keep building.
        let mut pending = KeySet::new();
        let old_pending = self.pending.keys();
        let mut i: usize = 0;
        while i < old_pending.len()
            invariant
                i <= old_pending@.len(),
                old_pending@.to_set() == v.pending,
                dset@ == d,
                pending@ =~= Set::new(
                    |k: NodeKey| old_pending@.take(i as int).contains(k) && d.contains(k),
                ),
            decreases old_pending@.len() - i,
        {
            let k = old_pending[i];
            assert(old_pending@.take(i + 1) =~= old_pending@.take(i as int).push(k));
            proof {
                lemma_push_contains(old_pending@.take(i as int), k);
            }
            if dset.contains(k) {
                pending.insert(k);
            }
            i = i + 1;
        }
        proof {
            lemma_take_full(old_pending@);
        }

        // Every desired key ends up live or building.
        let mut spawn: Vec<NodeKey> = Vec::new();
        let mut j: usize = 0;
        while j < desired.len()
            invariant
                j <= desired@.len(),
                d == desired@.to_set(),
                live@ =~= Map::new(
                    |k: NodeKey|
                        d.contains(k) && (v.live.dom().contains(k) || (desired@.take(
                            j as int,
                        ).contains(k) && !v.pending.contains(k) && v.retiring.dom().contains(k))),
                    |k: NodeKey|
                        if v.live.dom().contains(k) {
                            v.live[k]
                        } else {
                            v.retiring[k]
                        },
                ),
                pending@ =~= Set::new(
                    |k: NodeKey|
                        d.contains(k) && (v.pending.contains(k) || (desired@.take(
                            j as int,
                        ).contains(k) && !v.live.dom().contains(k) && !v.retiring.dom().contains(
                            k,
                        ))),
                ),
                retiring@ =~= Map::new(
                    |k: NodeKey|
                        if d.contains(k) {
                            v.retiring.dom().contains(k) && !(desired@.take(j as int).contains(k)
                                && !v.live.dom().contains(k) && !v.pending.contains(k))
                        } else {
                            v.live.dom().contains(k) || v.retiring.dom().contains(k)
                        },
                    |k: NodeKey|
                        if !d.contains(k) && v.live.dom().contains(k) {
                            v.live[k]
                        } else {
                            v.retiring[k]
                        },
                ),
                spawn@.no_duplicates(),
                spawn@.to_set() =~= Set::new(
                    |k: NodeKey|
                        desired@.take(j as int).contains(k) && !v.live.dom().contains(k)
                            && !v.pending.contains(k) && !v.retiring.dom().contains(k),
                ),
            decreases desired@.len() - j,
        {
            let k = desired[j];
            let ghost before = desired@.take(j as int);
            assert(desired@.take(j + 1) =~= before.push(k));
            proof {
                lemma_push_contains(before, k);
            }
            assert(d.contains(k)) by {
                assert(desired@[j as int] == k);
            }
            if live.contains_key(k) || pending.contains(k) {
            } else {
                match retiring.remove(k) {
                    Some(e) => {
                        live.insert(k, e);
                    },
                    None => {
                        proof {
                            spawn@.lemma_push_to_set_commute(k);
                            if spawn@.contains(k) {
                                assert(spawn@.to_set().contains(k));
                                assert(pending@.contains(k));
                            }
                        }
                        spawn.push(k);
                        pending.insert(k);
                    },
                }
            }
            j = j + 1;
        }
        proof {
            lemma_take_full(desired@);
        }
        assert(live@ =~= reconciled_live(v, d));
        assert(pending@ =~= reconciled_pending(v, d));
        assert(retiring@ =~= retiring_candidates(v, d));

        // Retiring chunks go once their replacement is live.
        let mut kept = ChunkMap::new();
        let mut despawn = ChunkMap::new();
        let candidates = retiring.entries();
        let mut i: usize = 0;
        while i < candidates.len()
            invariant
                i <= candidates@.len(),
                keys_distinct(candidates@),
                map_of(candidates@) == retiring_candidates(v, d),
                live@ == reconciled_live(v, d),
                dset@ == d,
                kept@ =~= Map::new(
                    |k: NodeKey|
                        map_of(candidates@.take(i as int)).dom().contains(k)
                            && !replacement_is_live(k, d, live@.dom()),
                    |k: NodeKey| map_of(candidates@.take(i as int))[k],
                ),
                despawn@ =~= Map::new(
                    |k: NodeKey|
                        map_of(candidates@.take(i as int)).dom().contains(k) && replacement_is_live(
                            k,
                            d,
                            live@.dom(),
                        ),
                    |k: NodeKey| map_of(candidates@.take(i as int))[k],
                ),
            decreases candidates@.len() - i,
        {
            let (k, e) = candidates[i];
            proof {
                lemma_map_of_take_step(candidates@, i as int);
                lemma_map_of_at(candidates@, i as int);
            }
            if Self::replacement_ready(k, &dset, &live) {
                despawn.insert(k, e);
            } else {
                kept.insert(k, e);
            }
            i = i + 1;
        }
        proof {
            lemma_take_full(candidates@);
        }
        self.live = live;
        self.pending = pending;
        self.retiring = kept;
        self.split = KeySet::from_vec(newly_split);
        ChunkActions { spawn, despawn }
    }

    /// Re-evaluates the quadtree of all six faces with `probe` (which
    /// measures each node against the reference point) and brings the
    /// registry in line with the result; returns the chunks to spawn and to
    /// despawn.
    pub fn update_terrain<F: Fn(NodeKey) -> LodProbe>(
        &mut self,
        level_of_detail: u8,
        probe: &F,
    ) -> (actions: ChunkActions)
        requires
            level_of_detail <= 32,
            forall|k: NodeKey| call_requires(*probe, (k,)),
        ensures
            exists|desired: Seq<NodeKey>, newly_split: Seq<NodeKey>|
                {
                    &&& #[trigger] faces_walk_result(
                        *probe,
                        level_of_detail,
                        old(self)@.split,
                        6,
                        desired,
                        newly_split,
                    )
                    &&& final(self)@.live == reconciled_live(old(self)@, desired.to_set())
                    &&& final(self)@.pending == reconciled_pending(old(self)@, desired.to_set())
                    &&& final(self)@.retiring == reconciled_retiring(
                        old(self)@,
                        desired.to_set(),
                    )
                    &&& final(self)@.split == newly_split.to_set()
                    &&& actions.spawn@.to_set() == chunks_to_spawn(old(self)@, desired.to_set())
                    &&& actions.despawn@ == despawned_chunks(old(self)@, desired.to_set())
                },
            actions.spawn@.no_duplicates(),
    {
        let (desired, newly_split) = collect_desired_all_faces(level_of_detail, &self.split, probe);
        let actions = self.reconcile(&desired, &newly_split);
        assert(faces_walk_result(
            *probe,
            level_of_detail,
            old(self)@.split,
            6,
            desired@,
            newly_split@,
        ));
        actions
    }

    /// Re-walks the quadtree for the aircraft's new reference point, unless
    /// the point has moved less than the minimum distance (250 m) since the
    /// last walk and no update is forced; returns the chunk actions of a walk,
    /// or `None` when the walk was skipped.
    pub fn update_terrain_for_aircraft<F: Fn(NodeKey) -> LodProbe>(
        &mut self,
        level_of_detail: u8,
        probe: &F,
        has_last_position: bool,
        moved_less_than_minimum: bool,
        override_update: bool,
    ) -> (r: Option<ChunkActions>)
        requires
            level_of_detail <= 32,
            forall|k: NodeKey| call_requires(*probe, (k,)),
        ensures
            r is None <==> (has_last_position && moved_less_than_minimum && !override_update),
            r is None ==> final(self)@ == old(self)@,
            r matches Some(actions) ==> {
                &&& actions.spawn@.no_duplicates()
                &&& exists|desired: Seq<NodeKey>, newly_split: Seq<NodeKey>|
                    {
                        &&& #[trigger] faces_walk_result(
                            *probe,
                            level_of_detail,
                            old(self)@.split,
                            6,
                            desired,
                            newly_split,
                        )
                        &&& final(self)@.live == reconciled_live(old(self)@, desired.to_set())
                        &&& final(self)@.pending == reconciled_pending(
                            old(self)@,
                            desired.to_set(),
                        )
                        &&& final(self)@.retiring == reconciled_retiring(
                            old(self)@,
                            desired.to_set(),
                        )
                        &&& final(self)@.split == newly_split.to_set()
                        &&& actions.spawn@.to_set() == chunks_to_spawn(
                            old(self)@,
                            desired.to_set(),
                        )
                        &&& actions.despawn@ == despawned_chunks(old(self)@, desired.to_set())
                    }
            },
    {
        if has_last_position && moved_less_than_minimum && !override_update {
            return None;
        }
        Some(self.update_terrain(level_of_detail, probe))
    }
}

} // verus!
