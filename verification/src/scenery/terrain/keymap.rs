use vstd::prelude::*;

use std::collections::{HashMap, HashSet};

use vstd::arithmetic::div_mod::lemma_fundamental_div_mod_converse;
use vstd::std_specs::hash::{spec_hash_keys_iter, spec_hash_map_iter};
use vstd::std_specs::iter::IteratorSpec;

use super::lod::face_index;
use super::quadtree::{CubeFace, NodeKey};

verus! {

/// No key occurs twice in an association list.
pub open spec fn keys_distinct(s: Seq<(NodeKey, u64)>) -> bool {
    forall|i: int, j: int|
        0 <= i < s.len() && 0 <= j < s.len() && i != j ==> #[trigger] s[i].0 != #[trigger] s[j].0
}

/// Some entry of the association list has key `k`.
pub open spec fn has_key(s: Seq<(NodeKey, u64)>, k: NodeKey) -> bool {
    exists|i: int| 0 <= i < s.len() && #[trigger] s[i].0 == k
}

/// The map an association list stands for.
pub open spec fn map_of(s: Seq<(NodeKey, u64)>) -> Map<NodeKey, u64> {
    Map::new(
        |k: NodeKey| has_key(s, k),
        |k: NodeKey| s[choose|i: int| 0 <= i < s.len() && #[trigger] s[i].0 == k].1,
    )
}

/// The entry at `i` of an association list without repeated keys is what
/// its map holds under that key.
pub proof fn lemma_map_of_at(s: Seq<(NodeKey, u64)>, i: int)
    requires
        keys_distinct(s),
        0 <= i < s.len(),
    ensures
        map_of(s).dom().contains(s[i].0),
        map_of(s)[s[i].0] == s[i].1,
{
    let k = s[i].0;
    assert(has_key(s, k));
    let j = choose|j: int| 0 <= j < s.len() && #[trigger] s[j].0 == k;
    assert(s[j].0 == s[i].0);
}

/// Appending an entry under a new key inserts it into the map.
pub proof fn lemma_map_of_push(s: Seq<(NodeKey, u64)>, k: NodeKey, e: u64)
    requires
        keys_distinct(s),
        !has_key(s, k),
    ensures
        keys_distinct(s.push((k, e))),
        map_of(s.push((k, e))) == map_of(s).insert(k, e),
{
    let t = s.push((k, e));
    assert forall|i: int, j: int|
        0 <= i < t.len() && 0 <= j < t.len() && i != j implies #[trigger] t[i].0
        != #[trigger] t[j].0 by {
        if i < s.len() && j < s.len() {
            assert(t[i] == s[i] && t[j] == s[j]);
        } else if i < s.len() {
            assert(t[i] == s[i]);
        } else {
            assert(t[j] == s[j]);
        }
    }
    assert forall|kk: NodeKey| #[trigger]
        map_of(t).dom().contains(kk) == map_of(s).insert(k, e).dom().contains(kk) by {
        if has_key(s, kk) {
            let i = choose|i: int| 0 <= i < s.len() && #[trigger] s[i].0 == kk;
            assert(t[i] == s[i]);
        }
        if kk == k {
            assert(t[s.len() as int].0 == k);
        }
        if has_key(t, kk) && kk != k {
            let i = choose|i: int| 0 <= i < t.len() && #[trigger] t[i].0 == kk;
            assert(i < s.len());
            assert(t[i] == s[i]);
        }
    }
    assert forall|kk: NodeKey| #[trigger] map_of(t).dom().contains(kk) implies map_of(t)[kk]
        == map_of(s).insert(k, e)[kk] by {
        if kk == k {
            lemma_map_of_at(t, s.len() as int);
        } else {
            let i = choose|i: int| 0 <= i < t.len() && #[trigger] t[i].0 == kk;
            assert(i < s.len());
            assert(t[i] == s[i]);
            lemma_map_of_at(t, i);
            lemma_map_of_at(s, i);
        }
    }
    assert(map_of(t) =~= map_of(s).insert(k, e));
}

/// Walking an association list one entry at a time: the prefix before entry
/// `i` does not hold its key, and adding entry `i` inserts it into the map.
pub proof fn lemma_map_of_take_step(s: Seq<(NodeKey, u64)>, i: int)
    requires
        keys_distinct(s),
        0 <= i < s.len(),
    ensures
        keys_distinct(s.take(i)),
        !has_key(s.take(i), s[i].0),
        s.take(i + 1) == s.take(i).push(s[i]),
        map_of(s.take(i + 1)) == map_of(s.take(i)).insert(s[i].0, s[i].1),
{
    let p = s.take(i);
    assert forall|a: int, b: int|
        0 <= a < p.len() && 0 <= b < p.len() && a != b implies #[trigger] p[a].0
        != #[trigger] p[b].0 by {
        assert(p[a] == s[a] && p[b] == s[b]);
    }
    if has_key(p, s[i].0) {
        let a = choose|a: int| 0 <= a < p.len() && #[trigger] p[a].0 == s[i].0;
        assert(p[a] == s[a]);
    }
    assert(s.take(i + 1) =~= p.push(s[i]));
    lemma_map_of_push(p, s[i].0, s[i].1);
}

/// Membership in a sequence grown by one element.
pub proof fn lemma_push_contains<A>(s: Seq<A>, a: A)
    ensures
        forall|x: A| #[trigger] s.push(a).contains(x) == (s.contains(x) || x == a),
{
    assert forall|x: A| #[trigger] s.push(a).contains(x) == (s.contains(x) || x == a) by {
        if s.contains(x) {
            let i = choose|i: int| 0 <= i < s.len() && s[i] == x;
            assert(s.push(a)[i] == x);
        }
        if x == a {
            assert(s.push(a)[s.len() as int] == x);
        }
        if s.push(a).contains(x) && x != a {
            let i = choose|i: int| 0 <= i < s.len() + 1 && s.push(a)[i] == x;
            assert(i < s.len());
            assert(s[i] == x);
        }
    }
}

/// The whole list is its longest prefix.
pub proof fn lemma_take_full<A>(s: Seq<A>)
    ensures
        s.take(s.len() as int) == s,
{
    assert(s.take(s.len() as int) =~= s);
}

/// The integer a key is stored under: its face, level, x and y side by side
/// (face in the bits from 72 up, level in bits 64..72, x in 32..64, y in 0..32).
pub open spec fn key_code(k: NodeKey) -> int {
    face_index(k.face) * 0x1_0000_0000_0000_0000_00 + k.level * 0x1_0000_0000_0000_0000 + k.x
        * 0x1_0000_0000 + k.y
}

/// `c` is the code of some key.
pub open spec fn is_key_code(c: u128) -> bool {
    exists|k: NodeKey| #[trigger] key_code(k) == c
}

/// The fields of a key can be read back from its code.
proof fn lemma_key_code_fields(k: NodeKey)
    ensures
        0 <= key_code(k) < 6 * 0x1_0000_0000_0000_0000_00,
        key_code(k) / 0x1_0000_0000_0000_0000_00 == face_index(k.face),
        (key_code(k) % 0x1_0000_0000_0000_0000_00) / 0x1_0000_0000_0000_0000 == k.level,
        (key_code(k) % 0x1_0000_0000_0000_0000) / 0x1_0000_0000 == k.x,
        key_code(k) % 0x1_0000_0000 == k.y,
{
    let c = key_code(k);
    let low72 = k.level * 0x1_0000_0000_0000_0000 + k.x * 0x1_0000_0000 + k.y;
    let low64 = k.x * 0x1_0000_0000 + k.y;
    assert(0 <= face_index(k.face) < 6);
    lemma_fundamental_div_mod_converse(c, 0x1_0000_0000_0000_0000_00, face_index(k.face), low72);
    lemma_fundamental_div_mod_converse(
        low72,
        0x1_0000_0000_0000_0000,
        k.level as int,
        low64,
    );
    lemma_fundamental_div_mod_converse(
        c,
        0x1_0000_0000_0000_0000,
        face_index(k.face) * 0x100 + k.level,
        low64,
    );
    lemma_fundamental_div_mod_converse(low64, 0x1_0000_0000, k.x as int, k.y as int);
    lemma_fundamental_div_mod_converse(
        c,
        0x1_0000_0000,
        (face_index(k.face) * 0x100 + k.level) * 0x1_0000_0000 + k.x,
        k.y as int,
    );
}

/// Different keys have different codes.
pub proof fn lemma_key_code_injective()
    ensures
        forall|a: NodeKey, b: NodeKey| #[trigger] key_code(a) == #[trigger] key_code(b) ==> a == b,
{
    assert forall|a: NodeKey, b: NodeKey| #[trigger] key_code(a) == #[trigger] key_code(b) implies a
        == b by {
        lemma_key_code_fields(a);
        lemma_key_code_fields(b);
        assert(face_index(a.face) == face_index(b.face));
        assert(a.face == b.face);
    }
}

/// The code of `k`.
fn code_of(k: NodeKey) -> (c: u128)
    ensures
        c == key_code(k),
{
    let face: u128 = match k.face {
        CubeFace::PosX => 0,
        CubeFace::NegX => 1,
        CubeFace::PosY => 2,
        CubeFace::NegY => 3,
        CubeFace::PosZ => 4,
        CubeFace::NegZ => 5,
    };
    face * 0x1_0000_0000_0000_0000_00 + (k.level as u128) * 0x1_0000_0000_0000_0000 + (k.x as u128)
        * 0x1_0000_0000 + (k.y as u128)
}

/// The key whose code is `c`.
fn key_of(c: u128) -> (k: NodeKey)
    requires
        is_key_code(c),
    ensures
        key_code(k) == c,
{
    let ghost k0 = choose|k: NodeKey| #[trigger] key_code(k) == c;
    proof {
        lemma_key_code_fields(k0);
    }
    let f = c / 0x1_0000_0000_0000_0000_00;
    let level = ((c % 0x1_0000_0000_0000_0000_00) / 0x1_0000_0000_0000_0000) as u8;
    let x = ((c % 0x1_0000_0000_0000_0000) / 0x1_0000_0000) as u32;
    let y = (c % 0x1_0000_0000) as u32;
    let face = if f == 0 {
        CubeFace::PosX
    } else if f == 1 {
        CubeFace::NegX
    } else if f == 2 {
        CubeFace::PosY
    } else if f == 3 {
        CubeFace::NegY
    } else if f == 4 {
        CubeFace::PosZ
    } else {
        CubeFace::NegZ
    };
    let k = NodeKey { face, level, x, y };
    assert(k == k0);
    k
}

/// A finite map from quadtree keys to spawned chunk entities (entities are
/// carried as the integer bits of the engine's entity handle), hashed by the
/// keys' codes.
pub struct ChunkMap {
    map: HashMap<u128, u64>,
}

impl ChunkMap {
    #[verifier::type_invariant]
    spec fn inv(self) -> bool {
        forall|c: u128| #[trigger] self.map@.contains_key(c) ==> is_key_code(c)
    }

    /// The map's contents.
    pub closed spec fn view(&self) -> Map<NodeKey, u64> {
        Map::new(|k: NodeKey| self.map@.contains_key(key_code(k) as u128), |k: NodeKey| self.map@[key_code(k) as u128])
    }

    /// An empty map.
    pub fn new() -> (m: ChunkMap)
        ensures
            m@ == Map::<NodeKey, u64>::empty(),
    {
        let m = ChunkMap { map: HashMap::new() };
        assert(m@ =~= Map::<NodeKey, u64>::empty());
        m
    }

    /// The entries, each key once, in no particular order.
    pub fn entries(&self) -> (r: Vec<(NodeKey, u64)>)
        ensures
            keys_distinct(r@),
            map_of(r@) == self@,
    {
        broadcast use vstd::std_specs::hash::group_hash_axioms;

        proof {
            use_type_invariant(self);
            lemma_key_code_injective();
        }
        let ghost v = spec_hash_map_iter(&self.map).remaining();
        let mut pairs: Vec<(u128, u64)> = Vec::new();
        for p in it: self.map.iter()
            invariant
                pairs@ == it.seq().take(it.index() as int).map_values(
                    |q: (&u128, &u64)| (*q.0, *q.1),
                ),
                it.seq() == v,
                v == spec_hash_map_iter(&self.map).remaining(),
        {
            pairs.push((*p.0, *p.1));
        }
        assert(pairs@ =~= v.map_values(|q: (&u128, &u64)| (*q.0, *q.1)));
        let mut out: Vec<(NodeKey, u64)> = Vec::new();
        let mut i: usize = 0;
        while i < pairs.len()
            invariant
                i <= pairs@.len(),
                pairs@ == v.map_values(|q: (&u128, &u64)| (*q.0, *q.1)),
                v == spec_hash_map_iter(&self.map).remaining(),
                out@.len() == i,
                forall|j: int|
                    0 <= j < i ==> key_code(#[trigger] out@[j].0) == *v[j].0 && out@[j].1
                        == *v[j].1,
                forall|c: u128| #[trigger] self.map@.contains_key(c) ==> is_key_code(c),
            decreases pairs@.len() - i,
        {
            let (c, e) = pairs[i];
            assert(self.map@.contains_key(*v[i as int].0));
            let k = key_of(c);
            out.push((k, e));
            i = i + 1;
        }
        proof {
            lemma_entries_of(self.map@, v, out@);
        }
        out
    }

    /// Whether `k` has an entry.
    pub fn contains_key(&self, k: NodeKey) -> (b: bool)
        ensures
            b == self@.dom().contains(k),
    {
        broadcast use vstd::std_specs::hash::group_hash_axioms;

        let c = code_of(k);
        self.map.contains_key(&c)
    }

    /// The entity stored under `k`, if any.
    pub fn get(&self, k: NodeKey) -> (r: Option<u64>)
        ensures
            r == (if self@.dom().contains(k) {
                Some(self@[k])
            } else {
                None::<u64>
            }),
    {
        broadcast use vstd::std_specs::hash::group_hash_axioms;

        let c = code_of(k);
        match self.map.get(&c) {
            Some(e) => Some(*e),
            None => None,
        }
    }

    /// Stores `e` under `k`, replacing what was there.
    pub fn insert(&mut self, k: NodeKey, e: u64)
        ensures
            final(self)@ == old(self)@.insert(k, e),
    {
        broadcast use vstd::std_specs::hash::group_hash_axioms;

        proof {
            use_type_invariant(&*self);
            lemma_key_code_injective();
        }
        let c = code_of(k);
        let mut map = HashMap::new();
        std::mem::swap(&mut map, &mut self.map);
        map.insert(c, e);
        self.map = map;
        assert(self@ =~= old(self)@.insert(k, e));
    }

    /// Removes the entry under `k`, returning its entity.
    pub fn remove(&mut self, k: NodeKey) -> (r: Option<u64>)
        ensures
            final(self)@ == old(self)@.remove(k),
            r == (if old(self)@.dom().contains(k) {
                Some(old(self)@[k])
            } else {
                None::<u64>
            }),
    {
        broadcast use vstd::std_specs::hash::group_hash_axioms;

        proof {
            use_type_invariant(&*self);
            lemma_key_code_injective();
        }
        let c = code_of(k);
        let mut map = HashMap::new();
        std::mem::swap(&mut map, &mut self.map);
        let r = map.remove(&c);
        self.map = map;
        assert(self@ =~= old(self)@.remove(k));
        r
    }
}

/// The entries read off a hash map of codes, in its iteration order, form an
/// association list for the map of keys it stands for.
proof fn lemma_entries_of(
    m: Map<u128, u64>,
    v: Seq<(&u128, &u64)>,
    out: Seq<(NodeKey, u64)>,
)
    requires
        v.len() == out.len(),
        v.no_duplicates(),
        forall|i: int| 0 <= i < v.len() ==> m.contains_key(*v[i].0) && m[*v[i].0] == *v[i].1,
        forall|c: u128| #[trigger] m.contains_key(c) ==> v.contains((&c, &m[c])),
        forall|j: int|
            0 <= j < out.len() ==> key_code(#[trigger] out[j].0) == *v[j].0 && out[j].1 == *v[j].1,
        forall|a: NodeKey, b: NodeKey| #[trigger] key_code(a) == #[trigger] key_code(b) ==> a == b,
    ensures
        keys_distinct(out),
        map_of(out) == Map::new(
            |k: NodeKey| m.contains_key(key_code(k) as u128),
            |k: NodeKey| m[key_code(k) as u128],
        ),
{
    assert forall|i: int, j: int|
        0 <= i < out.len() && 0 <= j < out.len() && i != j implies #[trigger] out[i].0
        != #[trigger] out[j].0 by {
        if out[i].0 == out[j].0 {
            assert(*v[i].0 == *v[j].0);
            assert(v[i] == v[j]);
        }
    }
    let target = Map::new(
        |k: NodeKey| m.contains_key(key_code(k) as u128),
        |k: NodeKey| m[key_code(k) as u128],
    );
    assert forall|k: NodeKey| #[trigger] map_of(out).dom().contains(k) == target.dom().contains(k) by {
        if has_key(out, k) {
            let i = choose|i: int| 0 <= i < out.len() && #[trigger] out[i].0 == k;
            assert(key_code(out[i].0) == *v[i].0);
        }
        if target.dom().contains(k) {
            let c = key_code(k) as u128;
            assert(m.contains_key(c));
            assert(v.contains((&c, &m[c])));
            let i = choose|i: int| 0 <= i < v.len() && v[i] == (&c, &m[c]);
            assert(key_code(out[i].0) == c);
            assert(out[i].0 == k);
        }
    }
    assert forall|k: NodeKey| #[trigger] map_of(out).dom().contains(k) implies map_of(out)[k]
        == target[k] by {
        let i = choose|i: int| 0 <= i < out.len() && #[trigger] out[i].0 == k;
        lemma_map_of_at(out, i);
        assert(key_code(out[i].0) == *v[i].0);
    }
    assert(map_of(out) =~= target);
}

/// A finite set of quadtree keys, hashed by the keys' codes.
pub struct KeySet {
    set: HashSet<u128>,
}

impl KeySet {
    #[verifier::type_invariant]
    spec fn inv(self) -> bool {
        forall|c: u128| #[trigger] self.set@.contains(c) ==> is_key_code(c)
    }

    /// The set's contents.
    pub closed spec fn view(&self) -> Set<NodeKey> {
        Set::new(|k: NodeKey| self.set@.contains(key_code(k) as u128))
    }

    /// An empty set.
    pub fn new() -> (s: KeySet)
        ensures
            s@ == Set::<NodeKey>::empty(),
    {
        let s = KeySet { set: HashSet::new() };
        assert(s@ =~= Set::<NodeKey>::empty());
        s
    }

    /// The members, each once, in no particular order.
    pub fn keys(&self) -> (r: Vec<NodeKey>)
        ensures
            r@.no_duplicates(),
            r@.to_set() == self@,
    {
        broadcast use vstd::std_specs::hash::group_hash_axioms;

        proof {
            use_type_invariant(self);
            lemma_key_code_injective();
        }
        let ghost v = spec_hash_keys_iter(&self.set).remaining();
        let mut out: Vec<NodeKey> = Vec::new();
        for c in it: self.set.iter()
            invariant
                it.seq() == v,
                it.index() <= v.len(),
                v == spec_hash_keys_iter(&self.set).remaining(),
                out@.len() == it.index(),
                forall|j: int| 0 <= j < out@.len() ==> key_code(#[trigger] out@[j]) == *v[j],
                forall|c: u128| #[trigger] self.set@.contains(c) ==> is_key_code(c),
        {
            assert(v.unref().to_set().contains(*v[it.index() as int]));
            let k = key_of(*c);
            out.push(k);
        }
        proof {
            lemma_keys_of(self.set@, v, out@);
        }
        out
    }

    /// Whether `k` is a member.
    pub fn contains(&self, k: NodeKey) -> (b: bool)
        ensures
            b == self@.contains(k),
    {
        broadcast use vstd::std_specs::hash::group_hash_axioms;

        let c = code_of(k);
        self.set.contains(&c)
    }

    /// Adds `k`.
    pub fn insert(&mut self, k: NodeKey)
        ensures
            final(self)@ == old(self)@.insert(k),
    {
        broadcast use vstd::std_specs::hash::group_hash_axioms;

        proof {
            use_type_invariant(&*self);
            lemma_key_code_injective();
        }
        let c = code_of(k);
        let mut set = HashSet::new();
        std::mem::swap(&mut set, &mut self.set);
        set.insert(c);
        self.set = set;
        assert(self@ =~= old(self)@.insert(k));
    }

    /// Removes `k`.
    pub fn remove(&mut self, k: NodeKey)
        ensures
            final(self)@ == old(self)@.remove(k),
    {
        broadcast use vstd::std_specs::hash::group_hash_axioms;

        proof {
            use_type_invariant(&*self);
            lemma_key_code_injective();
        }
        let c = code_of(k);
        let mut set = HashSet::new();
        std::mem::swap(&mut set, &mut self.set);
        set.remove(&c);
        self.set = set;
        assert(self@ =~= old(self)@.remove(k));
    }

    /// The set of the keys in `v`.
    pub fn from_vec(v: &Vec<NodeKey>) -> (s: KeySet)
        ensures
            s@ == v@.to_set(),
    {
        let mut s = KeySet::new();
        let mut i: usize = 0;
        while i < v.len()
            invariant
                i <= v@.len(),
                s@ == v@.take(i as int).to_set(),
            decreases v@.len() - i,
        {
            s.insert(v[i]);
            assert(v@.take(i + 1) =~= v@.take(i as int).push(v@[i as int]));
            proof {
                v@.take(i as int).lemma_push_to_set_commute(v@[i as int]);
            }
            i = i + 1;
        }
        assert(v@.take(v@.len() as int) =~= v@);
        s
    }
}

/// The keys read off a hash set of codes, in its iteration order, are each
/// once the keys it stands for.
proof fn lemma_keys_of(m: Set<u128>, v: Seq<&u128>, out: Seq<NodeKey>)
    requires
        v.len() == out.len(),
        v.no_duplicates(),
        v.unref().to_set() == m,
        forall|j: int| 0 <= j < out.len() ==> key_code(#[trigger] out[j]) == *v[j],
        forall|a: NodeKey, b: NodeKey| #[trigger] key_code(a) == #[trigger] key_code(b) ==> a == b,
    ensures
        out.no_duplicates(),
        out.to_set() == Set::new(|k: NodeKey| m.contains(key_code(k) as u128)),
{
    assert forall|i: int, j: int| 0 <= i < out.len() && 0 <= j < out.len() && i != j implies out[i]
        != out[j] by {
        if out[i] == out[j] {
            assert(key_code(out[i]) == *v[i]);
            assert(key_code(out[j]) == *v[j]);
            assert(v[i] == v[j]);
        }
    }
    assert forall|k: NodeKey| #[trigger] out.to_set().contains(k) == m.contains(key_code(k) as u128) by {
        if out.contains(k) {
            let i = choose|i: int| 0 <= i < out.len() && out[i] == k;
            assert(key_code(out[i]) == *v[i]);
            assert(v.unref()[i] == *v[i]);
            assert(v.unref().contains(*v[i]));
        }
        if m.contains(key_code(k) as u128) {
            let c = key_code(k) as u128;
            assert(v.unref().contains(c));
            let i = choose|i: int| 0 <= i < v.unref().len() && v.unref()[i] == c;
            assert(v.unref()[i] == *v[i]);
            assert(key_code(out[i]) == c);
        }
    }
    assert(out.to_set() =~= Set::new(|k: NodeKey| m.contains(key_code(k) as u128)));
}

} // verus!
