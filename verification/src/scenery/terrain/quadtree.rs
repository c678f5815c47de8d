use vstd::prelude::*;

verus! {

/// One of the six faces of the cube that is warped into the planet sphere.
#[derive(Clone, Copy, Debug, PartialEq, Eq, Hash, Structural)]
pub enum CubeFace {
    PosX,
    NegX,
    PosY,
    NegY,
    PosZ,
    NegZ,
}

/// Outward unit normal of a face, as an integer axis vector.
pub open spec fn face_normal(face: CubeFace) -> (int, int, int) {
    match face {
        CubeFace::PosX => (1, 0, 0),
        CubeFace::NegX => (-1, 0, 0),
        CubeFace::PosY => (0, 1, 0),
        CubeFace::NegY => (0, -1, 0),
        CubeFace::PosZ => (0, 0, 1),
        CubeFace::NegZ => (0, 0, -1),
    }
}

impl CubeFace {
    /// All six faces, in the order the terrain walk visits them.
    pub fn all() -> (faces: [CubeFace; 6])
        ensures
            faces@ == seq![
                CubeFace::PosX,
                CubeFace::NegX,
                CubeFace::PosY,
                CubeFace::NegY,
                CubeFace::PosZ,
                CubeFace::NegZ,
            ],
    {
        [CubeFace::PosX, CubeFace::NegX, CubeFace::PosY, CubeFace::NegY, CubeFace::PosZ, CubeFace::NegZ]
    }

    /// Outward unit normal of this face (x, y, z), each component -1, 0 or 1.
    pub fn normal(self) -> (n: (i8, i8, i8))
        ensures
            (n.0 as int, n.1 as int, n.2 as int) == face_normal(self),
    {
        match self {
            CubeFace::PosX => (1, 0, 0),
            CubeFace::NegX => (-1, 0, 0),
            CubeFace::PosY => (0, 1, 0),
            CubeFace::NegY => (0, -1, 0),
            CubeFace::PosZ => (0, 0, 1),
            CubeFace::NegZ => (0, 0, -1),
        }
    }
}

/// Uniquely identifies one quadtree node (leaf or not) across all six faces.
#[derive(Clone, Copy, Debug, PartialEq, Eq, Hash, Structural)]
pub struct NodeKey {
    pub face: CubeFace,
    pub level: u8,
    pub x: u32,
    pub y: u32,
}

/// The parent of a key: one level up, same face, coordinates halved.
pub open spec fn parent_of(k: NodeKey) -> Option<NodeKey> {
    if k.level == 0 {
        None
    } else {
        Some(NodeKey { face: k.face, level: (k.level - 1) as u8, x: k.x / 2, y: k.y / 2 })
    }
}

/// The `i`-th child of a key (0: (2x, 2y), 1: (2x+1, 2y), 2: (2x, 2y+1), 3: (2x+1, 2y+1)).
pub open spec fn child_of(k: NodeKey, i: int) -> NodeKey {
    NodeKey {
        face: k.face,
        level: (k.level + 1) as u8,
        x: (2 * k.x + i % 2) as u32,
        y: (2 * k.y + i / 2) as u32,
    }
}

/// A key whose children can be formed without overflowing its fields.
pub open spec fn can_split(k: NodeKey) -> bool {
    k.level < 255 && k.x < 0x8000_0000 && k.y < 0x8000_0000
}

/// Number of nodes along one edge of a face at `level`: `2^level`.
pub open spec fn grid_size(level: nat) -> nat
    decreases level,
{
    if level == 0 {
        1
    } else {
        2 * grid_size((level - 1) as nat)
    }
}

/// `k` lies on the node grid of its level: both coordinates below `2^level`.
pub open spec fn on_grid(k: NodeKey) -> bool {
    k.x < grid_size(k.level as nat) && k.y < grid_size(k.level as nat)
}

/// The ancestor of `k` at `level` (`k` itself when `level` is not above it).
pub open spec fn ancestor_at(k: NodeKey, level: int) -> NodeKey
    decreases k.level,
{
    if k.level <= level || k.level == 0 {
        k
    } else {
        ancestor_at(parent_of(k).unwrap(), level)
    }
}

/// `k` lies in the subtree rooted at `a` (`a` included).
pub open spec fn descends(k: NodeKey, a: NodeKey) -> bool {
    k.level >= a.level && ancestor_at(k, a.level as int) == a
}

impl NodeKey {
    /// The node one level up that contains this one, or `None` at a face root.
    pub fn parent(self) -> (p: Option<NodeKey>)
        ensures
            p == parent_of(self),
    {
        if self.level == 0 {
            None
        } else {
            Some(NodeKey { face: self.face, level: self.level - 1, x: self.x / 2, y: self.y / 2 })
        }
    }

    /// Whether this key lies in the subtree rooted at `a` (`a` included).
    pub fn lies_under(self, a: NodeKey) -> (b: bool)
        ensures
            b == descends(self, a),
    {
        if self.level < a.level {
            return false;
        }
        let mut cur = self;
        while cur.level > a.level
            invariant
                cur.level >= a.level,
                self.level >= a.level,
                ancestor_at(self, a.level as int) == ancestor_at(cur, a.level as int),
            decreases cur.level,
        {
            cur = NodeKey { face: cur.face, level: cur.level - 1, x: cur.x / 2, y: cur.y / 2 };
        }
        cur == a
    }

    /// The four nodes one level down that tile this one.
    pub fn children(self) -> (c: [NodeKey; 4])
        requires
            can_split(self),
        ensures
            c@ == seq![child_of(self, 0), child_of(self, 1), child_of(self, 2), child_of(self, 3)],
    {
        let level = self.level + 1;
        let x = self.x * 2;
        let y = self.y * 2;
        [
            NodeKey { face: self.face, level, x, y },
            NodeKey { face: self.face, level, x: x + 1, y },
            NodeKey { face: self.face, level, x, y: y + 1 },
            NodeKey { face: self.face, level, x: x + 1, y: y + 1 },
        ]
    }
}

/// A node position inside one face's quadtree.
#[derive(Clone, Copy, Debug, PartialEq, Eq, Structural)]
pub struct QuadtreeNode {
    pub level: u8,
    pub x: u32,
    pub y: u32,
}

impl QuadtreeNode {
    /// The single node covering a whole face.
    pub fn root() -> (r: QuadtreeNode)
        ensures
            r == (QuadtreeNode { level: 0, x: 0, y: 0 }),
    {
        QuadtreeNode { level: 0, x: 0, y: 0 }
    }

    /// The key of this node on `face`.
    pub open spec fn key_on(self, face: CubeFace) -> NodeKey {
        NodeKey { face, level: self.level, x: self.x, y: self.y }
    }

    /// The `i`-th child, in the same order as `child_of`.
    pub open spec fn child(self, i: int) -> QuadtreeNode {
        QuadtreeNode {
            level: (self.level + 1) as u8,
            x: (2 * self.x + i % 2) as u32,
            y: (2 * self.y + i / 2) as u32,
        }
    }

    /// The four nodes one level down, in the same order as `NodeKey::children`.
    pub fn children(self) -> (c: [QuadtreeNode; 4])
        requires
            self.level < 255,
            self.x < 0x8000_0000,
            self.y < 0x8000_0000,
        ensures
            c@ == seq![self.child(0), self.child(1), self.child(2), self.child(3)],
            forall|f: CubeFace, i: int|
                0 <= i < 4 ==> #[trigger] self.child(i).key_on(f) == child_of(self.key_on(f), i),
    {
        let level = self.level + 1;
        let x = self.x * 2;
        let y = self.y * 2;
        [
            QuadtreeNode { level, x, y },
            QuadtreeNode { level, x: x + 1, y },
            QuadtreeNode { level, x, y: y + 1 },
            QuadtreeNode { level, x: x + 1, y: y + 1 },
        ]
    }
}

/// `grid_size` grows with the level, and stays within `2^31` up to level 31.
pub proof fn lemma_grid_size_bounds(l1: nat, l2: nat)
    requires
        l1 <= l2,
    ensures
        1 <= grid_size(l1) <= grid_size(l2),
        l2 <= 31 ==> grid_size(l2) <= 0x8000_0000,
    decreases l2,
{
    if l2 > l1 {
        lemma_grid_size_bounds(l1, (l2 - 1) as nat);
    } else if l1 > 0 {
        lemma_grid_size_bounds((l1 - 1) as nat, (l1 - 1) as nat);
    }
    if l2 <= 31 {
        lemma_grid_size_31(l2);
    }
}

proof fn lemma_grid_size_31(l: nat)
    requires
        l <= 31,
    ensures
        grid_size(l) <= 0x8000_0000,
    decreases 31 - l,
{
    if l < 31 {
        lemma_grid_size_31(l + 1);
        assert(grid_size(l + 1) == 2 * grid_size(l));
    } else {
        reveal_with_fuel(grid_size, 32);
        assert(grid_size(31) == 0x8000_0000);
    }
}

/// Children of an on-grid key are on the grid one level down.
pub proof fn lemma_child_on_grid(k: NodeKey, i: int)
    requires
        can_split(k),
        on_grid(k),
        0 <= i < 4,
    ensures
        on_grid(child_of(k, i)),
{
    assert(grid_size((k.level + 1) as nat) == 2 * grid_size(k.level as nat));
}

/// `ancestor_at` walks up level by level and keeps the face.
pub proof fn lemma_ancestor_at(k: NodeKey, l: int)
    requires
        0 <= l <= k.level,
    ensures
        ancestor_at(k, l).level == l,
        ancestor_at(k, l).face == k.face,
        ancestor_at(k, k.level as int) == k,
        l < k.level ==> ancestor_at(k, l) == parent_of(ancestor_at(k, l + 1)).unwrap(),
    decreases k.level,
{
    if k.level > l {
        let p = parent_of(k).unwrap();
        lemma_ancestor_at(p, l);
        if l + 1 < k.level {
            assert(ancestor_at(k, l + 1) == ancestor_at(p, l + 1));
        } else {
            assert(ancestor_at(k, l + 1) == k);
            assert(ancestor_at(p, l) == p);
        }
    }
}

/// Whatever lies under a child lies under its parent.
pub proof fn lemma_descends_from_child(k: NodeKey, a: NodeKey, i: int)
    requires
        can_split(a),
        0 <= i < 4,
        descends(k, child_of(a, i)),
    ensures
        descends(k, a),
        k.level > a.level,
{
    lemma_ancestor_at(k, a.level as int);
    lemma_parent_of_child(a, i);
}

/// Every child of a splittable key has that key as its parent.
pub proof fn lemma_parent_of_child(k: NodeKey, i: int)
    requires
        can_split(k),
        0 <= i < 4,
    ensures
        parent_of(child_of(k, i)) == Some(k),
        child_of(k, i).level == k.level + 1,
        child_of(k, i).face == k.face,
{
}

/// The four children of a splittable key are pairwise distinct.
pub proof fn lemma_children_distinct(k: NodeKey, i: int, j: int)
    requires
        can_split(k),
        0 <= i < 4,
        0 <= j < 4,
        i != j,
    ensures
        child_of(k, i) != child_of(k, j),
{
}

/// A key with a parent is one of that parent's four children.
pub proof fn lemma_child_of_parent(k: NodeKey)
    requires
        k.level > 0,
    ensures
        ({
            let p = parent_of(k).unwrap();
            &&& can_split(p)
            &&& child_of(p, (k.x % 2 + 2 * (k.y % 2)) as int) == k
        }),
{
}

/// Face roots are exactly the keys without a parent.
pub proof fn lemma_root_has_no_parent(k: NodeKey)
    ensures
        parent_of(k) is None <==> k.level == 0,
{
}

} // verus!
