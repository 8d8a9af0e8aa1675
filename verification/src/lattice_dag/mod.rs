//! A world-scale 64-tree DAG arena, generic over the leaf data. Every level
//! and the leaf pool deduplicate on insert.
pub mod node;

pub use node::{Node, LEAF_FLAG, is_leaf_ref, leaf_index, make_leaf_ref};

use std::collections::HashMap;
use std::collections::hash_map::DefaultHasher;
use std::hash::{Hash, Hasher};
use vstd::prelude::*;

verus! {

use crate::bits::popcount;
use crate::dag::node_hash;

broadcast use vstd::std_specs::hash::group_hash_axioms;

/// The content hash of a node: its occupancy, then its child entries.
fn hash_node(occupancy: u64, children: &[u32]) -> (r: u64)
    ensures
        r == node_hash(occupancy, children@),
{
    crate::dag::hash_node(occupancy, children)
}

/// Feeds `leaf` into the hasher with the leaf type's `Hash` impl. The leaf
/// type is generic, so the contract says nothing of the hasher's new state.
#[verifier::external_body]
fn feed_leaf<T: Hash>(leaf: &T, h: &mut DefaultHasher) {
    leaf.hash(h)
}

/// Hashes a leaf with a fresh `DefaultHasher`.
fn hash_leaf<T: Hash>(leaf: &T) -> u64 {
    let mut h = DefaultHasher::new();
    feed_leaf(leaf, &mut h);
    h.finish()
}

/// The contents of a level: its nodes and its child entries.
pub struct DagLevelModel {
    pub nodes: Seq<Node>,
    pub children: Seq<u32>,
}

impl DagLevelModel {
    pub open spec fn node_count(self) -> int {
        self.nodes.len() as int
    }

    /// Where node `i`'s child block ends.
    pub open spec fn node_end(self, i: int) -> int {
        if i + 1 < self.node_count() {
            self.nodes[i + 1].children_start as int
        } else {
            self.children.len() as int
        }
    }

    /// The child entries inserted with node `i`.
    pub open spec fn node_children(self, i: int) -> Seq<u32> {
        self.children.subrange(self.nodes[i].children_start as int, self.node_end(i))
    }

    pub open spec fn hash_of(self, i: int) -> u64 {
        node_hash(self.nodes[i].occupancy, self.node_children(i))
    }

    /// Child blocks are laid out back to back and no two nodes have the same
    /// occupancy and children.
    pub open spec fn layout_ok(self) -> bool {
        &&& self.node_count() > 0 ==> self.nodes[0].children_start == 0
        &&& self.node_count() == 0 ==> self.children.len() == 0
        &&& forall|i: int|
            0 <= i < self.node_count() ==> #[trigger] self.nodes[i].children_start <= self.node_end(
                i,
            ) && self.nodes[i].children_start <= self.children.len()
        &&& self.children.len() <= u32::MAX
        &&& self.node_count() <= u32::MAX
        &&& forall|i: int, j: int|
            0 <= i < j < self.node_count() ==> !self.node_is(
                j,
                self.nodes[i].occupancy,
                self.node_children(i),
            )
    }

    /// Node `i` has this occupancy mask and these child entries.
    pub open spec fn node_is(self, i: int, occupancy: u64, children: Seq<u32>) -> bool {
        self.nodes[i].occupancy == occupancy && self.node_children(i) == children
    }
}

/// In a well-formed level, which every operation keeps, no node occurs
/// twice: equal occupancy and children mean the same index, so inserting a
/// node twice yields one index.
pub proof fn lemma_one_index_per_node(l: &Level, i: int, j: int)
    requires
        l.wf(),
        0 <= i < l@.node_count(),
        0 <= j < l@.node_count(),
        l@.node_is(j, l@.nodes[i].occupancy, l@.node_children(i)),
    ensures
        i == j,
{
    if j < i {
        assert(l@.nodes[j].occupancy == l@.nodes[i].occupancy);
        assert(l@.node_is(i, l@.nodes[j].occupancy, l@.node_children(j)));
    }
}

/// A node stored with as many children as its occupancy has set bits reads
/// them back through `children_of`.
pub proof fn lemma_children_of_node(l: &Level, i: int, occupancy: u64, children: Seq<u32>)
    requires
        l.wf(),
        0 <= i < l@.node_count(),
        l@.node_is(i, occupancy, children),
        popcount(occupancy) == children.len(),
    ensures
        l@.nodes[i].children_start as int + popcount(l@.nodes[i].occupancy) <= l@.children.len(),
        l@.children.subrange(
            l@.nodes[i].children_start as int,
            l@.nodes[i].children_start as int + popcount(l@.nodes[i].occupancy),
        ) == children,
{
    assert(l@.nodes[i].children_start <= l@.node_end(i));
}

/// One interior level of the 64-tree. Deduplication is always on: every
/// insert looks the node up by its content hash and returns the existing
/// index if a node with the same occupancy and children is there.
pub struct Level {
    pub nodes: Vec<Node>,
    pub children: Vec<u32>,
    /// The indices of the nodes with each content hash.
    pub dedup: HashMap<u64, Vec<u32>>,
}

impl View for Level {
    type V = DagLevelModel;

    open spec fn view(&self) -> DagLevelModel {
        DagLevelModel { nodes: self.nodes@, children: self.children@ }
    }
}

impl Level {
    /// The layout holds and the hash table lists exactly each node's index
    /// under the node's content hash.
    pub closed spec fn wf(&self) -> bool {
        &&& self@.layout_ok()
        &&& forall|i: int|
            0 <= i < self@.node_count() ==> #[trigger] self.dedup@.contains_key(self@.hash_of(i))
                && self.dedup@[self@.hash_of(i)]@.contains(i as u32)
        &&& forall|h: u64, k: int|
            #![trigger self.dedup@[h]@[k]]
            self.dedup@.contains_key(h) && 0 <= k < self.dedup@[h]@.len() ==> self.dedup@[h]@[k]
                < self@.node_count() && self@.hash_of(self.dedup@[h]@[k] as int) == h
    }

    pub fn new() -> (r: Self)
        ensures
            r.wf(),
            r@.node_count() == 0,
            r@.children.len() == 0,
    {
        Self { nodes: Vec::new(), children: Vec::new(), dedup: HashMap::new() }
    }

    /// Whether node `i` has exactly this occupancy and these children.
    fn node_matches(&self, i: u32, occupancy: u64, children: &[u32]) -> (r: bool)
        requires
            self.wf(),
            (i as int) < self@.node_count(),
        ensures
            r == self@.node_is(i as int, occupancy, children@),
    {
        if self.nodes[i as usize].occupancy != occupancy {
            return false;
        }
        let n = self.nodes.len();
        let start = self.nodes[i as usize].children_start as usize;
        let end = if (i as usize) + 1 < n {
            self.nodes[i as usize + 1].children_start as usize
        } else {
            self.children.len()
        };
        proof {
            assert(self@.nodes[i as int].children_start <= self@.node_end(i as int));
            assert(end == self@.node_end(i as int));
        }
        if end - start != children.len() {
            proof {
                assert(self@.node_children(i as int).len() != children@.len());
            }
            return false;
        }
        let mut k: usize = 0;
        while k < end - start
            invariant
                self.wf(),
                start == self@.nodes[i as int].children_start,
                end == self@.node_end(i as int),
                start <= end <= self@.children.len(),
                end - start == children@.len(),
                k <= end - start,
                forall|q: int| 0 <= q < k ==> #[trigger] self@.children[start + q] == children@[q],
            decreases end - start - k,
        {
            if self.children[start + k] != children[k] {
                proof {
                    assert(self@.node_children(i as int)[k as int] != children@[k as int]);
                }
                return false;
            }
            k += 1;
        }
        proof {
            assert forall|q: int| 0 <= q < children@.len() implies self@.node_children(i as int)[q]
                == children@[q] by {
                assert(self@.children[start + q] == children@[q]);
            }
            assert(self@.node_children(i as int) =~= children@);
        }
        true
    }

    /// Inserts an interior node and returns its pool index. If a node with the
    /// same occupancy and children already exists, returns its index and
    /// inserts nothing. Entries of `children` that point to leaves must
    /// already carry `LEAF_FLAG`.
    pub fn insert(&mut self, occupancy: u64, children: &[u32]) -> (r: u32)
        requires
            old(self).wf(),
            old(self)@.children.len() + children@.len() <= u32::MAX,
            old(self)@.node_count() < u32::MAX,
        ensures
            final(self).wf(),
            (r as int) < final(self)@.node_count(),
            final(self)@.node_is(r as int, occupancy, children@),
            (exists|i: int| 0 <= i < old(self)@.node_count() && old(self)@.node_is(i, occupancy, children@))
                ==> final(self)@ == old(self)@ && (r as int) < old(self)@.node_count()
                && old(self)@.node_is(r as int, occupancy, children@),
            !(exists|i: int|
                0 <= i < old(self)@.node_count() && old(self)@.node_is(i, occupancy, children@)) ==> {
                &&& r == old(self)@.node_count()
                &&& final(self)@.nodes == old(self)@.nodes.push(
                    Node { occupancy, children_start: old(self)@.children.len() as u32 },
                )
                &&& final(self)@.children == old(self)@.children + children@
            },
    {
        let hash = hash_node(occupancy, children);
        match self.dedup.get(&hash) {
            Some(indices) => {
                let mut k: usize = 0;
                while k < indices.len()
                    invariant
                        self.wf(),
                        self.dedup@.contains_key(hash),
                        indices@ == self.dedup@[hash]@,
                        hash == node_hash(occupancy, children@),
                        k <= indices@.len(),
                        forall|q: int|
                            0 <= q < k ==> !self@.node_is(indices@[q] as int, occupancy, children@),
                    decreases indices.len() - k,
                {
                    let i = indices[k];
                    assert(self.dedup@[hash]@[k as int] == i);
                    if self.node_matches(i, occupancy, children) {
                        return i;
                    }
                    k += 1;
                }
                proof {
                    assert forall|j: int| 0 <= j < self@.node_count() implies !self@.node_is(
                        j,
                        occupancy,
                        children@,
                    ) by {
                        if self@.node_is(j, occupancy, children@) {
                            assert(self.dedup@[self@.hash_of(j)]@.contains(j as u32));
                            let q = choose|q: int|
                                0 <= q < indices@.len() && indices@[q] == j as u32;
                            assert(!self@.node_is(indices@[q] as int, occupancy, children@));
                        }
                    }
                }
            },
            None => {
                proof {
                    assert forall|j: int| 0 <= j < self@.node_count() implies !self@.node_is(
                        j,
                        occupancy,
                        children@,
                    ) by {
                        if self@.node_is(j, occupancy, children@) {
                            assert(self.dedup@.contains_key(self@.hash_of(j)));
                        }
                    }
                }
            },
        }
        let ghost old_level = *self;
        let children_start = self.children.len() as u32;
        self.children.extend_from_slice(children);
        let idx = self.nodes.len() as u32;
        self.nodes.push(Node { occupancy, children_start });
        let mut list = match self.dedup.get(&hash) {
            Some(v) => v.clone(),
            None => Vec::new(),
        };
        let ghost old_list = list@;
        proof {
            if old_level.dedup@.contains_key(hash) {
                assert(old_list =~= old_level.dedup@[hash]@);
            }
        }
        list.push(idx);
        self.dedup.insert(hash, list);
        proof {
            let n = old_level@.node_count();
            assert(self@.children =~= old_level@.children + children@);
            assert forall|i: int| 0 <= i < n implies #[trigger] self@.node_children(i)
                == old_level@.node_children(i) by {
                assert(self@.node_end(i) == old_level@.node_end(i));
                assert(self@.node_children(i) =~= old_level@.node_children(i));
            }
            assert(self@.node_children(n) =~= children@);
            assert forall|i: int| 0 <= i <= n implies #[trigger] self@.hash_of(i) == (if i < n {
                old_level@.hash_of(i)
            } else {
                hash
            }) by {
                if i < n {
                    assert(self@.node_children(i) == old_level@.node_children(i));
                }
            }
            assert forall|i: int| 0 <= i < self@.node_count() implies #[trigger] self@.nodes[i].children_start
                <= self@.node_end(i) && self@.nodes[i].children_start <= self@.children.len() by {
                if i < n {
                    assert(old_level@.nodes[i].children_start <= old_level@.node_end(i));
                }
            }
            assert forall|i: int, j: int| 0 <= i < j < self@.node_count() implies !self@.node_is(
                j,
                self@.nodes[i].occupancy,
                self@.node_children(i),
            ) by {
                assert(self@.node_children(i) == old_level@.node_children(i));
                if j < n {
                    assert(self@.node_children(j) == old_level@.node_children(j));
                    assert(!old_level@.node_is(j, old_level@.nodes[i].occupancy, old_level@.node_children(i)));
                } else {
                    assert(!old_level@.node_is(i, occupancy, children@));
                }
            }
            assert(self@.layout_ok());
            assert forall|i: int|
                0 <= i < self@.node_count() implies #[trigger] self.dedup@.contains_key(
                self@.hash_of(i),
            ) && self.dedup@[self@.hash_of(i)]@.contains(i as u32) by {
                if i < n {
                    let hi = old_level@.hash_of(i);
                    assert(old_level.dedup@.contains_key(hi));
                    if hi == hash {
                        let q = choose|q: int|
                            0 <= q < old_level.dedup@[hi]@.len() && old_level.dedup@[hi]@[q] == i as u32;
                        assert(self.dedup@[hi]@[q] == i as u32);
                    }
                } else {
                    assert(self.dedup@[hash]@[old_list.len() as int] == idx);
                }
            }
            assert forall|h: u64, k: int|
                #![trigger self.dedup@[h]@[k]]
                self.dedup@.contains_key(h) && 0 <= k < self.dedup@[h]@.len() implies self.dedup@[h]@[k]
                < self@.node_count() && self@.hash_of(self.dedup@[h]@[k] as int) == h by {
                if h == hash {
                    if k < old_list.len() {
                        assert(old_level.dedup@.contains_key(h));
                        assert(old_level.dedup@[h]@[k] == self.dedup@[h]@[k]);
                    }
                } else {
                    assert(old_level.dedup@[h]@[k] == self.dedup@[h]@[k]);
                }
            }
        }
        idx
    }

    /// The child entries of `node`: `child_count()` entries from its start.
    pub fn children_of(&self, node: &Node) -> (r: &[u32])
        requires
            node.children_start as int + popcount(node.occupancy) <= self@.children.len(),
        ensures
            r@ == self@.children.subrange(
                node.children_start as int,
                node.children_start as int + popcount(node.occupancy),
            ),
    {
        let start = node.children_start as usize;
        let total = self.children.len();
        let end = start + node.child_count() as usize;
        vstd::slice::slice_subrange(self.children.as_slice(), start, end)
    }
}

/// The leaf pool: one entry per distinct leaf datum. Deduplication is always
/// on, by the leaf's hash.
pub struct LeafPool<T> {
    pub data: Vec<T>,
    /// The pool index recorded under each leaf hash.
    pub dedup: HashMap<u64, u32>,
}

impl<T> View for LeafPool<T> {
    type V = Seq<T>;

    open spec fn view(&self) -> Seq<T> {
        self.data@
    }
}

impl<T: Hash> LeafPool<T> {
    /// Every index the hash table holds is an index of the pool.
    pub closed spec fn wf(&self) -> bool {
        &&& self.data@.len() <= u32::MAX
        &&& forall|h: u64| #[trigger] self.dedup@.contains_key(h) ==> self.dedup@[h] < self.data@.len()
        &&& forall|h1: u64, h2: u64|
            #[trigger] self.dedup@.contains_key(h1) && #[trigger] self.dedup@.contains_key(h2)
                && self.dedup@[h1] == self.dedup@[h2] ==> h1 == h2
    }

    pub fn new() -> (r: Self)
        ensures
            r.wf(),
            r@.len() == 0,
            r.hash_index() == Map::<u64, u32>::empty(),
    {
        Self { data: Vec::new(), dedup: HashMap::new() }
    }

    /// The pool index recorded under each leaf hash.
    pub closed spec fn hash_index(&self) -> Map<u64, u32> {
        self.dedup@
    }

    /// Inserts a leaf whose hash is `hash` and returns its pool index: the
    /// index already recorded under `hash`, inserting nothing, or else the
    /// index of the leaf appended, recorded under `hash`.
    pub fn insert_hashed(&mut self, leaf: T, hash: u64) -> (r: u32)
        requires
            old(self).wf(),
            old(self)@.len() < u32::MAX,
        ensures
            final(self).wf(),
            old(self).hash_index().contains_key(hash) ==> r == old(self).hash_index()[hash]
                && final(self)@ == old(self)@ && final(self).hash_index() == old(self).hash_index(),
            !old(self).hash_index().contains_key(hash) ==> r == old(self)@.len() && final(self)@
                == old(self)@.push(leaf) && final(self).hash_index() == old(self).hash_index().insert(
                hash,
                r,
            ),
    {
        match self.dedup.get(&hash) {
            Some(idx) => {
                let idx = *idx;
                return idx;
            },
            None => {},
        }
        let idx = self.data.len() as u32;
        self.data.push(leaf);
        self.dedup.insert(hash, idx);
        idx
    }

    /// Inserts a leaf and returns its pool index: looks the leaf up by its
    /// hash, returns the index already recorded under that hash and changes
    /// nothing, or else appends the leaf and records its index under the
    /// hash. Indices recorded earlier stay recorded.
    pub fn insert(&mut self, leaf: T) -> (r: u32)
        requires
            old(self).wf(),
            old(self)@.len() < u32::MAX,
        ensures
            final(self).wf(),
            (r < old(self)@.len() && final(self)@ == old(self)@) || (r == old(self)@.len()
                && final(self)@ == old(self)@.push(leaf)),
            exists|h: u64| #[trigger] final(self).hash_index().contains_key(h) && final(self).hash_index()[h] == r,
            exists|h: u64|
                {
                    &&& #[trigger] final(self).hash_index().contains_key(h)
                    &&& final(self).hash_index()[h] == r
                    &&& old(self).hash_index().contains_key(h) ==> r == old(self).hash_index()[h]
                        && final(self)@ == old(self)@ && final(self).hash_index()
                        == old(self).hash_index()
                    &&& !old(self).hash_index().contains_key(h) ==> r == old(self)@.len()
                        && final(self)@ == old(self)@.push(leaf) && final(self).hash_index()
                        == old(self).hash_index().insert(h, r)
                },
            forall|h: u64| #[trigger]
                old(self).hash_index().contains_key(h) ==> final(self).hash_index().contains_key(h)
                    && final(self).hash_index()[h] == old(self).hash_index()[h],
    {
        let hash = hash_leaf(&leaf);
        let r = self.insert_hashed(leaf, hash);
        assert(self.hash_index().contains_key(hash) && self.hash_index()[hash] == r);
        r
    }
}

/// In a well-formed pool, which every insert keeps, two hashes never record
/// the same index: each pool entry is found under at most one hash.
pub proof fn lemma_one_hash_per_entry<T: Hash>(p: &LeafPool<T>, h1: u64, h2: u64)
    requires
        p.wf(),
        p.hash_index().contains_key(h1),
        p.hash_index().contains_key(h2),
        p.hash_index()[h1] == p.hash_index()[h2],
    ensures
        h1 == h2,
{
}

/// The world-scale DAG arena: `depth` interior levels and a leaf pool. A
/// spatial region is a root index into `levels[0]`.
pub struct Dag<T> {
    pub levels: Vec<Level>,
    pub leaves: LeafPool<T>,
}

impl<T: Hash> Dag<T> {
    /// An empty DAG with `depth` interior levels.
    pub fn new(depth: usize) -> (r: Self)
        ensures
            r.levels@.len() == depth,
            forall|i: int| 0 <= i < depth ==> #[trigger] r.levels@[i].wf() && r.levels@[i]@.node_count()
                == 0 && r.levels@[i]@.children.len() == 0,
            r.leaves.wf(),
            r.leaves@.len() == 0,
            r.leaves.hash_index() == Map::<u64, u32>::empty(),
    {
        let mut levels: Vec<Level> = Vec::new();
        let mut i: usize = 0;
        while i < depth
            invariant
                i <= depth,
                levels@.len() == i,
                forall|k: int| 0 <= k < i ==> #[trigger] levels@[k].wf() && levels@[k]@.node_count()
                    == 0 && levels@[k]@.children.len() == 0,
            decreases depth - i,
        {
            levels.push(Level::new());
            i += 1;
        }
        assert(forall|k: int| 0 <= k < depth ==> #[trigger] levels@[k].wf());
        let r = Self { levels, leaves: LeafPool::new() };
        assert forall|i: int| 0 <= i < depth implies #[trigger] r.levels@[i].wf()
            && r.levels@[i]@.node_count() == 0 && r.levels@[i]@.children.len() == 0 by {
            assert(r.levels@[i] == levels@[i]);
            assert(levels@[i].wf());
            assert(r.levels@[i].wf());
            assert(levels@[i]@.node_count() == 0);
            assert(levels@[i]@.children.len() == 0);
        }
        r
    }
}

} // verus!
