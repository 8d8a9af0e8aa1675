//! One level of a geometry DAG: nodes deduplicate on occupancy alone, so two
//! nodes with the same shape share a node whatever materials lie below them.
use std::collections::HashMap;
use vstd::prelude::*;

verus! {

use crate::bitpacked::{BitpackedArray, positions_fit, width_after_all, lemma_width_after_prefix};
use crate::bits::valid_width;
use crate::bits::popcount;
use crate::dag::LevelModel;
use crate::lattice::ChildIter;
use crate::lattice::voxel::Voxel;

broadcast use vstd::std_specs::hash::group_hash_axioms;

/// Child blocks laid out back to back in `m`, every start within the
/// children.
pub open spec fn blocks_ok(m: LevelModel) -> bool {
    &&& m.children_start.len() == m.node_count()
    &&& m.node_count() > 0 ==> m.children_start[0] == 0
    &&& m.node_count() == 0 ==> m.children.len() == 0
    &&& forall|i: int|
        0 <= i < m.node_count() ==> #[trigger] m.children_start[i] <= m.node_end(i)
            && m.children_start[i] <= m.children.len()
    &&& m.node_count() <= u32::MAX
}

/// Appending a block of children as a new node keeps the blocks laid out
/// back to back and leaves every earlier block unchanged.
pub proof fn lemma_append_block(m: LevelModel, m2: LevelModel, block: Seq<u32>)
    requires
        blocks_ok(m),
        m.node_count() < u32::MAX,
        m2.occupancy.len() == m.occupancy.len() + 1,
        m2.children_start == m.children_start.push(m.children.len() as u32),
        m2.children == m.children + block,
        m.children.len() <= u32::MAX,
    ensures
        blocks_ok(m2),
        forall|i: int| 0 <= i < m.node_count() ==> #[trigger] m2.node_children(i) == m.node_children(i),
        m2.node_children(m.node_count()) == block,
{
    let n = m.node_count();
    assert forall|i: int| 0 <= i < n implies #[trigger] m2.node_children(i) == m.node_children(i) by {
        assert(m2.node_end(i) == m.node_end(i));
        assert(m2.node_children(i) =~= m.node_children(i));
    }
    assert(m2.node_children(n) =~= block);
    assert forall|i: int| 0 <= i < m2.node_count() implies #[trigger] m2.children_start[i]
        <= m2.node_end(i) && m2.children_start[i] <= m2.children.len() by {
        if i < n {
            assert(m.children_start[i] <= m.node_end(i));
        }
    }
}

/// Appends `children` to a packed array whose spare bits are zero. The
/// array widens as the values need; every entry's bit position must fit at
/// the width it ends with.
pub(crate) fn push_all(arr: &mut BitpackedArray, children: &[u32])
    requires
        old(arr).wf(),
        old(arr).spare_zero(),
        positions_fit(
            old(arr)@.len() + children@.len() as int,
            width_after_all(old(arr).bits, children@) as int,
        ),
    ensures
        final(arr).wf(),
        final(arr).spare_zero(),
        final(arr)@ == old(arr)@ + children@,
        final(arr).bits == width_after_all(old(arr).bits, children@),
{
    let ghost total: int = old(arr)@.len() + children@.len() as int;
    let ghost wall = width_after_all(old(arr).bits, children@) as int;
    let mut k: usize = 0;
    while k < children.len()
        invariant
            arr.wf(),
            arr.spare_zero(),
            k <= children@.len(),
            total == old(arr)@.len() + children@.len(),
            wall == width_after_all(old(arr).bits, children@) as int,
            positions_fit(total, wall),
            valid_width(old(arr).bits),
            arr@ == old(arr)@ + children@.subrange(0, k as int),
            arr.bits == width_after_all(old(arr).bits, children@.take(k as int)),
        decreases children@.len() - k,
    {
        let c = children[k];
        proof {
            let pre = children@.take(k as int);
            let next = children@.take(k as int + 1);
            assert(next.drop_last() =~= pre);
            assert(next.last() == c);
            lemma_width_after_prefix(old(arr).bits, children@, k as int + 1);
            let l = arr.len as int + 1;
            let w = BitpackedArray::width_after(arr.bits, c) as int;
            assert(arr@.len() == arr.len);
            assert(l <= total);
            assert(w <= wall);
            assert(l * w <= total * wall) by (nonlinear_arith)
                requires
                    0 <= l <= total,
                    0 <= w <= wall,
            ;
        }
        arr.push(c);
        k += 1;
        assert(arr@ =~= old(arr)@ + children@.subrange(0, k as int));
    }
    assert(children@.subrange(0, children@.len() as int) =~= children@);
    assert(children@.take(children@.len() as int) =~= children@);
}

pub struct GeometryDagLevel {
    pub occupancy: Vec<u64>,
    pub voxel_count: Vec<u32>,
    pub children_start: Vec<u32>,
    pub children: BitpackedArray,
    pub(crate) lookup: HashMap<u64, u32>,
}

impl View for GeometryDagLevel {
    type V = LevelModel;

    closed spec fn view(&self) -> LevelModel {
        LevelModel {
            occupancy: self.occupancy@,
            voxel_count: self.voxel_count@,
            children_start: self.children_start@,
            children: self.children@,
        }
    }
}

impl GeometryDagLevel {
    /// Child blocks laid out back to back, no occupancy mask occurs twice, and
    /// the lookup maps exactly the level's masks to their nodes.
    pub closed spec fn wf(&self) -> bool {
        &&& blocks_ok(self@)
        &&& self.voxel_count@.len() == self@.node_count()
        &&& self.children.wf()
        &&& self.children.spare_zero()
        &&& forall|i: int, j: int|
            0 <= i < j < self@.node_count() ==> self.occupancy@[i] != self.occupancy@[j]
        &&& forall|i: int|
            0 <= i < self@.node_count() ==> #[trigger] self.lookup@.contains_key(self.occupancy@[i])
                && self.lookup@[self.occupancy@[i]] == i
        &&& forall|o: u64|
            #[trigger] self.lookup@.contains_key(o) ==> self.lookup@[o] < self@.node_count()
                && self.occupancy@[self.lookup@[o] as int] == o
    }

    /// The bit width the packed child entries are stored at.
    pub closed spec fn child_width(&self) -> u8 {
        self.children.bits
    }

    pub fn new() -> (r: Self)
        ensures
            r.wf(),
            r@.node_count() == 0,
            r@.children.len() == 0,
            r.child_width() == 1,
    {
        Self {
            occupancy: Vec::new(),
            voxel_count: Vec::new(),
            children_start: Vec::new(),
            children: BitpackedArray::new(),
            lookup: HashMap::new(),
        }
    }

    pub fn len(&self) -> (r: u32)
        requires
            self.wf(),
        ensures
            r == self@.node_count(),
    {
        self.occupancy.len() as u32
    }

    pub fn is_empty(&self) -> (r: bool)
        ensures
            r == (self@.node_count() == 0),
    {
        self.occupancy.is_empty()
    }

    /// The children of node `node_idx`: `popcount(occupancy)` entries from its
    /// start.
    pub fn children_of(&self, node_idx: u32) -> (r: ChildIter<'_>)
        requires
            self.wf(),
            (node_idx as int) < self@.node_count(),
            self@.children_start[node_idx as int] as int + popcount(
                self@.occupancy[node_idx as int],
            ) <= self@.children.len(),
        ensures
            r.wf(),
            r@ == self@.children.subrange(
                self@.children_start[node_idx as int] as int,
                self@.children_start[node_idx as int] as int + popcount(
                    self@.occupancy[node_idx as int],
                ),
            ),
    {
        let start = self.children_start[node_idx as usize];
        let count = crate::bits::u64_count_ones(self.occupancy[node_idx as usize]);
        ChildIter::new(&self.children, start, start + count)
    }

    /// Inserts a node, deduplicating on occupancy only: if a node with the
    /// same occupancy mask exists, returns its index and stores nothing.
    pub fn insert(&mut self, occupancy: u64, voxel_count: u32, children: &[u32]) -> (r: u32)
        requires
            old(self).wf(),
            old(self)@.node_count() < u32::MAX,
            !old(self)@.occupancy.contains(occupancy) ==> positions_fit(
                old(self)@.children.len() + children@.len() as int,
                width_after_all(old(self).child_width(), children@) as int,
            ),
        ensures
            final(self).wf(),
            (r as int) < final(self)@.node_count(),
            final(self)@.occupancy[r as int] == occupancy,
            final(self)@.voxel_count.len() == final(self)@.node_count(),
            old(self)@.occupancy.contains(occupancy) ==> final(self)@ == old(self)@
                && final(self).child_width() == old(self).child_width(),
            !old(self)@.occupancy.contains(occupancy) ==> {
                &&& r == old(self)@.node_count()
                &&& final(self)@.occupancy == old(self)@.occupancy.push(occupancy)
                &&& final(self)@.voxel_count == old(self)@.voxel_count.push(voxel_count)
                &&& final(self)@.voxel_count[r as int] == voxel_count
                &&& final(self)@.children_start == old(self)@.children_start.push(
                    old(self)@.children.len() as u32,
                )
                &&& final(self)@.children == old(self)@.children + children@
                &&& final(self)@.node_children(r as int) == children@
                &&& final(self).child_width() == width_after_all(old(self).child_width(), children@)
            },
    {
        match self.lookup.get(&occupancy) {
            Some(idx) => {
                let idx = *idx;
                return idx;
            },
            None => {},
        }
        proof {
            assert(!self@.occupancy.contains(occupancy)) by {
                if self@.occupancy.contains(occupancy) {
                    let j = choose|j: int| 0 <= j < self@.node_count() && self@.occupancy[j] == occupancy;
                    assert(self.lookup@.contains_key(self.occupancy@[j]));
                }
            }
        }
        let ghost old_level = *self;
        let start = self.children.len();
        push_all(&mut self.children, children);
        let idx = self.occupancy.len() as u32;
        self.occupancy.push(occupancy);
        self.voxel_count.push(voxel_count);
        self.children_start.push(start);
        self.lookup.insert(occupancy, idx);
        proof {
            lemma_append_block(old_level@, self@, children@);
            assert forall|i: int|
                0 <= i < self@.node_count() implies #[trigger] self.lookup@.contains_key(
                self.occupancy@[i],
            ) && self.lookup@[self.occupancy@[i]] == i by {
                if i < old_level@.node_count() {
                    assert(old_level.lookup@.contains_key(old_level.occupancy@[i]));
                }
            }
            assert forall|o: u64| #[trigger] self.lookup@.contains_key(o) implies self.lookup@[o]
                < self@.node_count() && self.occupancy@[self.lookup@[o] as int] == o by {
                if o != occupancy {
                    assert(old_level.lookup@.contains_key(o));
                }
            }
        }
        idx
    }
}

impl Default for GeometryDagLevel {
    fn default() -> (r: Self)
        ensures
            r.wf(),
            r@.node_count() == 0,
    {
        Self::new()
    }
}

/// One root of the geometry DAG and its per-instance data: the root node, the
/// logical entry in the bottom level's children where its leaves begin, its
/// packed material indices, and one representative voxel per node in DFS
/// order (used when traversal stops early for LOD).
/// In a well-formed level, which every operation keeps, each occupancy mask
/// occurs once: equal masks mean the same index.
pub proof fn lemma_one_index_per_mask(l: &GeometryDagLevel, i: int, j: int)
    requires
        l.wf(),
        0 <= i < l@.node_count(),
        0 <= j < l@.node_count(),
        l@.occupancy[i] == l@.occupancy[j],
    ensures
        i == j,
{
}

/// A node stored with as many children as its occupancy has set bits reads
/// them back through `children_of`.
pub proof fn lemma_geometry_children_of(l: &GeometryDagLevel, i: int, children: Seq<u32>)
    requires
        l.wf(),
        0 <= i < l@.node_count(),
        l@.node_children(i) == children,
        popcount(l@.occupancy[i]) == children.len(),
    ensures
        l@.children_start[i] as int + popcount(l@.occupancy[i]) <= l@.children.len(),
        l@.children.subrange(
            l@.children_start[i] as int,
            l@.children_start[i] as int + popcount(l@.occupancy[i]),
        ) == children,
{
    assert(l@.children_start[i] <= l@.node_end(i));
}

pub struct GeometryDagRoot {
    pub root_node_index: u32,
    pub leaf_start: u32,
    pub materials: BitpackedArray,
    pub rep_voxels: Vec<Voxel>,
}

} // verus!
