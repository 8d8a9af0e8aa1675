//! One level of a material DAG section: nodes deduplicate on occupancy and
//! children together, so two nodes share only when shape and leaf data match.
use std::collections::HashMap;
use vstd::prelude::*;

verus! {

use crate::bitpacked::{BitpackedArray, positions_fit, width_after_all};
use crate::bits::popcount;
use crate::dag::{LevelModel, node_hash};
use crate::lattice::ChildIter;
use crate::lattice::geometry_dag::{blocks_ok, lemma_append_block, push_all};

broadcast use vstd::std_specs::hash::group_hash_axioms;

pub struct MaterialDagLevel {
    pub occupancy: Vec<u64>,
    pub children_start: Vec<u32>,
    pub children: BitpackedArray,
    pub(crate) lookup: HashMap<u64, Vec<u32>>,
}

impl View for MaterialDagLevel {
    type V = LevelModel;

    closed spec fn view(&self) -> LevelModel {
        LevelModel {
            occupancy: self.occupancy@,
            voxel_count: Seq::empty(),
            children_start: self.children_start@,
            children: self.children@,
        }
    }
}

/// Node `i` of `m` has occupancy `occupancy` and child entries `children`.
pub open spec fn node_is(m: LevelModel, i: int, occupancy: u64, children: Seq<u32>) -> bool {
    m.occupancy[i] == occupancy && m.node_children(i) == children
}

/// A node stored with as many children as its occupancy has set bits reads
/// them back through `children_of`.
pub proof fn lemma_material_children_of(l: &MaterialDagLevel, i: int, occupancy: u64, children: Seq<u32>)
    requires
        l.wf(),
        0 <= i < l@.node_count(),
        node_is(l@, i, occupancy, children),
        popcount(occupancy) == children.len(),
    ensures
        l@.children_start[i] as int + popcount(l@.occupancy[i]) <= l@.children.len(),
        l@.children.subrange(
            l@.children_start[i] as int,
            l@.children_start[i] as int + popcount(l@.occupancy[i]),
        ) == children,
{
    assert(l@.children_start[i] <= l@.node_end(i));
}

impl MaterialDagLevel {
    /// Child blocks laid out back to back, no node occurs twice, and the
    /// lookup lists exactly each node's index under the node's content hash.
    pub closed spec fn wf(&self) -> bool {
        &&& blocks_ok(self@)
        &&& self.children.wf()
        &&& self.children.spare_zero()
        &&& forall|i: int, j: int|
            0 <= i < j < self@.node_count() ==> !node_is(
                self@,
                j,
                self@.occupancy[i],
                self@.node_children(i),
            )
        &&& forall|i: int|
            0 <= i < self@.node_count() ==> #[trigger] self.lookup@.contains_key(self@.hash_of(i))
                && self.lookup@[self@.hash_of(i)]@.contains(i as u32)
        &&& forall|h: u64, k: int|
            #![trigger self.lookup@[h]@[k]]
            self.lookup@.contains_key(h) && 0 <= k < self.lookup@[h]@.len() ==> self.lookup@[h]@[k]
                < self@.node_count() && self@.hash_of(self.lookup@[h]@[k] as int) == h
    }

    /// The bit width the packed child entries are stored at.
    pub closed spec fn child_width(&self) -> u8 {
        self.children.bits
    }

    pub fn new() -> (r: Self)
        ensures
            r.wf(),
            r@.node_count() == 0,
            r@.children.len() == 0,
            r.child_width() == 1,
    {
        Self {
            occupancy: Vec::new(),
            children_start: Vec::new(),
            children: BitpackedArray::new(),
            lookup: HashMap::new(),
        }
    }

    pub fn len(&self) -> (r: u32)
        requires
            self.wf(),
        ensures
            r == self@.node_count(),
    {
        self.occupancy.len() as u32
    }

    pub fn is_empty(&self) -> (r: bool)
        ensures
            r == (self@.node_count() == 0),
    {
        self.occupancy.is_empty()
    }

    /// The children of node `node_idx`: `popcount(occupancy)` entries from its
    /// start.
    pub fn children_of(&self, node_idx: u32) -> (r: ChildIter<'_>)
        requires
            self.wf(),
            (node_idx as int) < self@.node_count(),
            self@.children_start[node_idx as int] as int + popcount(
                self@.occupancy[node_idx as int],
            ) <= self@.children.len(),
        ensures
            r.wf(),
            r@ == self@.children.subrange(
                self@.children_start[node_idx as int] as int,
                self@.children_start[node_idx as int] as int + popcount(
                    self@.occupancy[node_idx as int],
                ),
            ),
    {
        let start = self.children_start[node_idx as usize];
        let count = crate::bits::u64_count_ones(self.occupancy[node_idx as usize]);
        ChildIter::new(&self.children, start, start + count)
    }

    /// Whether node `i` has exactly this occupancy and these children.
    fn node_matches(&self, i: u32, occupancy: u64, children: &[u32]) -> (r: bool)
        requires
            self.wf(),
            (i as int) < self@.node_count(),
        ensures
            r == node_is(self@, i as int, occupancy, children@),
    {
        if self.occupancy[i as usize] != occupancy {
            return false;
        }
        let n = self.occupancy.len();
        let start = self.children_start[i as usize];
        let end = if (i as usize) + 1 < n {
            self.children_start[i as usize + 1]
        } else {
            self.children.len()
        };
        proof {
            assert(self@.children_start[i as int] <= self@.node_end(i as int));
            assert(end == self@.node_end(i as int));
        }
        if ((end - start) as usize) != children.len() {
            proof {
                assert(self@.node_children(i as int).len() != children@.len());
            }
            return false;
        }
        let mut k: u32 = 0;
        while k < end - start
            invariant
                self.wf(),
                start == self@.children_start[i as int],
                end == self@.node_end(i as int),
                start <= end <= self@.children.len(),
                end - start == children@.len(),
                k <= end - start,
                forall|q: int| 0 <= q < k ==> #[trigger] self@.children[start + q] == children@[q],
            decreases end - start - k,
        {
            if self.children.get(start + k) != children[k as usize] {
                proof {
                    assert(self@.node_children(i as int)[k as int] != children@[k as int]);
                }
                return false;
            }
            k += 1;
        }
        proof {
            assert forall|q: int| 0 <= q < children@.len() implies self@.node_children(i as int)[q]
                == children@[q] by {
                assert(self@.children[start + q] == children@[q]);
            }
            assert(self@.node_children(i as int) =~= children@);
        }
        true
    }

    /// Inserts a node, deduplicating on occupancy and children together: if an
    /// identical node exists, returns its index and stores nothing.
    pub fn insert(&mut self, occupancy: u64, children: &[u32]) -> (r: u32)
        requires
            old(self).wf(),
            old(self)@.node_count() < u32::MAX,
            !(exists|i: int|
                0 <= i < old(self)@.node_count() && node_is(old(self)@, i, occupancy, children@))
                ==> positions_fit(
                old(self)@.children.len() + children@.len() as int,
                width_after_all(old(self).child_width(), children@) as int,
            ),
        ensures
            final(self).wf(),
            (r as int) < final(self)@.node_count(),
            node_is(final(self)@, r as int, occupancy, children@),
            (exists|i: int| 0 <= i < old(self)@.node_count() && node_is(old(self)@, i, occupancy, children@))
                ==> final(self)@ == old(self)@ && final(self).child_width() == old(self).child_width()
                && (r as int) < old(self)@.node_count() && node_is(
                old(self)@,
                r as int,
                occupancy,
                children@,
            ),
            !(exists|i: int|
                0 <= i < old(self)@.node_count() && node_is(old(self)@, i, occupancy, children@))
                ==> {
                &&& r == old(self)@.node_count()
                &&& final(self)@.occupancy == old(self)@.occupancy.push(occupancy)
                &&& final(self)@.children_start == old(self)@.children_start.push(
                    old(self)@.children.len() as u32,
                )
                &&& final(self)@.children == old(self)@.children + children@
                &&& final(self).child_width() == width_after_all(old(self).child_width(), children@)
            },
    {
        let hash = crate::dag::hash_node(occupancy, children);
        match self.lookup.get(&hash) {
            Some(indices) => {
                let mut k: usize = 0;
                while k < indices.len()
                    invariant
                        self.wf(),
                        self.lookup@.contains_key(hash),
                        indices@ == self.lookup@[hash]@,
                        hash == node_hash(occupancy, children@),
                        k <= indices@.len(),
                        forall|q: int|
                            0 <= q < k ==> !node_is(self@, indices@[q] as int, occupancy, children@),
                    decreases indices.len() - k,
                {
                    let i = indices[k];
                    assert(self.lookup@[hash]@[k as int] == i);
                    if self.node_matches(i, occupancy, children) {
                        return i;
                    }
                    k += 1;
                }
                proof {
                    assert forall|j: int| 0 <= j < self@.node_count() implies !node_is(
                        self@,
                        j,
                        occupancy,
                        children@,
                    ) by {
                        if node_is(self@, j, occupancy, children@) {
                            assert(self.lookup@[self@.hash_of(j)]@.contains(j as u32));
                            let q = choose|q: int|
                                0 <= q < indices@.len() && indices@[q] == j as u32;
                            assert(!node_is(self@, indices@[q] as int, occupancy, children@));
                        }
                    }
                }
            },
            None => {
                proof {
                    assert forall|j: int| 0 <= j < self@.node_count() implies !node_is(
                        self@,
                        j,
                        occupancy,
                        children@,
                    ) by {
                        if node_is(self@, j, occupancy, children@) {
                            assert(self.lookup@.contains_key(self@.hash_of(j)));
                        }
                    }
                }
            },
        }
        let ghost old_level = *self;
        let start = self.children.len();
        push_all(&mut self.children, children);
        let idx = self.occupancy.len() as u32;
        self.occupancy.push(occupancy);
        self.children_start.push(start);
        let mut list = match self.lookup.get(&hash) {
            Some(v) => v.clone(),
            None => Vec::new(),
        };
        let ghost old_list = list@;
        proof {
            if old_level.lookup@.contains_key(hash) {
                assert(old_list =~= old_level.lookup@[hash]@);
            }
        }
        list.push(idx);
        self.lookup.insert(hash, list);
        proof {
            let n = old_level@.node_count();
            lemma_append_block(old_level@, self@, children@);
            assert forall|i: int| 0 <= i <= n implies #[trigger] self@.hash_of(i) == (if i < n {
                old_level@.hash_of(i)
            } else {
                hash
            }) by {
                if i < n {
                    assert(self@.node_children(i) == old_level@.node_children(i));
                }
            }
            assert forall|i: int, j: int| 0 <= i < j < self@.node_count() implies !node_is(
                self@,
                j,
                self@.occupancy[i],
                self@.node_children(i),
            ) by {
                assert(self@.node_children(i) == old_level@.node_children(i));
                if j < n {
                    assert(self@.node_children(j) == old_level@.node_children(j));
                    assert(!node_is(old_level@, j, old_level@.occupancy[i], old_level@.node_children(i)));
                } else {
                    assert(!node_is(old_level@, i, occupancy, children@));
                }
            }
            assert forall|i: int|
                0 <= i < self@.node_count() implies #[trigger] self.lookup@.contains_key(
                self@.hash_of(i),
            ) && self.lookup@[self@.hash_of(i)]@.contains(i as u32) by {
                if i < n {
                    let hi = old_level@.hash_of(i);
                    assert(old_level.lookup@.contains_key(hi));
                    if hi == hash {
                        let q = choose|q: int|
                            0 <= q < old_level.lookup@[hi]@.len() && old_level.lookup@[hi]@[q] == i as u32;
                        assert(self.lookup@[hi]@[q] == i as u32);
                    }
                } else {
                    assert(self.lookup@[hash]@[old_list.len() as int] == idx);
                }
            }
            assert forall|h: u64, k: int|
                #![trigger self.lookup@[h]@[k]]
                self.lookup@.contains_key(h) && 0 <= k < self.lookup@[h]@.len() implies self.lookup@[h]@[k]
                < self@.node_count() && self@.hash_of(self.lookup@[h]@[k] as int) == h by {
                if h == hash {
                    if k < old_list.len() {
                        assert(old_level.lookup@.contains_key(h));
                        assert(old_level.lookup@[h]@[k] == self.lookup@[h]@[k]);
                    }
                } else {
                    assert(old_level.lookup@[h]@[k] == self.lookup@[h]@[k]);
                }
            }
        }
        idx
    }
}

impl Default for MaterialDagLevel {
    fn default() -> (r: Self)
        ensures
            r.wf(),
            r@.node_count() == 0,
    {
        Self::new()
    }
}

/// Per-root data for a material DAG section: the root node, this root's local
/// voxel palette and the width of its indices, and the logical entry in the
/// bottom level's children where its leaves begin.
/// In a well-formed level, which every operation keeps, no node occurs
/// twice: equal occupancy and children mean the same index.
pub proof fn lemma_one_index_per_node(l: &MaterialDagLevel, i: int, j: int)
    requires
        l.wf(),
        0 <= i < l@.node_count(),
        0 <= j < l@.node_count(),
        node_is(l@, j, l@.occupancy[i], l@.node_children(i)),
    ensures
        i == j,
{
    if j < i {
        assert(l@.occupancy[j] == l@.occupancy[i]);
        assert(node_is(l@, i, l@.occupancy[j], l@.node_children(j)));
    }
}

pub struct MaterialDagRoot {
    pub root_node_index: u32,
    pub lut_index_bits: u8,
    pub lut_entries: Vec<u32>,
    pub leaf_start: u32,
}

} // verus!
