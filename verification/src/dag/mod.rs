//! A world-scale 64-tree DAG whose levels deduplicate nodes by content hash.
pub mod node;
pub mod voxel;

pub use node::{LEAF_FLAG, child_count, is_leaf_ref, leaf_index, make_leaf_ref};
pub use voxel::{ColorPalette, Voxel};

use std::collections::HashMap;
use std::collections::hash_map::DefaultHasher;
use std::hash::{Hash, Hasher};
use vstd::prelude::*;

verus! {

use crate::bits::{popcount, next_pow2_u8, u8_next_power_of_two};
use vstd::arithmetic::power2::pow2;
use vstd::std_specs::hash::DefaultHasherAdditionalSpecFns;

broadcast use vstd::std_specs::hash::group_hash_axioms;

/// Name for the state a `DefaultHasher` in state `state` is in after
/// `<u64 as Hash>::hash` feeds it `x`.
pub uninterp spec fn u64_hashed(state: Seq<Seq<u8>>, x: u64) -> Seq<Seq<u8>>;

/// Name for the state a `DefaultHasher` in state `state` is in after
/// `<u32 as Hash>::hash` feeds it `x`.
pub uninterp spec fn u32_hashed(state: Seq<Seq<u8>>, x: u32) -> Seq<Seq<u8>>;

/// Name for the state a `DefaultHasher` in state `state` is in after
/// `<[u32] as Hash>::hash` feeds it the slice `s`.
pub uninterp spec fn u32_slice_hashed(state: Seq<Seq<u8>>, s: Seq<u32>) -> Seq<Seq<u8>>;

/// Feeds `x` into the hasher with `<u64 as Hash>::hash`. What the hasher
/// holds afterwards depends on what it held and on `x` alone; the contract
/// names it and says nothing more of it.
#[verifier::external_body]
fn feed_u64(x: u64, h: &mut DefaultHasher)
    ensures
        final(h)@ == u64_hashed(old(h)@, x),
{
    x.hash(h)
}

/// Feeds `x` into the hasher with `<u32 as Hash>::hash`; the contract names
/// the hasher's new state as a function of the old one and `x`.
#[verifier::external_body]
fn feed_u32(x: u32, h: &mut DefaultHasher)
    ensures
        final(h)@ == u32_hashed(old(h)@, x),
{
    x.hash(h)
}

/// Feeds the slice `s` into the hasher with `<[u32] as Hash>::hash`; the
/// contract names the hasher's new state as a function of the old one and
/// the slice's contents.
#[verifier::external_body]
fn feed_u32_slice(s: &[u32], h: &mut DefaultHasher)
    ensures
        final(h)@ == u32_slice_hashed(old(h)@, s@),
{
    s.hash(h)
}

/// The content hash of a node: a fresh `DefaultHasher` (whose keys are
/// fixed) fed the occupancy mask, then the child entries, then finished.
pub open spec fn node_hash(occupancy: u64, children: Seq<u32>) -> u64 {
    DefaultHasher::spec_finish(
        u32_slice_hashed(u64_hashed(Seq::<Seq<u8>>::empty(), occupancy), children),
    )
}

/// The hash of a voxel: a fresh `DefaultHasher` fed its packed word.
pub open spec fn voxel_hash(voxel: u32) -> u64 {
    DefaultHasher::spec_finish(u32_hashed(Seq::<Seq<u8>>::empty(), voxel))
}

/// Hashes a node: its occupancy mask, then its child slice.
pub(crate) fn hash_node(occupancy: u64, children: &[u32]) -> (r: u64)
    ensures
        r == node_hash(occupancy, children@),
{
    let mut h = DefaultHasher::new();
    feed_u64(occupancy, &mut h);
    feed_u32_slice(children, &mut h);
    h.finish()
}

/// Hashes a voxel's packed word.
fn hash_voxel(voxel: Voxel) -> (r: u64)
    ensures
        r == voxel_hash(voxel.0),
{
    let mut h = DefaultHasher::new();
    feed_u32(voxel.0, &mut h);
    h.finish()
}

/// Calls `usize::leading_zeros`: the number of leading zero bits of `x` in
/// its `usize::BITS`-bit representation.
#[verifier::external_body]
pub(crate) fn usize_leading_zeros(x: usize) -> (r: u32)
    ensures
        r <= usize::BITS,
        (x as int) < pow2((usize::BITS - r) as nat),
        r < usize::BITS ==> pow2((usize::BITS - r - 1) as nat) <= x,
{
    x.leading_zeros()
}

/// The contents of a level: its per-node arrays and its child entries.
pub struct LevelModel {
    pub occupancy: Seq<u64>,
    pub voxel_count: Seq<u32>,
    pub children_start: Seq<u32>,
    pub children: Seq<u32>,
}

impl LevelModel {
    /// Number of nodes.
    pub open spec fn node_count(self) -> int {
        self.occupancy.len() as int
    }

    /// Where the child block of node `i` ends: the next node's start, or the
    /// end of the children array for the last node.
    pub open spec fn node_end(self, i: int) -> int {
        if i + 1 < self.node_count() {
            self.children_start[i + 1] as int
        } else {
            self.children.len() as int
        }
    }

    /// The child entries that were inserted with node `i`.
    pub open spec fn node_children(self, i: int) -> Seq<u32> {
        self.children.subrange(self.children_start[i] as int, self.node_end(i))
    }

    /// Content hash of node `i`.
    pub open spec fn hash_of(self, i: int) -> u64 {
        node_hash(self.occupancy[i], self.node_children(i))
    }

    /// The per-node arrays agree in length, child blocks are laid out back to
    /// back, and no two nodes have the same occupancy and children.
    pub open spec fn layout_ok(self) -> bool {
        &&& self.voxel_count.len() == self.node_count()
        &&& self.children_start.len() == self.node_count()
        &&& self.node_count() > 0 ==> self.children_start[0] == 0
        &&& self.node_count() == 0 ==> self.children.len() == 0
        &&& forall|i: int|
            0 <= i < self.node_count() ==> #[trigger] self.children_start[i] <= self.node_end(i)
                && self.children_start[i] <= self.children.len()
        &&& self.children.len() <= u32::MAX
        &&& self.node_count() <= u32::MAX
        &&& forall|i: int, j: int|
            0 <= i < j < self.node_count() ==> !self.node_is(
                j,
                self.occupancy[i],
                self.node_children(i),
            )
    }

    /// Node `i` has this occupancy mask and these child entries.
    pub open spec fn node_is(self, i: int, occupancy: u64, children: Seq<u32>) -> bool {
        self.occupancy[i] == occupancy && self.node_children(i) == children
    }
}

/// One interior level of the 64-tree, in struct-of-arrays layout: field `k`
/// of node `i` is element `i` of that field's array. Every insert looks the
/// node up by its content hash and returns the existing node when one with
/// the same occupancy and children is there.
pub struct Level {
    pub occupancy: Vec<u64>,
    pub voxel_count: Vec<u32>,
    pub children_start: Vec<u32>,
    pub children: Vec<u32>,
    dedup: HashMap<u64, Vec<u32>>,
}

impl View for Level {
    type V = LevelModel;

    closed spec fn view(&self) -> LevelModel {
        LevelModel {
            occupancy: self.occupancy@,
            voxel_count: self.voxel_count@,
            children_start: self.children_start@,
            children: self.children@,
        }
    }
}

impl Level {
    /// The level's layout holds and its hash table lists exactly each node's
    /// index under the node's content hash.
    pub closed spec fn wf(&self) -> bool {
        &&& self@.layout_ok()
        &&& forall|i: int|
            0 <= i < self@.node_count() ==> #[trigger] self.dedup@.contains_key(self@.hash_of(i))
                && self.dedup@[self@.hash_of(i)]@.contains(i as u32)
        &&& forall|h: u64, k: int|
            #![trigger self.dedup@[h]@[k]]
            self.dedup@.contains_key(h) && 0 <= k < self.dedup@[h]@.len() ==> self.dedup@[h]@[k]
                < self@.node_count() && self@.hash_of(self.dedup@[h]@[k] as int) == h
    }

    pub fn new() -> (r: Self)
        ensures
            r.wf(),
            r@.node_count() == 0,
            r@.children.len() == 0,
    {
        Self {
            occupancy: Vec::new(),
            voxel_count: Vec::new(),
            children_start: Vec::new(),
            children: Vec::new(),
            dedup: HashMap::new(),
        }
    }

    pub fn len(&self) -> (r: usize)
        ensures
            r == self@.node_count(),
    {
        self.occupancy.len()
    }

    /// Whether node `i` has exactly this occupancy and these children.
    fn node_matches(&self, i: u32, occupancy: u64, children: &[u32]) -> (r: bool)
        requires
            self.wf(),
            (i as int) < self@.node_count(),
        ensures
            r == self@.node_is(i as int, occupancy, children@),
    {
        if self.occupancy[i as usize] != occupancy {
            return false;
        }
        let n = self.occupancy.len();
        let start = self.children_start[i as usize] as usize;
        let end = if (i as usize) + 1 < n {
            self.children_start[i as usize + 1] as usize
        } else {
            self.children.len()
        };
        proof {
            assert(self@.children_start[i as int] <= self@.node_end(i as int));
            assert(end == self@.node_end(i as int));
        }
        if end - start != children.len() {
            proof {
                assert(self@.node_children(i as int).len() != children@.len());
            }
            return false;
        }
        let mut k: usize = 0;
        while k < end - start
            invariant
                self.wf(),
                start == self@.children_start[i as int],
                end == self@.node_end(i as int),
                start <= end <= self@.children.len(),
                end - start == children@.len(),
                k <= end - start,
                forall|q: int| 0 <= q < k ==> #[trigger] self@.children[start + q] == children@[q],
            decreases end - start - k,
        {
            if self.children[start + k] != children[k] {
                proof {
                    assert(self@.node_children(i as int)[k as int] != children@[k as int]);
                }
                return false;
            }
            k += 1;
        }
        proof {
            assert forall|q: int| 0 <= q < children@.len() implies self@.node_children(i as int)[q]
                == children@[q] by {
                assert(self@.children[start + q] == children@[q]);
            }
            assert(self@.node_children(i as int) =~= children@);
        }
        true
    }

    /// Inserts a node and returns its index. If a node with the same
    /// occupancy and children is already in the level, returns that node's
    /// index and changes nothing; the voxel count is not part of the key.
    pub fn insert(&mut self, occupancy: u64, voxel_count: u32, children: &[u32]) -> (r: u32)
        requires
            old(self).wf(),
            old(self)@.children.len() + children@.len() <= u32::MAX,
            old(self)@.node_count() < u32::MAX,
        ensures
            final(self).wf(),
            (r as int) < final(self)@.node_count(),
            final(self)@.node_is(r as int, occupancy, children@),
            (exists|i: int| 0 <= i < old(self)@.node_count() && old(self)@.node_is(i, occupancy, children@))
                ==> final(self)@ == old(self)@ && (r as int) < old(self)@.node_count()
                && old(self)@.node_is(r as int, occupancy, children@),
            !(exists|i: int|
                0 <= i < old(self)@.node_count() && old(self)@.node_is(i, occupancy, children@)) ==> {
                &&& r == old(self)@.node_count()
                &&& final(self)@.occupancy == old(self)@.occupancy.push(occupancy)
                &&& final(self)@.voxel_count == old(self)@.voxel_count.push(voxel_count)
                &&& final(self)@.children_start == old(self)@.children_start.push(
                    old(self)@.children.len() as u32,
                )
                &&& final(self)@.children == old(self)@.children + children@
            },
    {
        let hash = hash_node(occupancy, children);
        match self.dedup.get(&hash) {
            Some(indices) => {
                let mut k: usize = 0;
                while k < indices.len()
                    invariant
                        self.wf(),
                        self.dedup@.contains_key(hash),
                        indices@ == self.dedup@[hash]@,
                        hash == node_hash(occupancy, children@),
                        k <= indices@.len(),
                        forall|q: int|
                            0 <= q < k ==> !self@.node_is(indices@[q] as int, occupancy, children@),
                    decreases indices.len() - k,
                {
                    let i = indices[k];
                    assert(self.dedup@[hash]@[k as int] == i);
                    if self.node_matches(i, occupancy, children) {
                        return i;
                    }
                    k += 1;
                }
                proof {
                    assert forall|j: int| 0 <= j < self@.node_count() implies !self@.node_is(
                        j,
                        occupancy,
                        children@,
                    ) by {
                        if self@.node_is(j, occupancy, children@) {
                            assert(self.dedup@[self@.hash_of(j)]@.contains(j as u32));
                            let q = choose|q: int|
                                0 <= q < indices@.len() && indices@[q] == j as u32;
                            assert(!self@.node_is(indices@[q] as int, occupancy, children@));
                        }
                    }
                }
            },
            None => {
                proof {
                    assert forall|j: int| 0 <= j < self@.node_count() implies !self@.node_is(
                        j,
                        occupancy,
                        children@,
                    ) by {
                        if self@.node_is(j, occupancy, children@) {
                            assert(self.dedup@.contains_key(self@.hash_of(j)));
                        }
                    }
                }
            },
        }
        let ghost old_level = *self;
        let children_start = self.children.len() as u32;
        self.children.extend_from_slice(children);
        let idx = self.occupancy.len() as u32;
        self.occupancy.push(occupancy);
        self.voxel_count.push(voxel_count);
        self.children_start.push(children_start);
        let mut list = match self.dedup.get(&hash) {
            Some(v) => v.clone(),
            None => Vec::new(),
        };
        let ghost old_list = list@;
        proof {
            if old_level.dedup@.contains_key(hash) {
                assert(old_list =~= old_level.dedup@[hash]@);
            }
        }
        list.push(idx);
        self.dedup.insert(hash, list);
        proof {
            let n = old_level@.node_count();
            assert(self@.children =~= old_level@.children + children@);
            assert forall|i: int| 0 <= i < n implies #[trigger] self@.node_children(i)
                == old_level@.node_children(i) by {
                assert(self@.node_end(i) == old_level@.node_end(i));
                assert(self@.node_children(i) =~= old_level@.node_children(i));
            }
            assert(self@.node_children(n) =~= children@);
            assert forall|i: int| 0 <= i <= n implies #[trigger] self@.hash_of(i) == (if i < n {
                old_level@.hash_of(i)
            } else {
                hash
            }) by {
                if i < n {
                    assert(self@.node_children(i) == old_level@.node_children(i));
                }
            }
            assert forall|i: int| 0 <= i < self@.node_count() implies #[trigger] self@.children_start[i]
                <= self@.node_end(i) by {
                if i < n {
                    assert(old_level@.children_start[i] <= old_level@.node_end(i));
                }
            }
            assert forall|i: int, j: int| 0 <= i < j < self@.node_count() implies !self@.node_is(
                j,
                self@.occupancy[i],
                self@.node_children(i),
            ) by {
                assert(self@.node_children(i) == old_level@.node_children(i));
                if j < n {
                    assert(self@.node_children(j) == old_level@.node_children(j));
                    assert(!old_level@.node_is(j, old_level@.occupancy[i], old_level@.node_children(i)));
                } else {
                    assert(!old_level@.node_is(i, occupancy, children@));
                }
            }
            assert(self@.layout_ok());
            assert forall|i: int|
                0 <= i < self@.node_count() implies #[trigger] self.dedup@.contains_key(
                self@.hash_of(i),
            ) && self.dedup@[self@.hash_of(i)]@.contains(i as u32) by {
                if i < n {
                    let hi = old_level@.hash_of(i);
                    assert(old_level.dedup@.contains_key(hi));
                    if hi == hash {
                        let q = choose|q: int|
                            0 <= q < old_level.dedup@[hi]@.len() && old_level.dedup@[hi]@[q] == i as u32;
                        assert(self.dedup@[hi]@[q] == i as u32);
                    }
                } else {
                    assert(self.dedup@[hash]@[old_list.len() as int] == idx);
                }
            }
            assert forall|h: u64, k: int|
                #![trigger self.dedup@[h]@[k]]
                self.dedup@.contains_key(h) && 0 <= k < self.dedup@[h]@.len() implies self.dedup@[h]@[k]
                < self@.node_count() && self@.hash_of(self.dedup@[h]@[k] as int) == h by {
                if h == hash {
                    if k < old_list.len() {
                        assert(old_level.dedup@.contains_key(h));
                        assert(old_level.dedup@[h]@[k] == self.dedup@[h]@[k]);
                    }
                } else {
                    assert(old_level.dedup@[h]@[k] == self.dedup@[h]@[k]);
                }
            }
        }
        idx
    }

    /// The child entries of node `node_idx`: `child_count(occupancy)` entries
    /// from the node's start.
    pub fn children_of(&self, node_idx: u32) -> (r: &[u32])
        requires
            self.wf(),
            (node_idx as int) < self@.node_count(),
            self@.children_start[node_idx as int] as int + popcount(
                self@.occupancy[node_idx as int],
            ) <= self@.children.len(),
        ensures
            r@ == self@.children.subrange(
                self@.children_start[node_idx as int] as int,
                self@.children_start[node_idx as int] as int + popcount(
                    self@.occupancy[node_idx as int],
                ),
            ),
    {
        let start = self.children_start[node_idx as usize] as usize;
        let count = child_count(self.occupancy[node_idx as usize]) as usize;
        let total = self.children.len();
        assert(start + count <= total);
        let end = start + count;
        vstd::slice::slice_subrange(self.children.as_slice(), start, end)
    }
}

/// Least power-of-two number of bits that holds the indices `0..n`, at least 1.
pub open spec fn index_bits(n: nat) -> u8 {
    if n <= 2 {
        1
    } else if n <= 4 {
        2
    } else if n <= 16 {
        4
    } else if n <= 256 {
        8
    } else if n <= 65536 {
        16
    } else if n <= 0x1_0000_0000 {
        32
    } else {
        64
    }
}

/// Index widths are powers of two that scale with the table: for `n` indices
/// (`1 <= n <= 2^32`), `index_bits(n)` is the least of 1, 2, 4, 8, 16, 32
/// bits that holds index `n - 1`; 16 indices take 4 bits, 17 take 8.
pub proof fn lemma_index_bits_least(n: nat)
    requires
        1 <= n <= 0x1_0000_0000,
    ensures
        crate::bits::valid_width(index_bits(n)),
        n <= pow2(index_bits(n) as nat),
        forall|w: u8| crate::bits::valid_width(w) && w < index_bits(n) ==> pow2(w as nat) < n,
{
    vstd::arithmetic::power2::lemma2_to64();
    vstd::arithmetic::power2::lemma2_to64_rest();
}

/// In a well-formed level, which every operation keeps, no node occurs
/// twice: equal occupancy and children mean the same index, so inserting a
/// node twice yields one index.
pub proof fn lemma_one_index_per_node(l: &Level, i: int, j: int)
    requires
        l.wf(),
        0 <= i < l@.node_count(),
        0 <= j < l@.node_count(),
        l@.node_is(j, l@.occupancy[i], l@.node_children(i)),
    ensures
        i == j,
{
    if j < i {
        assert(l@.occupancy[j] == l@.occupancy[i]);
        assert(l@.node_is(i, l@.occupancy[j], l@.node_children(j)));
    }
}

/// In a well-formed level, which every operation keeps, the per-node arrays
/// agree in length (one occupancy mask, voxel count and child start per
/// node), child blocks lie back to back, and no two nodes have the same
/// occupancy and children.
pub proof fn lemma_level_layout(l: &Level)
    requires
        l.wf(),
    ensures
        l@.layout_ok(),
{
}

/// A node stored with as many children as its occupancy has set bits reads
/// them back through `children_of`.
pub proof fn lemma_children_of_node(l: &Level, i: int, occupancy: u64, children: Seq<u32>)
    requires
        l.wf(),
        0 <= i < l@.node_count(),
        l@.node_is(i, occupancy, children),
        popcount(occupancy) == children.len(),
    ensures
        l@.children_start[i] as int + popcount(l@.occupancy[i]) <= l@.children.len(),
        l@.children.subrange(
            l@.children_start[i] as int,
            l@.children_start[i] as int + popcount(l@.occupancy[i]),
        ) == children,
{
    assert(l@.children_start[i] <= l@.node_end(i));
}

/// In a well-formed material table, which every operation keeps, each
/// material occurs once: it has a single index.
pub proof fn lemma_one_index_per_material(t: &MaterialLut, i: int, j: int)
    requires
        t.wf(),
        0 <= i < t@.len(),
        0 <= j < t@.len(),
        t@[i] == t@[j],
    ensures
        i == j,
{
}

/// The deduplicated table of voxel materials of a DAG.
pub struct MaterialLut {
    pub data: Vec<Voxel>,
    dedup: HashMap<u64, Vec<u32>>,
}

impl View for MaterialLut {
    type V = Seq<Voxel>;

    /// The materials, in insertion order.
    closed spec fn view(&self) -> Seq<Voxel> {
        self.data@
    }
}

impl MaterialLut {
    /// No material occurs twice, and the hash table lists exactly the index
    /// of each material under that material's hash.
    pub closed spec fn wf(&self) -> bool {
        &&& self.data@.len() <= u32::MAX
        &&& forall|i: int, j: int|
            0 <= i < j < self.data@.len() ==> self.data@[i] != self.data@[j]
        &&& forall|i: int|
            0 <= i < self.data@.len() ==> #[trigger] self.dedup@.contains_key(
                voxel_hash(self.data@[i].0),
            ) && self.dedup@[voxel_hash(self.data@[i].0)]@.contains(i as u32)
        &&& forall|h: u64, k: int|
            #![trigger self.dedup@[h]@[k]]
            self.dedup@.contains_key(h) && 0 <= k < self.dedup@[h]@.len()
                ==> self.dedup@[h]@[k] < self.data@.len() && voxel_hash(
                self.data@[self.dedup@[h]@[k] as int].0,
            ) == h
    }

    pub fn new() -> (r: Self)
        ensures
            r.wf(),
            r@.len() == 0,
    {
        Self { data: Vec::new(), dedup: HashMap::new() }
    }

    /// Returns the index of `voxel` in the table, appending it first if it is
    /// not there.
    pub fn insert(&mut self, voxel: Voxel) -> (r: u32)
        requires
            old(self).wf(),
            old(self)@.len() < u32::MAX,
        ensures
            final(self).wf(),
            old(self)@.contains(voxel) ==> final(self)@ == old(self)@ && (r as int)
                < old(self)@.len() && old(self)@[r as int] == voxel,
            !old(self)@.contains(voxel) ==> final(self)@ == old(self)@.push(voxel)
                && r == old(self)@.len(),
            final(self)@[r as int] == voxel,
    {
        let hash = hash_voxel(voxel);
        match self.dedup.get(&hash) {
            Some(indices) => {
                let mut k: usize = 0;
                while k < indices.len()
                    invariant
                        self.wf(),
                        self.dedup@.contains_key(hash),
                        indices@ == self.dedup@[hash]@,
                        hash == voxel_hash(voxel.0),
                        k <= indices@.len(),
                        forall|q: int| 0 <= q < k ==> self.data@[indices@[q] as int] != voxel,
                    decreases indices.len() - k,
                {
                    let i = indices[k];
                    assert(self.dedup@[hash]@[k as int] == i);
                    if self.data[i as usize] == voxel {
                        return i;
                    }
                    k += 1;
                }
                proof {
                    assert forall|j: int| 0 <= j < self.data@.len() implies self.data@[j] != voxel by {
                        if self.data@[j] == voxel {
                            assert(self.dedup@[voxel_hash(self.data@[j].0)]@.contains(j as u32));
                            let q = choose|q: int|
                                0 <= q < indices@.len() && indices@[q] == j as u32;
                            assert(self.data@[indices@[q] as int] != voxel);
                        }
                    }
                }
            },
            None => {
                proof {
                    assert forall|j: int| 0 <= j < self.data@.len() implies self.data@[j] != voxel by {
                        if self.data@[j] == voxel {
                            assert(self.dedup@.contains_key(voxel_hash(self.data@[j].0)));
                        }
                    }
                }
            },
        }
        let ghost old_lut = *self;
        let idx = self.data.len() as u32;
        self.data.push(voxel);
        let mut list = match self.dedup.get(&hash) {
            Some(v) => v.clone(),
            None => Vec::new(),
        };
        let ghost old_list = list@;
        proof {
            if old_lut.dedup@.contains_key(hash) {
                assert(old_list =~= old_lut.dedup@[hash]@);
            }
        }
        list.push(idx);
        self.dedup.insert(hash, list);
        proof {
            let n = old_lut.data@.len() as int;
            assert(!old_lut.data@.contains(voxel)) by {
                if old_lut.data@.contains(voxel) {
                    let j = choose|j: int| 0 <= j < n && old_lut.data@[j] == voxel;
                }
            }
            assert forall|i: int|
                0 <= i < self.data@.len() implies #[trigger] self.dedup@.contains_key(
                voxel_hash(self.data@[i].0),
            ) && self.dedup@[voxel_hash(self.data@[i].0)]@.contains(i as u32) by {
                if i < n {
                    let hi = voxel_hash(self.data@[i].0);
                    assert(old_lut.dedup@.contains_key(hi));
                    if hi == hash {
                        let q = choose|q: int|
                            0 <= q < old_lut.dedup@[hi]@.len() && old_lut.dedup@[hi]@[q] == i as u32;
                        assert(self.dedup@[hi]@[q] == i as u32);
                    }
                } else {
                    assert(self.dedup@[hash]@[old_list.len() as int] == idx);
                }
            }
            assert forall|h: u64, k: int|
                #![trigger self.dedup@[h]@[k]]
                self.dedup@.contains_key(h) && 0 <= k < self.dedup@[h]@.len() implies self.dedup@[h]@[k]
                < self.data@.len() && voxel_hash(self.data@[self.dedup@[h]@[k] as int].0) == h by {
                if h == hash {
                    if k < old_list.len() {
                        assert(old_lut.dedup@.contains_key(h));
                        assert(old_lut.dedup@[h]@[k] == self.dedup@[h]@[k]);
                    }
                } else {
                    assert(old_lut.dedup@[h]@[k] == self.dedup@[h]@[k]);
                }
            }
        }
        idx
    }

    /// Width of a material index: the least power-of-two number of bits that
    /// holds every index of the table, at least 1.
    pub fn mat_index_bits(&self) -> (r: u8)
        ensures
            r == index_bits(self@.len()),
    {
        let n = self.data.len();
        if n <= 2 {
            return 1;
        }
        proof {
            vstd::arithmetic::power2::lemma2_to64();
        }
        let lz = usize_leading_zeros(n - 1);
        let bits = (usize::BITS - lz) as u8;
        proof {
            lemma_index_bits((n - 1) as nat, (usize::BITS - lz) as nat);
        }
        u8_next_power_of_two(bits)
    }
}

/// With `w` significant bits in `m = n - 1`, rounding `w` up to a power of
/// two gives the index width of `n` indices.
pub(crate) proof fn lemma_index_bits(m: nat, w: nat)
    requires
        2 <= m,
        1 <= w <= 64,
        m < pow2(w),
        pow2((w - 1) as nat) <= m,
    ensures
        next_pow2_u8(w as u8) == index_bits(m + 1),
{
    vstd::arithmetic::power2::lemma2_to64();
    assert forall|t: nat| 1 <= t <= 32 implies (m < pow2(t) <==> w <= t) by {
        if w < t {
            vstd::arithmetic::power2::lemma_pow2_strictly_increases(w, t);
        } else if w > t + 1 {
            vstd::arithmetic::power2::lemma_pow2_strictly_increases(t, (w - 1) as nat);
        }
    }
    assert(m < pow2(1) <==> w <= 1);
    assert(m < pow2(2) <==> w <= 2);
    assert(m < pow2(4) <==> w <= 4);
    assert(m < pow2(8) <==> w <= 8);
    assert(m < pow2(16) <==> w <= 16);
    assert(m < pow2(32) <==> w <= 32);
}

/// The world-scale DAG: one level per tree depth, a material table and a
/// color palette.
pub struct Dag {
    pub levels: Vec<Level>,
    pub materials: MaterialLut,
    pub palette: ColorPalette,
}

impl Dag {
    /// A DAG with `depth` empty levels.
    pub fn new(depth: usize) -> (r: Self)
        ensures
            r.levels@.len() == depth,
            forall|i: int| 0 <= i < depth ==> #[trigger] r.levels@[i].wf() && r.levels@[i]@.node_count()
                == 0 && r.levels@[i]@.children.len() == 0,
            r.materials.wf(),
            r.materials@.len() == 0,
            r.palette.entries@.len() == 0,
    {
        let mut levels: Vec<Level> = Vec::new();
        let mut i: usize = 0;
        while i < depth
            invariant
                i <= depth,
                levels@.len() == i,
                forall|k: int| 0 <= k < i ==> #[trigger] levels@[k].wf() && levels@[k]@.node_count()
                    == 0 && levels@[k]@.children.len() == 0,
            decreases depth - i,
        {
            levels.push(Level::new());
            i += 1;
        }
        let r = Self { levels, materials: MaterialLut::new(), palette: ColorPalette::new() };
        assert(r.levels@ == levels@);
        r
    }
}

} // verus!
