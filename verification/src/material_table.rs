//! Per-chunk table of unique voxel values; every material index in a chunk's
//! tree indexes into it.
use vstd::prelude::*;

verus! {

use crate::lattice::voxel::Voxel;
use crate::dag::index_bits;
use crate::bits::width_needed;

/// Index of the first occurrence of `v` in `s`, if any.
pub open spec fn first_index_of<T>(s: Seq<T>, v: T) -> int {
    choose|i: int| 0 <= i < s.len() && s[i] == v && forall|j: int| 0 <= j < i ==> s[j] != v
}

/// The width of `count` indices is the width needed by the largest index.
pub proof fn lemma_index_bits_width(count: nat)
    requires
        count <= u32::MAX,
    ensures
        index_bits(count) == width_needed(if count == 0 { 0 } else { (count - 1) as u32 }),
{
}

/// A second `get_or_insert` of the same voxel returns the index the first one
/// returned and leaves the table as the first one left it.
pub proof fn lemma_get_or_insert_idempotent(s: Seq<Voxel>, v: Voxel)
    ensures
        ({
            let s1 = if s.contains(v) { s } else { s.push(v) };
            let r1 = if s.contains(v) { first_index_of(s, v) } else { s.len() as int };
            s1.contains(v) && first_index_of(s1, v) == r1
        }),
{
    if s.contains(v) {
        let k = choose|k: int| 0 <= k < s.len() && s[k] == v;
        lemma_first_index_exists(s, v, k);
    } else {
        let s1 = s.push(v);
        assert(s1[s.len() as int] == v);
        lemma_first_index_exists(s1, v, s.len() as int);
        let f = first_index_of(s1, v);
        if f < s.len() {
            assert(s[f] == v);
        }
    }
}

/// `first_index_of` finds an occurrence with none before it.
pub proof fn lemma_first_index_exists<T>(s: Seq<T>, v: T, k: int)
    requires
        0 <= k < s.len(),
        s[k] == v,
    ensures
        0 <= first_index_of(s, v) <= k,
        s[first_index_of(s, v)] == v,
        forall|j: int| 0 <= j < first_index_of(s, v) ==> s[j] != v,
    decreases k,
{
    if exists|j: int| 0 <= j < k && s[j] == v {
        let j = choose|j: int| 0 <= j < k && s[j] == v;
        lemma_first_index_exists(s, v, j);
    } else {
        assert(0 <= k < s.len() && s[k] == v && forall|j: int| 0 <= j < k ==> s[j] != v);
    }
}

/// Looks `voxel` up from the front of `values`.
pub(crate) fn find_voxel(values: &Vec<Voxel>, voxel: Voxel) -> (r: Option<usize>)
    ensures
        r matches Some(i) ==> i < values@.len() && values@[i as int] == voxel && forall|j: int|
            0 <= j < i ==> values@[j] != voxel,
        r is None ==> !values@.contains(voxel),
{
    let mut i: usize = 0;
    while i < values.len()
        invariant
            i <= values@.len(),
            forall|j: int| 0 <= j < i ==> values@[j] != voxel,
        decreases values@.len() - i,
    {
        if values[i] == voxel {
            return Some(i);
        }
        i += 1;
    }
    None
}

/// Per-chunk unique voxel values. Index width scales with table size: a
/// chunk with 16 unique voxels uses 4-bit indices.
pub struct MaterialTable {
    pub values: Vec<Voxel>,
}

impl MaterialTable {
    pub fn new() -> (r: Self)
        ensures
            r.values@.len() == 0,
    {
        MaterialTable { values: Vec::new() }
    }

    /// Returns the index of an existing entry equal to `voxel` (the first
    /// one), or appends `voxel` and returns its index.
    pub fn get_or_insert(&mut self, voxel: Voxel) -> (r: u32)
        requires
            old(self).values@.len() < u32::MAX,
        ensures
            old(self).values@.contains(voxel) ==> final(self).values@ == old(self).values@ && r
                == first_index_of(old(self).values@, voxel),
            !old(self).values@.contains(voxel) ==> final(self).values@ == old(self).values@.push(
                voxel,
            ) && r == old(self).values@.len(),
            final(self).values@[r as int] == voxel,
    {
        match find_voxel(&self.values, voxel) {
            Some(i) => {
                proof {
                    let f = first_index_of(self.values@, voxel);
                    assert(self.values@.contains(voxel));
                    if f < i {
                        assert(self.values@[f] != voxel);
                    } else if f > i {
                        assert(self.values@[i as int] != voxel);
                    }
                }
                i as u32
            },
            None => {
                let idx = self.values.len() as u32;
                self.values.push(voxel);
                idx
            },
        }
    }

    pub fn get(&self, index: u32) -> (r: Voxel)
        requires
            (index as int) < self.values@.len(),
        ensures
            r == self.values@[index as int],
    {
        self.values[index as usize]
    }

    pub fn len(&self) -> (r: u32)
        requires
            self.values@.len() <= u32::MAX,
        ensures
            r == self.values@.len(),
    {
        self.values.len() as u32
    }

    pub fn is_empty(&self) -> (r: bool)
        ensures
            r == (self.values@.len() == 0),
    {
        self.values.is_empty()
    }

    /// Bits per index: ceil(log2(len)) rounded up to a power of two, at
    /// least 1.
    pub fn bit_width(&self) -> (r: u8)
        requires
            self.values@.len() <= u32::MAX,
        ensures
            r == index_bits(self.values@.len()),
    {
        let n = self.len();
        proof {
            lemma_index_bits_width(n as nat);
        }
        crate::bitpacked::BitpackedArray::min_bits(n)
    }
}

impl Default for MaterialTable {
    fn default() -> (r: Self)
        ensures
            r.values@.len() == 0,
    {
        Self::new()
    }
}

} // verus!
