//! A node of the 64-tree and the flag that marks leaf child entries.
use vstd::prelude::*;

verus! {

use crate::bits::{popcount, u64_count_ones};

/// A node in the 64-tree. The occupancy mask has one bit per child slot; the
/// children are packed in the level's flat array from `children_start`, and
/// their count is the number of set bits of the mask.
#[derive(Clone, Copy, PartialEq, Eq, Structural, Debug)]
pub struct Node {
    pub occupancy: u64,
    pub children_start: u32,
}

impl Node {
    pub fn child_count(&self) -> (r: u32)
        ensures
            r as nat == popcount(self.occupancy),
    {
        u64_count_ones(self.occupancy)
    }
}

/// High bit of a `u32` child entry. When set, the lower 31 bits index the
/// leaf pool; when clear, they index the next level's node pool. A flagged
/// child means every voxel of its subtree has that one leaf's data.
pub const LEAF_FLAG: u32 = 0x8000_0000;

pub fn is_leaf_ref(child: u32) -> (r: bool)
    ensures
        r == (child >= LEAF_FLAG),
{
    assert(child & 0x8000_0000u32 != 0 <==> child >= 0x8000_0000u32) by (bit_vector);
    child & LEAF_FLAG != 0
}

/// Leaf pool index of a leaf child entry: the entry without its flag bit.
pub fn leaf_index(child: u32) -> (r: u32)
    ensures
        r == child % 0x8000_0000,
{
    assert(child & !0x8000_0000u32 == child % 0x8000_0000) by (bit_vector);
    child & !LEAF_FLAG
}

/// A child entry that points to leaf `idx`.
pub fn make_leaf_ref(idx: u32) -> (r: u32)
    ensures
        r == (idx % 0x8000_0000) + 0x8000_0000,
        r >= LEAF_FLAG,
{
    assert(idx | 0x8000_0000u32 == (idx % 0x8000_0000) + 0x8000_0000) by (bit_vector);
    idx | LEAF_FLAG
}

} // verus!
