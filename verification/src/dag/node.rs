//! Child entries of a DAG node: a high flag bit marks an entry that names a
//! material instead of a node of the next level.
use vstd::prelude::*;

verus! {

use crate::bits::{popcount, u64_count_ones};

/// High bit of a `u32` child entry. When set, the lower bits are a material
/// index; when clear, they index the next level's node pool. A flagged child
/// at any level means its whole subtree has that one material.
pub const LEAF_FLAG: u32 = 0x8000_0000;

pub fn is_leaf_ref(child: u32) -> (r: bool)
    ensures
        r == (child >= LEAF_FLAG),
{
    assert(child & 0x8000_0000u32 != 0 <==> child >= 0x8000_0000u32) by (bit_vector);
    child & LEAF_FLAG != 0
}

/// Material index of a leaf child entry: the entry without its flag bit.
pub fn leaf_index(child: u32) -> (r: u32)
    ensures
        r == child % 0x8000_0000,
{
    assert(child & !0x8000_0000u32 == child % 0x8000_0000) by (bit_vector);
    child & !LEAF_FLAG
}

/// A child entry that names material `idx`.
pub fn make_leaf_ref(idx: u32) -> (r: u32)
    ensures
        r == (idx % 0x8000_0000) + 0x8000_0000,
        r >= LEAF_FLAG,
{
    assert(idx | 0x8000_0000u32 == (idx % 0x8000_0000) + 0x8000_0000) by (bit_vector);
    idx | LEAF_FLAG
}

/// A leaf entry made from an index below the flag bit is a leaf and reads
/// back that index (`is_leaf_ref`, `leaf_index` and `make_leaf_ref`, over their contracts).
pub proof fn lemma_leaf_roundtrip(idx: u32)
    requires
        idx < LEAF_FLAG,
    ensures
        (idx % 0x8000_0000) + 0x8000_0000 >= LEAF_FLAG,
        (((idx % 0x8000_0000) + 0x8000_0000) as u32) % 0x8000_0000 == idx,
{
}

/// Number of occupied child slots of a node's occupancy mask.
pub fn child_count(occupancy: u64) -> (r: u32)
    ensures
        r as nat == popcount(occupancy),
{
    u64_count_ones(occupancy)
}

} // verus!
