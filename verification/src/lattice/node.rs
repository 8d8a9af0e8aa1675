//! Child entries of an SVO node: a high flag bit marks an entry holding a
//! palette index instead of a pointer to a node of the next level.
use vstd::prelude::*;

verus! {

use crate::bits::{popcount, u64_count_ones};

/// High bit of a `u32` child entry. When set, the lower bits are an index
/// into the chunk's palette (a uniform subtree or an LOD terminal); when
/// clear, they point into the next level's node pool.
pub const LEAF_FLAG: u32 = 0x8000_0000;

pub fn is_leaf(child: u32) -> (r: bool)
    ensures
        r == (child >= LEAF_FLAG),
{
    assert(child & 0x8000_0000u32 != 0 <==> child >= 0x8000_0000u32) by (bit_vector);
    child & LEAF_FLAG != 0
}

/// The value of a leaf child entry: the entry without its flag bit.
pub fn leaf_value(child: u32) -> (r: u32)
    ensures
        r == child % 0x8000_0000,
{
    assert(child & !0x8000_0000u32 == child % 0x8000_0000) by (bit_vector);
    child & !LEAF_FLAG
}

/// A child entry holding `value` as a leaf.
pub fn make_leaf(value: u32) -> (r: u32)
    ensures
        r == (value % 0x8000_0000) + 0x8000_0000,
        r >= LEAF_FLAG,
{
    assert(value | 0x8000_0000u32 == (value % 0x8000_0000) + 0x8000_0000) by (bit_vector);
    value | LEAF_FLAG
}

/// A leaf entry made from an index below the flag bit is a leaf and reads
/// back that index (`is_leaf`, `leaf_value` and `make_leaf`, over their contracts).
pub proof fn lemma_leaf_roundtrip(idx: u32)
    requires
        idx < LEAF_FLAG,
    ensures
        (idx % 0x8000_0000) + 0x8000_0000 >= LEAF_FLAG,
        (((idx % 0x8000_0000) + 0x8000_0000) as u32) % 0x8000_0000 == idx,
{
}

pub fn child_count(occupancy: u64) -> (r: u32)
    ensures
        r as nat == popcount(occupancy),
{
    u64_count_ones(occupancy)
}

} // verus!
