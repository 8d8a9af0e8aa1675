//! Chunk-side data: player voxel edits and the chunk's material table.
pub mod edit;
pub mod material;

pub use edit::VoxelEdit;
pub use material::MaterialTable;

use vstd::prelude::*;

verus! {

/// Depth of a chunk tree.
pub const DEPTH: u8 = 4;

/// Voxels along one side of a chunk: 4^DEPTH.
pub const SIDE: u32 = 256;

/// A chunk side spans 4^DEPTH voxels, since each tree level splits a side in
/// four.
pub proof fn lemma_side_is_four_to_depth()
    ensures
        SIDE as int == vstd::arithmetic::power::pow(4, DEPTH as nat),
{
    reveal_with_fuel(vstd::arithmetic::power::pow, 5);
}

} // verus!
