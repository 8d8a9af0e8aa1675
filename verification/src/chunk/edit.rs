use vstd::prelude::*;

verus! {

use crate::lattice::voxel::Voxel;

/// A player voxel edit within a chunk.
pub struct VoxelEdit {
    /// Chunk-local position: each component in [0, 255].
    pub pos: [u8; 3],
    /// The new voxel; `None` removes the voxel.
    pub voxel: Option<Voxel>,
}

} // verus!
