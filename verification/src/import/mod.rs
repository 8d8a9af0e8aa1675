//! Import-side data: voxel samples in Morton order and their culling.
pub mod cull;
pub mod palette;
pub mod partition;
pub mod voxelize;

use vstd::prelude::*;

verus! {

use crate::lattice::voxel::Voxel;

/// One voxelized sample: its Morton-ordered position within a chunk and its
/// voxel value.
#[derive(Clone, Copy)]
pub struct VoxelSample {
    pub morton: u64,
    pub voxel: Voxel,
}

/// What an import tells its consumers about the chunk grid: the side of a
/// chunk in voxels and the grid's size in chunks along x, y and z.
#[derive(Clone, Copy)]
pub struct ImportInfo {
    pub chunk_voxels: u32,
    pub grid_dims: [u32; 3],
}

} // verus!
