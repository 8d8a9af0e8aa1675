//! Parsed form of the `.lattice` file header.
use vstd::prelude::*;

verus! {

/// The header at the start of a `.lattice` file.
pub struct LatticeHeader {
    pub version: u16,
    pub world_min: [i64; 3],
    pub world_max: [i64; 3],
    pub voxel_bits: u8,
    pub sections: Vec<SectionDesc>,
    pub levels: Vec<LevelDesc>,
    pub chunks: Vec<ChunkEntry>,
}

/// One section of the file.
pub struct SectionDesc {
    /// 0 = grid, 1 = geometry DAG, 2 = material DAG.
    pub layer_type: u8,
    pub lut_enabled: u8,
    pub num_levels: u8,
}

/// One tree level: the bit width of its child entries.
pub struct LevelDesc {
    pub child_bits: u8,
}

/// One chunk of the file: its tag and where its bytes lie.
pub struct ChunkEntry {
    pub tag: u32,
    pub offset: u64,
    pub size: u64,
}

} // verus!
