//! Binning of triangles into the chunks of the import grid.
use vstd::prelude::*;

verus! {

/// For each chunk of the grid (x fastest), the indices of the triangles whose
/// bounding box overlaps it.
pub struct PartitionMap {
    pub dims: [u32; 3],
    pub bins: Vec<Vec<usize>>,
}

} // verus!
