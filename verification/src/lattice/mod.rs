//! The in-memory lattice: a grid of chunk pointers over shared pools of SVO
//! levels.
pub mod bitpacked;
pub mod geometry_dag;
pub mod grid;
pub mod lut;
pub mod material_dag;
pub mod node;
pub mod svo;
pub mod voxel;

pub use crate::bitpacked::BitpackedArray;
pub use grid::GridLevel as Grid;
pub use lut::Lut;
pub use node::{LEAF_FLAG, child_count, is_leaf, leaf_value, make_leaf};
pub use svo::{Chunk, Level};
pub use voxel::Voxel;

use vstd::prelude::*;

verus! {

use crate::lattice::grid::cell_count;

/// A cursor over a run of entries of a packed array.
pub struct ChildIter<'a> {
    arr: &'a BitpackedArray,
    pos: u32,
    end: u32,
}

impl<'a> View for ChildIter<'a> {
    type V = Seq<u32>;

    /// The entries not yet returned.
    closed spec fn view(&self) -> Seq<u32> {
        self.arr@.subrange(self.pos as int, self.end as int)
    }
}

impl<'a> ChildIter<'a> {
    /// The run lies inside the array.
    pub closed spec fn wf(&self) -> bool {
        &&& self.arr.wf()
        &&& self.pos <= self.end <= self.arr@.len()
    }

    pub(crate) fn new(arr: &'a BitpackedArray, start: u32, end: u32) -> (r: Self)
        requires
            arr.wf(),
            start <= end <= arr@.len(),
        ensures
            r.wf(),
            r@ == arr@.subrange(start as int, end as int),
    {
        Self { arr, pos: start, end }
    }

    /// Returns the next entry of the run, or `None` once the run is done.
    pub fn next(&mut self) -> (r: Option<u32>)
        requires
            old(self).wf(),
        ensures
            final(self).wf(),
            old(self)@.len() == 0 ==> r is None && final(self)@ == old(self)@,
            old(self)@.len() > 0 ==> r == Some(old(self)@[0]) && final(self)@ == old(self)@.drop_first(),
    {
        if self.pos == self.end {
            return None;
        }
        let v = self.arr.get(self.pos);
        self.pos += 1;
        proof {
            assert(self@ =~= old(self)@.drop_first());
        }
        Some(v)
    }
}

/// The fully-built in-memory lattice: one grid of chunk pointers, all chunks
/// sharing one pool of SVO levels. `depth` is the number of SVO levels; the
/// tree covers (4^depth)^3 voxels per chunk.
pub struct Lattice {
    pub grid: Grid,
    pub depth: u8,
    pub levels: Vec<Level>,
    pub chunks: Vec<Chunk>,
}

impl Lattice {
    pub fn new(depth: u8, grid_dims: [u32; 3]) -> (r: Self)
        requires
            cell_count(grid_dims) + 32 <= u32::MAX,
            grid_dims[0] as int * grid_dims[1] as int <= u32::MAX,
        ensures
            r.grid.wf(),
            r.grid.dims == grid_dims,
            r.grid.children@ == Seq::new(cell_count(grid_dims) as nat, |i: int| 0u32),
            r.depth == depth,
            r.levels@.len() == depth,
            forall|i: int| 0 <= i < depth ==> #[trigger] r.levels@[i].wf() && r.levels@[i].child_mask@.len() == 0,
            r.chunks@.len() == 0,
    {
        let mut levels: Vec<Level> = Vec::new();
        let mut i: u8 = 0;
        while i < depth
            invariant
                i <= depth,
                levels@.len() == i,
                forall|k: int| 0 <= k < i ==> #[trigger] levels@[k].wf() && levels@[k].child_mask@.len() == 0,
            decreases depth - i,
        {
            levels.push(Level::new());
            i += 1;
        }
        Self { grid: Grid::new(grid_dims), depth, levels, chunks: Vec::new() }
    }
}

} // verus!
