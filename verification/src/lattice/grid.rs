//! A flat 3D array of child entries: no tree structure and no deduplication.
//! Right for the top of the hierarchy, where deduplication almost never fires.
use vstd::prelude::*;

verus! {

use crate::bitpacked::{BitpackedArray, positions_fit};
use crate::bits::width_mask;

/// Flat index of cell `pos` in a grid of size `dims`, x fastest.
pub open spec fn cell_index(dims: [u32; 3], pos: [u32; 3]) -> int {
    pos[2] as int * dims[0] as int * dims[1] as int + pos[1] as int * dims[0] as int + pos[0] as int
}

/// Number of cells of a grid of size `dims`.
pub open spec fn cell_count(dims: [u32; 3]) -> int {
    dims[0] as int * dims[1] as int * dims[2] as int
}

/// Distinct positions inside a grid have distinct cells, so writing one
/// position leaves every other position's entry as it was.
pub proof fn lemma_cells_distinct(dims: [u32; 3], p: [u32; 3], q: [u32; 3])
    requires
        p[0] < dims[0] && p[1] < dims[1] && p[2] < dims[2],
        q[0] < dims[0] && q[1] < dims[1] && q[2] < dims[2],
        p != q,
    ensures
        cell_index(dims, p) != cell_index(dims, q),
{
    lemma_cell_split(dims, p);
    lemma_cell_split(dims, q);
    if cell_index(dims, p) == cell_index(dims, q) {
        assert(p =~= q);
    }
}

/// The coordinates of a position are read back from its cell index.
proof fn lemma_cell_split(dims: [u32; 3], p: [u32; 3])
    requires
        p[0] < dims[0] && p[1] < dims[1] && p[2] < dims[2],
    ensures
        p[0] as int == cell_index(dims, p) % dims[0] as int,
        p[1] as int == (cell_index(dims, p) / dims[0] as int) % dims[1] as int,
        p[2] as int == (cell_index(dims, p) / dims[0] as int) / dims[1] as int,
{
    let (x, y, z) = (p[0] as int, p[1] as int, p[2] as int);
    let (a, b) = (dims[0] as int, dims[1] as int);
    let i = cell_index(dims, p);
    assert(i == (z * b + y) * a + x) by (nonlinear_arith)
        requires
            i == z * a * b + y * a + x,
    ;
    vstd::arithmetic::div_mod::lemma_fundamental_div_mod_converse(i, a, z * b + y, x);
    vstd::arithmetic::div_mod::lemma_fundamental_div_mod_converse(z * b + y, b, z, y);
}

/// A position inside the grid lies at an index inside it.
pub proof fn lemma_cell_in_grid(dims: [u32; 3], pos: [u32; 3])
    requires
        pos[0] < dims[0],
        pos[1] < dims[1],
        pos[2] < dims[2],
    ensures
        0 <= cell_index(dims, pos) < cell_count(dims),
        pos[2] as int * dims[0] as int * dims[1] as int <= cell_index(dims, pos),
        pos[1] as int * dims[0] as int <= cell_index(dims, pos),
        pos[2] as int * dims[0] as int <= pos[2] as int * dims[0] as int * dims[1] as int,
{
    let (x, y, z) = (pos[0] as int, pos[1] as int, pos[2] as int);
    let (a, b, c) = (dims[0] as int, dims[1] as int, dims[2] as int);
    assert(0 <= z * a * b && 0 <= y * a) by (nonlinear_arith)
        requires
            0 <= x,
            0 <= y,
            0 <= z,
            0 <= a,
            0 <= b,
    ;
    assert(z * a <= z * a * b) by (nonlinear_arith)
        requires
            0 <= z,
            0 <= a,
            1 <= b,
    ;
    assert(z * a * b + y * a + x < a * b * c) by (nonlinear_arith)
        requires
            0 <= x < a,
            0 <= y < b,
            0 <= z < c,
    {
        assert(y * a + x < b * a) by (nonlinear_arith)
            requires
                0 <= x < a,
                0 <= y < b,
        ;
        assert(z * a * b + b * a <= c * a * b) by (nonlinear_arith)
            requires
                0 <= z < c,
                0 <= a,
                0 <= b,
        ;
    }
}

pub struct GridLevel {
    pub dims: [u32; 3],
    pub children: BitpackedArray,
}

impl GridLevel {
    /// The children array holds one entry per cell.
    pub open spec fn wf(&self) -> bool {
        &&& self.children.wf()
        &&& self.children@.len() == cell_count(self.dims)
    }

    /// A grid of size `dims` with every entry 0.
    pub fn new(dims: [u32; 3]) -> (r: Self)
        requires
            cell_count(dims) + 32 <= u32::MAX,
            dims[0] as int * dims[1] as int <= u32::MAX,
        ensures
            r.wf(),
            r.dims == dims,
            r.children@ == Seq::new(cell_count(dims) as nat, |i: int| 0u32),
            r.children.bits == 1,
            r.children.spare_zero(),
    {
        proof {
            let (a, b, c) = (dims[0] as int, dims[1] as int, dims[2] as int);
            assert(0 <= a * b && 0 <= a * b * c) by (nonlinear_arith)
                requires
                    0 <= a,
                    0 <= b,
                    0 <= c,
            ;
            assert(a * b <= a * b * c || c == 0) by (nonlinear_arith)
                requires
                    0 <= a,
                    0 <= b,
                    0 <= c,
            ;
        }
        let cell_count = dims[0] * dims[1] * dims[2];
        let mut children = BitpackedArray::new();
        let mut i: u32 = 0;
        while i < cell_count
            invariant
                children.wf(),
                children.bits == 1,
                children.spare_zero(),
                i <= cell_count,
                cell_count as int + 32 <= u32::MAX,
                children@ == Seq::new(i as nat, |k: int| 0u32),
            decreases cell_count - i,
        {
            assert(children@.len() == i as nat);
            assert(positions_fit(children.len as int + 1, 1));
            children.push(0);
            i += 1;
            assert(children@ =~= Seq::new(i as nat, |k: int| 0u32));
        }
        Self { dims, children }
    }

    /// Inserts or overwrites the child entry at grid position `pos`.
    pub fn insert(&mut self, pos: [u32; 3], value: u32)
        requires
            old(self).wf(),
            pos[0] < old(self).dims[0],
            pos[1] < old(self).dims[1],
            pos[2] < old(self).dims[2],
            positions_fit(
                old(self).children.len as int,
                BitpackedArray::width_after(old(self).children.bits, value) as int,
            ),
        ensures
            final(self).wf(),
            final(self).dims == old(self).dims,
            final(self).children@ == old(self).children@.update(cell_index(old(self).dims, pos), value),
            old(self).children.spare_zero() ==> final(self).children.spare_zero(),
    {
        proof {
            lemma_cell_in_grid(self.dims, pos);
        }
        let idx = pos[2] * self.dims[0] * self.dims[1] + pos[1] * self.dims[0] + pos[0];
        self.children.set(idx, value)
    }

    /// The child entry at grid position `pos`.
    pub fn get(&self, pos: [u32; 3]) -> (r: u32)
        requires
            self.wf(),
            pos[0] < self.dims[0],
            pos[1] < self.dims[1],
            pos[2] < self.dims[2],
        ensures
            r == self.children@[cell_index(self.dims, pos)],
    {
        proof {
            lemma_cell_in_grid(self.dims, pos);
        }
        let idx = pos[2] * self.dims[0] * self.dims[1] + pos[1] * self.dims[0] + pos[0];
        self.children.get(idx)
    }
}

} // verus!
