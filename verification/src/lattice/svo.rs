//! One level of the sparse voxel 64-tree, in struct-of-arrays layout for GPU
//! traversal, and the per-chunk data that points into it.
use vstd::prelude::*;

verus! {

use crate::bitpacked::{BitpackedArray, positions_fit, width_after_all, lemma_width_after_grows, lemma_width_after_prefix};
use crate::bits::popcount;
use crate::lattice::geometry_dag::push_all;
use crate::lattice::ChildIter;
use crate::lattice::lut::Lut;

/// One level of the SVO. Each node covers a 4x4x4 block of 64 child slots,
/// and only occupied children are stored. Node pointers and uniform palette
/// entries live in two separate packed arrays so each can take its own width;
/// `leaf_mask` marks which occupied children are palette entries.
pub struct Level {
    pub child_mask: Vec<u64>,
    pub leaf_mask: Vec<u64>,
    pub child_start: Vec<u32>,
    pub rep_material: BitpackedArray,
    pub ptr_children: BitpackedArray,
    pub lut_children: BitpackedArray,
}

/// `n` zero entries.
pub open spec fn zeros(n: int) -> Seq<u32> {
    Seq::new(n as nat, |i: int| 0u32)
}

/// Appends zeros to `arr` until it holds `end` entries. Zeros fit every
/// width, so the width stays.
fn pad_to(arr: &mut BitpackedArray, end: u32)
    requires
        old(arr).wf(),
        old(arr).spare_zero(),
        old(arr)@.len() <= end,
        positions_fit(end as int, old(arr).bits as int),
    ensures
        final(arr).wf(),
        final(arr).spare_zero(),
        final(arr).bits == old(arr).bits,
        final(arr)@ == old(arr)@ + zeros(end - old(arr)@.len()),
{
    while arr.len < end
        invariant
            arr.wf(),
            arr.spare_zero(),
            arr.bits == old(arr).bits,
            old(arr)@.len() <= arr@.len() <= end,
            positions_fit(end as int, old(arr).bits as int),
            arr@ == old(arr)@ + zeros(arr@.len() - old(arr)@.len()),
        decreases end - arr.len,
    {
        proof {
            lemma_width_after_grows(arr.bits, 0);
            let l = arr.len as int + 1;
            let b = arr.bits as int;
            assert(arr@.len() == arr.len);
            assert(l * b <= end * b) by (nonlinear_arith)
                requires
                    0 <= l <= end,
                    0 <= b,
            ;
        }
        arr.push(0);
        assert(arr@ =~= old(arr)@ + zeros(arr@.len() - old(arr)@.len()));
    }
}

impl Level {
    /// The per-node arrays agree in length, and the packed arrays are well
    /// formed with every bit past their last entry zero.
    pub open spec fn wf(&self) -> bool {
        &&& self.leaf_mask@.len() == self.child_mask@.len()
        &&& self.child_start@.len() == self.child_mask@.len()
        &&& self.rep_material@.len() == self.child_mask@.len()
        &&& self.rep_material.wf() && self.rep_material.spare_zero()
        &&& self.ptr_children.wf() && self.ptr_children.spare_zero()
        &&& self.lut_children.wf() && self.lut_children.spare_zero()
    }

    /// Where the next node's children start: the end of the longer of the
    /// two child arrays.
    pub open spec fn children_end(&self) -> int {
        if self.ptr_children@.len() >= self.lut_children@.len() {
            self.ptr_children@.len() as int
        } else {
            self.lut_children@.len() as int
        }
    }

    pub fn new() -> (r: Self)
        ensures
            r.wf(),
            r.child_mask@.len() == 0,
            r.leaf_mask@.len() == 0,
            r.child_start@.len() == 0,
            r.rep_material.wf() && r.rep_material@.len() == 0,
            r.ptr_children.wf() && r.ptr_children@.len() == 0,
            r.lut_children.wf() && r.lut_children@.len() == 0,
    {
        Self {
            child_mask: Vec::new(),
            leaf_mask: Vec::new(),
            child_start: Vec::new(),
            rep_material: BitpackedArray::new(),
            ptr_children: BitpackedArray::new(),
            lut_children: BitpackedArray::new(),
        }
    }

    /// Number of nodes.
    pub fn len(&self) -> (r: u32)
        requires
            self.child_mask@.len() <= u32::MAX,
        ensures
            r == self.child_mask@.len(),
    {
        self.child_mask.len() as u32
    }

    pub fn is_empty(&self) -> (r: bool)
        ensures
            r == (self.child_mask@.len() == 0),
    {
        self.child_mask.is_empty()
    }

    /// Node `node_idx`'s children that point to nodes of the next level.
    pub fn ptr_children_of(&self, node_idx: u32) -> (r: ChildIter<'_>)
        requires
            self.ptr_children.wf(),
            (node_idx as int) < self.child_mask@.len(),
            (node_idx as int) < self.leaf_mask@.len(),
            (node_idx as int) < self.child_start@.len(),
            self.child_start@[node_idx as int] as int + popcount(
                self.child_mask@[node_idx as int] & !self.leaf_mask@[node_idx as int],
            ) <= self.ptr_children@.len(),
        ensures
            r.wf(),
            r@ == self.ptr_children@.subrange(
                self.child_start@[node_idx as int] as int,
                self.child_start@[node_idx as int] as int + popcount(
                    self.child_mask@[node_idx as int] & !self.leaf_mask@[node_idx as int],
                ),
            ),
    {
        let start = self.child_start[node_idx as usize];
        let count = crate::bits::u64_count_ones(
            self.child_mask[node_idx as usize] & !self.leaf_mask[node_idx as usize],
        );
        ChildIter::new(&self.ptr_children, start, start + count)
    }

    /// Node `node_idx`'s uniform children, as palette entries.
    pub fn lut_children_of(&self, node_idx: u32) -> (r: ChildIter<'_>)
        requires
            self.lut_children.wf(),
            (node_idx as int) < self.child_mask@.len(),
            (node_idx as int) < self.leaf_mask@.len(),
            (node_idx as int) < self.child_start@.len(),
            self.child_start@[node_idx as int] as int + popcount(
                self.child_mask@[node_idx as int] & self.leaf_mask@[node_idx as int],
            ) <= self.lut_children@.len(),
        ensures
            r.wf(),
            r@ == self.lut_children@.subrange(
                self.child_start@[node_idx as int] as int,
                self.child_start@[node_idx as int] as int + popcount(
                    self.child_mask@[node_idx as int] & self.leaf_mask@[node_idx as int],
                ),
            ),
    {
        let start = self.child_start[node_idx as usize];
        let count = crate::bits::u64_count_ones(
            self.child_mask[node_idx as usize] & self.leaf_mask[node_idx as usize],
        );
        ChildIter::new(&self.lut_children, start, start + count)
    }

    /// Appends a node and returns its index. Both child lists of the node
    /// start at one entry, `children_end()`: the shorter child array is first
    /// padded with zeros up to the longer one's end.
    pub fn push(
        &mut self,
        child_mask: u64,
        leaf_mask: u64,
        rep_material: u32,
        ptr_children: &[u32],
        lut_children: &[u32],
    ) -> (r: u32)
        requires
            old(self).wf(),
            old(self).child_mask@.len() < u32::MAX,
            positions_fit(
                old(self).rep_material@.len() + 1int,
                BitpackedArray::width_after(old(self).rep_material.bits, rep_material) as int,
            ),
            positions_fit(
                old(self).children_end() + ptr_children@.len(),
                width_after_all(old(self).ptr_children.bits, ptr_children@) as int,
            ),
            positions_fit(
                old(self).children_end() + lut_children@.len(),
                width_after_all(old(self).lut_children.bits, lut_children@) as int,
            ),
        ensures
            final(self).wf(),
            r == old(self).child_mask@.len(),
            final(self).child_mask@ == old(self).child_mask@.push(child_mask),
            final(self).leaf_mask@ == old(self).leaf_mask@.push(leaf_mask),
            final(self).child_start@ == old(self).child_start@.push(
                old(self).children_end() as u32,
            ),
            final(self).rep_material@ == old(self).rep_material@.push(rep_material),
            final(self).ptr_children@ == old(self).ptr_children@ + zeros(
                old(self).children_end() - old(self).ptr_children@.len(),
            ) + ptr_children@,
            final(self).lut_children@ == old(self).lut_children@ + zeros(
                old(self).children_end() - old(self).lut_children@.len(),
            ) + lut_children@,
            final(self).ptr_children@.subrange(
                old(self).children_end(),
                old(self).children_end() + ptr_children@.len(),
            ) == ptr_children@,
            final(self).lut_children@.subrange(
                old(self).children_end(),
                old(self).children_end() + lut_children@.len(),
            ) == lut_children@,
    {
        let end = if self.ptr_children.len >= self.lut_children.len {
            self.ptr_children.len
        } else {
            self.lut_children.len
        };
        proof {
            assert(self.ptr_children@.len() == self.ptr_children.len);
            assert(self.lut_children@.len() == self.lut_children.len);
            lemma_width_after_prefix(self.ptr_children.bits, ptr_children@, 0);
            lemma_width_after_prefix(self.lut_children.bits, lut_children@, 0);
            assert(ptr_children@.take(0) =~= Seq::<u32>::empty());
            assert(lut_children@.take(0) =~= Seq::<u32>::empty());
            let e = end as int;
            let pb = self.ptr_children.bits as int;
            let pw = width_after_all(self.ptr_children.bits, ptr_children@) as int;
            let lb = self.lut_children.bits as int;
            let lw = width_after_all(self.lut_children.bits, lut_children@) as int;
            let pn = ptr_children@.len() as int;
            let ln = lut_children@.len() as int;
            assert(e * pb <= (e + pn) * pw) by (nonlinear_arith)
                requires
                    0 <= e,
                    0 <= pn,
                    0 <= pb <= pw,
            ;
            assert(e * lb <= (e + ln) * lw) by (nonlinear_arith)
                requires
                    0 <= e,
                    0 <= ln,
                    0 <= lb <= lw,
            ;
        }
        let idx = self.child_mask.len() as u32;
        pad_to(&mut self.ptr_children, end);
        push_all(&mut self.ptr_children, ptr_children);
        pad_to(&mut self.lut_children, end);
        push_all(&mut self.lut_children, lut_children);
        self.rep_material.push(rep_material);
        self.child_mask.push(child_mask);
        self.leaf_mask.push(leaf_mask);
        self.child_start.push(end);
        proof {
            let e = end as int;
            assert(self.ptr_children@.subrange(e, e + ptr_children@.len()) =~= ptr_children@);
            assert(self.lut_children@.subrange(e, e + lut_children@.len()) =~= lut_children@);
        }
        idx
    }
}

impl Default for Level {
    fn default() -> (r: Self)
        ensures
            r.wf(),
            r.child_mask@.len() == 0,
            r.leaf_mask@.len() == 0,
            r.child_start@.len() == 0,
            r.rep_material.wf() && r.rep_material@.len() == 0,
            r.ptr_children.wf() && r.ptr_children@.len() == 0,
            r.lut_children.wf() && r.lut_children@.len() == 0,
    {
        Self::new()
    }
}

/// Per-chunk data: the root node index into `levels[0]` and the chunk's
/// palette. Two grid cells pointing to the same chunk share all its data.
pub struct Chunk {
    pub root_node_index: u32,
    pub lut: Lut,
}

impl Chunk {
    pub fn new(root_node_index: u32) -> (r: Self)
        ensures
            r.root_node_index == root_node_index,
            r.lut.wf(),
            r.lut@.len() == 0,
    {
        Self { root_node_index, lut: Lut::new() }
    }
}

} // verus!
