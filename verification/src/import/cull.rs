//! Removal of voxels hidden on every side.
use std::collections::HashSet;
use vstd::prelude::*;

verus! {

use crate::import::VoxelSample;
use crate::import::voxelize::{morton_decode, morton_encode, morton_spec, unmorton_spec};

broadcast use vstd::std_specs::hash::group_hash_axioms;

/// The face-neighbor offsets, one per axis direction.
pub open spec fn offset(k: int) -> (int, int, int) {
    if k == 0 {
        (1, 0, 0)
    } else if k == 1 {
        (-1, 0, 0)
    } else if k == 2 {
        (0, 1, 0)
    } else if k == 3 {
        (0, -1, 0)
    } else if k == 4 {
        (0, 0, 1)
    } else {
        (0, 0, -1)
    }
}

/// The face neighbor `k` of position `p` lies inside the chunk's
/// non-negative range and its Morton code is among `codes`.
pub open spec fn neighbor_present(p: [u32; 3], k: int, codes: Set<u64>) -> bool {
    let (dx, dy, dz) = offset(k);
    let nx = p[0] as int + dx;
    let ny = p[1] as int + dy;
    let nz = p[2] as int + dz;
    nx >= 0 && ny >= 0 && nz >= 0 && codes.contains(morton_spec(nx as u32, ny as u32, nz as u32))
}

/// A sample is interior when it is not transparent and all six face
/// neighbors of its decoded position are occupied by voxels that are not
/// transparent (their codes are `codes`).
pub open spec fn is_interior(s: VoxelSample, codes: Set<u64>) -> bool {
    !s.voxel.transparent_spec() && forall|k: int|
        0 <= k < 6 ==> #[trigger] neighbor_present(unmorton_spec(s.morton), k, codes)
}

/// The Morton codes of the samples that are not transparent.
pub open spec fn opaque_codes_of(samples: Seq<VoxelSample>) -> Set<u64> {
    Set::new(
        |c: u64|
            exists|i: int|
                0 <= i < samples.len() && samples[i].morton == c && !samples[i].voxel.transparent_spec(),
    )
}

fn keep_sample(s: &VoxelSample, occupied: &HashSet<u64>) -> (r: bool)
    ensures
        r == !is_interior(*s, occupied@),
{
    if s.voxel.transparent() {
        return true;
    }
    let p = morton_decode(s.morton);
    let x = p[0] as i64;
    let y = p[1] as i64;
    let z = p[2] as i64;
    let neighbor_offsets: [[i64; 3]; 6] = [
        [1, 0, 0],
        [-1, 0, 0],
        [0, 1, 0],
        [0, -1, 0],
        [0, 0, 1],
        [0, 0, -1],
    ];
    assert(forall|q: int|
        0 <= q < 6 ==> (
        #[trigger] neighbor_offsets[q][0] as int,
        neighbor_offsets[q][1] as int,
        neighbor_offsets[q][2] as int,
    ) == offset(q));
    let mut k: usize = 0;
    while k < 6
        invariant
            k <= 6,
            p == unmorton_spec(s.morton),
            x == p[0] as int,
            y == p[1] as int,
            z == p[2] as int,
            !s.voxel.transparent_spec(),
            forall|q: int|
                0 <= q < 6 ==> (
                #[trigger] neighbor_offsets[q][0] as int,
                neighbor_offsets[q][1] as int,
                neighbor_offsets[q][2] as int,
            ) == offset(q),
            forall|q: int| 0 <= q < k ==> #[trigger] neighbor_present(p, q, occupied@),
        decreases 6 - k,
    {
        let d = neighbor_offsets[k];
        let nx = x + d[0];
        let ny = y + d[1];
        let nz = z + d[2];
        assert((d[0] as int, d[1] as int, d[2] as int) == offset(k as int));
        if nx < 0 || ny < 0 || nz < 0 {
            assert(!neighbor_present(p, k as int, occupied@));
            return true;
        }
        let neighbor_code = morton_encode(nx as u32, ny as u32, nz as u32);
        if !occupied.contains(&neighbor_code) {
            assert(!neighbor_present(p, k as int, occupied@));
            return true;
        }
        k += 1;
    }
    false
}

/// Removes every voxel that is not transparent and whose six face neighbors
/// are all occupied by voxels that are not transparent; those are never
/// visible from any direction.
pub fn cull_interior(samples: &mut Vec<VoxelSample>)
    ensures
        final(samples)@ == old(samples)@.filter(
            |s: VoxelSample| !is_interior(s, opaque_codes_of(old(samples)@)),
        ),
{
    let ghost orig = samples@;
    let ghost pred = |s: VoxelSample| !is_interior(s, opaque_codes_of(orig));
    if samples.is_empty() {
        proof {
            reveal(Seq::filter);
            assert(orig.filter(pred) =~= orig);
        }
        return;
    }
    let mut occupied: HashSet<u64> = HashSet::new();
    let mut i: usize = 0;
    while i < samples.len()
        invariant
            i <= samples@.len(),
            samples@ == orig,
            occupied@ == Set::new(
                |c: u64|
                    exists|j: int|
                        0 <= j < i && orig[j].morton == c && !orig[j].voxel.transparent_spec(),
            ),
        decreases samples@.len() - i,
    {
        if !samples[i].voxel.transparent() {
            occupied.insert(samples[i].morton);
        }
        i += 1;
        assert(occupied@ =~= Set::new(
            |c: u64|
                exists|j: int|
                    0 <= j < i && orig[j].morton == c && !orig[j].voxel.transparent_spec(),
        ));
    }
    assert(occupied@ =~= opaque_codes_of(orig));
    let mut kept: Vec<VoxelSample> = Vec::new();
    let mut i: usize = 0;
    while i < samples.len()
        invariant
            i <= samples@.len(),
            samples@ == orig,
            occupied@ == opaque_codes_of(orig),
            pred == (|s: VoxelSample| !is_interior(s, opaque_codes_of(orig))),
            kept@ == orig.take(i as int).filter(pred),
        decreases samples@.len() - i,
    {
        let s = samples[i];
        let keep = keep_sample(&s, &occupied);
        proof {
            reveal(Seq::filter);
            assert(orig.take(i as int + 1).drop_last() =~= orig.take(i as int));
            assert(orig.take(i as int + 1).last() == s);
            assert(orig.take(i as int + 1).filter(pred) == (if pred(s) {
                orig.take(i as int).filter(pred).push(s)
            } else {
                orig.take(i as int).filter(pred)
            }));
            assert(pred(s) == keep);
        }
        if keep {
            kept.push(s);
        }
        i += 1;
    }
    proof {
        assert(orig.take(orig.len() as int) =~= orig);
    }
    *samples = kept;
}

} // verus!
