use lattice::import::cull::cull_interior;
use lattice::import::voxelize::{morton_decode, morton_encode};
use lattice::import::VoxelSample;
use lattice::lattice::voxel::Voxel;

#[test]
fn morton_codes_interleave_three_axes() {
    assert_eq!(morton_encode(0, 0, 0), 0);
    assert_eq!(morton_encode(1, 0, 0), 1);
    assert_eq!(morton_encode(0, 1, 0), 2);
    assert_eq!(morton_encode(0, 0, 1), 4);
    assert_eq!(morton_encode(2, 0, 0), 8);
    assert_eq!(morton_encode(1, 1, 1), 7);
    assert_eq!(morton_encode(3, 3, 3), 63);
    assert_eq!(morton_encode(255, 0, 0), 2396745);
}

#[test]
fn morton_decode_inverts_encode() {
    assert_eq!(morton_decode(0), [0, 0, 0]);
    assert_eq!(morton_decode(1), [1, 0, 0]);
    assert_eq!(morton_decode(7), [1, 1, 1]);
    assert_eq!(morton_decode(morton_encode(5, 3, 2)), [5, 3, 2]);
    for &(x, y, z) in &[(0u32, 0u32, 1u32), (2, 0, 0), (255, 254, 253), (0x1f_ffff, 7, 0x10_0000)] {
        assert_eq!(morton_decode(morton_encode(x, y, z)), [x, y, z]);
    }
}

fn opaque(x: u32, y: u32, z: u32) -> VoxelSample {
    VoxelSample { morton: morton_encode(x, y, z), voxel: Voxel::new([200, 200, 200], 15, false, false, false) }
}

#[test]
fn cull_removes_a_hidden_centre() {
    let points = [(1, 1, 1), (0, 1, 1), (2, 1, 1), (1, 0, 1), (1, 2, 1), (1, 1, 0), (1, 1, 2)];
    let mut samples: Vec<VoxelSample> = points.iter().map(|&(x, y, z)| opaque(x, y, z)).collect();
    let expected: Vec<u64> = samples[1..].iter().map(|s| s.morton).collect();
    cull_interior(&mut samples);
    assert_eq!(samples.iter().map(|s| s.morton).collect::<Vec<_>>(), expected);
}

fn cube_samples(transparent: bool) -> Vec<VoxelSample> {
    let mut out = Vec::new();
    for z in 0..3u32 {
        for y in 0..3u32 {
            for x in 0..3u32 {
                out.push(VoxelSample {
                    morton: morton_encode(x, y, z),
                    voxel: Voxel::new([9, 9, 9], 1, false, false, transparent),
                });
            }
        }
    }
    out
}

#[test]
fn cull_removes_hidden_voxels() {
    let mut samples = cube_samples(false);
    cull_interior(&mut samples);
    assert_eq!(samples.len(), 26);
    assert!(samples.iter().all(|s| s.morton != morton_encode(1, 1, 1)));
}

#[test]
fn cull_keeps_transparent_voxels() {
    let mut samples = cube_samples(true);
    cull_interior(&mut samples);
    assert_eq!(samples.len(), 27);
}

#[test]
fn cull_keeps_voxels_next_to_transparent_ones() {
    let mut samples = cube_samples(false);
    // Make the neighbour above the centre transparent: the centre shows through it.
    let above = morton_encode(1, 1, 2);
    for s in samples.iter_mut() {
        if s.morton == above {
            s.voxel = Voxel::new([9, 9, 9], 1, false, false, true);
        }
    }
    cull_interior(&mut samples);
    assert_eq!(samples.len(), 27);
}

#[test]
fn cull_of_nothing_is_nothing() {
    let mut samples: Vec<VoxelSample> = Vec::new();
    cull_interior(&mut samples);
    assert!(samples.is_empty());
}

#[test]
fn cull_keeps_voxels_at_the_chunk_edge() {
    let mut samples = vec![opaque(0, 0, 0)];
    cull_interior(&mut samples);
    assert_eq!(samples.len(), 1);
}
