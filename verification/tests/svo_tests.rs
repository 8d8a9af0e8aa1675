use lattice::lattice::node::{child_count, is_leaf, leaf_value, make_leaf};
use lattice::lattice::voxel::Voxel;
use lattice::lattice::{Chunk, Grid, Lattice, Level, Lut};

#[test]
fn build_empty_lattice() {
    let lattice = Lattice::new(3, [16, 16, 16]);
    assert_eq!(lattice.depth, 3);
    assert_eq!(lattice.levels.len(), 3);
}

#[test]
fn lattice_grid_starts_empty() {
    let lattice = Lattice::new(2, [2, 3, 4]);
    assert_eq!(lattice.grid.dims, [2, 3, 4]);
    assert_eq!(lattice.grid.children.len(), 24);
    assert_eq!(lattice.grid.get([1, 2, 3]), 0);
    assert!(lattice.chunks.is_empty());
    assert!(lattice.levels.iter().all(|l| l.is_empty()));
}

#[test]
fn grid_write_then_read() {
    let mut grid = Grid::new([2, 3, 4]);
    grid.insert([1, 2, 3], 77);
    grid.insert([0, 0, 0], 5);
    assert_eq!(grid.get([1, 2, 3]), 77);
    assert_eq!(grid.get([0, 0, 0]), 5);
    assert_eq!(grid.get([1, 0, 0]), 0);
    // x fastest: (1, 2, 3) sits at 3 * 2 * 3 + 2 * 2 + 1.
    assert_eq!(grid.children.get(23), 77);
}

#[test]
fn grid_distinct_positions_keep_their_entries() {
    let mut grid = Grid::new([4, 4, 4]);
    for z in 0..4u32 {
        for y in 0..4u32 {
            for x in 0..4u32 {
                grid.insert([x, y, z], x + 4 * y + 16 * z + 1);
            }
        }
    }
    for z in 0..4u32 {
        for y in 0..4u32 {
            for x in 0..4u32 {
                assert_eq!(grid.get([x, y, z]), x + 4 * y + 16 * z + 1);
            }
        }
    }
}

#[test]
fn lut_deduplicates_values() {
    let mut lut = Lut::new();
    assert!(lut.is_empty());
    assert_eq!(lut.insert(10), 0);
    assert_eq!(lut.insert(20), 1);
    assert_eq!(lut.insert(10), 0);
    assert_eq!(lut.len(), 2);
    assert_eq!(lut.get(20), Some(1));
    assert_eq!(lut.get(30), None);
    let other = Lut::with_capacity(8);
    assert_eq!(other.len(), 0);
}

#[test]
fn voxel_fields_round_trip() {
    let v = Voxel::new([1, 2, 3], 18, true, false, true);
    assert_eq!(v.0, 0x0102_032A);
    assert_eq!(v.rgb(), [1, 2, 3]);
    assert_eq!(v.roughness(), 2);
    assert!(v.emissive());
    assert!(!v.metallic());
    assert!(v.transparent());
    let w = Voxel::from(0xFFEE_DDF4u32);
    assert_eq!(w.rgb(), [0xFF, 0xEE, 0xDD]);
    assert_eq!(w.roughness(), 15);
    assert!(!w.emissive());
    assert!(w.metallic());
    assert!(!w.transparent());
    assert_eq!(u32::from(w), 0xFFEE_DDF4);
}

#[test]
fn leaf_entries_carry_the_flag() {
    assert!(is_leaf(0x8000_0001));
    assert!(!is_leaf(0x7FFF_FFFF));
    assert_eq!(leaf_value(0x8000_0005), 5);
    assert_eq!(make_leaf(7), 0x8000_0007);
    assert_eq!(leaf_value(make_leaf(123)), 123);
    assert_eq!(child_count(0b1011), 3);
    assert_eq!(child_count(u64::MAX), 64);
}

#[test]
fn svo_children_runs() {
    let mut level = Level::new();
    level.child_mask.push(0b0111);
    level.leaf_mask.push(0b0010);
    level.child_start.push(0);
    level.ptr_children.push(4);
    level.ptr_children.push(9);
    level.lut_children.push(2);
    assert_eq!(level.len(), 1);
    let mut ptrs = level.ptr_children_of(0);
    assert_eq!(ptrs.next(), Some(4));
    assert_eq!(ptrs.next(), Some(9));
    assert_eq!(ptrs.next(), None);
    let mut luts = level.lut_children_of(0);
    assert_eq!(luts.next(), Some(2));
    assert_eq!(luts.next(), None);
    let chunk = Chunk::new(3);
    assert_eq!(chunk.root_node_index, 3);
    assert!(chunk.lut.is_empty());
}

fn drain(mut it: lattice::lattice::ChildIter<'_>) -> Vec<u32> {
    let mut out = Vec::new();
    while let Some(v) = it.next() {
        out.push(v);
    }
    out
}

#[test]
fn svo_push_reads_children_back() {
    let mut level = Level::new();
    assert_eq!(level.push(0b0111, 0b0010, 5, &[4, 9], &[2]), 0);
    assert_eq!(level.push(0b1100, 0b1100, 6, &[], &[1, 3]), 1);
    assert_eq!(level.len(), 2);
    assert_eq!(level.child_mask, vec![0b0111, 0b1100]);
    assert_eq!(level.leaf_mask, vec![0b0010, 0b1100]);
    // The second node starts past the longer child array.
    assert_eq!(level.child_start, vec![0, 2]);
    assert_eq!(level.rep_material.get(0), 5);
    assert_eq!(level.rep_material.get(1), 6);
    assert_eq!(drain(level.ptr_children_of(0)), vec![4, 9]);
    assert_eq!(drain(level.lut_children_of(0)), vec![2]);
    assert_eq!(drain(level.ptr_children_of(1)), Vec::<u32>::new());
    assert_eq!(drain(level.lut_children_of(1)), vec![1, 3]);
    // The palette array was padded with a zero up to the shared start.
    assert_eq!(level.lut_children.len(), 4);
    assert_eq!(level.lut_children.get(1), 0);
}
