use lattice::dag::node::{child_count, is_leaf_ref, leaf_index, make_leaf_ref};
use lattice::dag::voxel::{ColorPalette, Voxel};
use lattice::dag::{Dag, Level, MaterialLut};
use lattice::lattice_dag::node::Node;
use lattice::lattice_dag::{Dag as LeafDag, LeafPool, Level as LeafLevel};

#[test]
fn level_deduplicates_nodes() {
    let mut level = Level::new();
    assert_eq!(level.insert(0b11, 2, &[5, 6]), 0);
    assert_eq!(level.insert(0b1, 1, &[7]), 1);
    assert_eq!(level.insert(0b11, 2, &[5, 6]), 0);
    assert_eq!(level.len(), 2);
    assert_eq!(level.children_of(0), &[5, 6]);
    assert_eq!(level.children_of(1), &[7]);
    assert_eq!(level.children_start, vec![0, 2]);
    assert_eq!(level.voxel_count, vec![2, 1]);
}

#[test]
fn level_tells_nodes_apart_by_children() {
    let mut level = Level::new();
    assert_eq!(level.insert(0b1, 1, &[8]), 0);
    assert_eq!(level.insert(0b1, 1, &[9]), 1);
    assert_eq!(level.insert(0b10, 1, &[8]), 2);
    assert_eq!(level.children_of(1), &[9]);
}

#[test]
fn material_lut_deduplicates_voxels() {
    let mut lut = MaterialLut::new();
    let a = Voxel::new(1, 2, false, false, false, false, 3, 4);
    let b = Voxel::new(1, 2, false, false, false, false, 3, 5);
    assert_eq!(lut.insert(a), 0);
    assert_eq!(lut.insert(b), 1);
    assert_eq!(lut.insert(a), 0);
    assert_eq!(lut.data.len(), 2);
    assert_eq!(lut.mat_index_bits(), 1);
    for p in 6..=20u8 {
        lut.insert(Voxel::new(0, 0, false, false, false, false, 0, p));
    }
    assert_eq!(lut.data.len(), 17);
    assert_eq!(lut.mat_index_bits(), 8);
}

#[test]
fn dag_voxel_fields_round_trip() {
    let v = Voxel::new(0x12, 0x34, true, false, true, true, 21, 0x56);
    assert_eq!(v.0, 0x1234_B556);
    assert_eq!(v.oct_x(), 0x12);
    assert_eq!(v.oct_y(), 0x34);
    assert!(v.sgn_z());
    assert!(!v.transparent());
    assert!(v.metallic());
    assert!(v.emissive());
    assert_eq!(v.roughness(), 5);
    assert_eq!(v.palette(), 0x56);
}

#[test]
fn dag_leaf_refs() {
    assert!(is_leaf_ref(make_leaf_ref(3)));
    assert_eq!(make_leaf_ref(3), 0x8000_0003);
    assert_eq!(leaf_index(make_leaf_ref(3)), 3);
    assert!(!is_leaf_ref(3));
    assert_eq!(child_count(0xF0), 4);
}

#[test]
fn new_dag_is_empty() {
    let dag = Dag::new(4);
    assert_eq!(dag.levels.len(), 4);
    assert!(dag.levels.iter().all(|l| l.len() == 0));
    assert!(dag.materials.data.is_empty());
    assert_eq!(dag.palette.len(), 0);
    assert_eq!(ColorPalette::new().len(), 0);
}

#[test]
fn leaf_dag_level_deduplicates() {
    let mut level = LeafLevel::new();
    assert_eq!(level.insert(0b101, &[1, 2]), 0);
    assert_eq!(level.insert(0b1, &[3]), 1);
    assert_eq!(level.insert(0b101, &[1, 2]), 0);
    assert_eq!(level.nodes.len(), 2);
    let n = Node { occupancy: 0b1, children_start: 2 };
    assert_eq!(n.child_count(), 1);
    assert_eq!(level.children_of(&n), &[3]);
    assert_eq!(level.children_of(&level.nodes[0]), &[1, 2]);
}

#[test]
fn leaf_pool_appends_new_leaves() {
    let mut pool: LeafPool<u64> = LeafPool::new();
    let a = pool.insert(10);
    let b = pool.insert(20);
    assert_eq!(a, 0);
    assert_eq!(b, 1);
    assert_eq!(pool.insert(10), 0);
    assert_eq!(pool.data, vec![10, 20]);
    let dag: LeafDag<u64> = LeafDag::new(3);
    assert_eq!(dag.levels.len(), 3);
}

#[test]
fn leaf_pool_shares_leaves_by_hash() {
    let mut pool: LeafPool<u64> = LeafPool::new();
    assert_eq!(pool.insert_hashed(10, 7), 0);
    assert_eq!(pool.insert_hashed(20, 7), 0);
    assert_eq!(pool.insert_hashed(20, 8), 1);
    assert_eq!(pool.data, vec![10, 20]);
}

#[test]
fn leaf_pool_keeps_one_entry_per_leaf() {
    let mut pool: LeafPool<()> = LeafPool::new();
    assert_eq!(pool.insert(()), 0);
    assert_eq!(pool.insert(()), 0);
    assert_eq!(pool.data.len(), 1);
}

#[test]
fn leaf_level_reads_inserted_children_back() {
    let mut level = LeafLevel::new();
    let i = level.insert(0b1011, &[4, 5, 6]);
    assert_eq!(level.children_of(&level.nodes[i as usize]), &[4, 5, 6]);
    let mut interior = Level::new();
    let j = interior.insert(0b11, 7, &[8, 9]);
    assert_eq!(interior.children_of(j), &[8, 9]);
    assert_eq!(interior.voxel_count[j as usize], 7);
}
