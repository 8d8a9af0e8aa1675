use lattice::lattice::geometry_dag::{GeometryDagLevel, GeometryDagRoot};
use lattice::lattice::material_dag::{MaterialDagLevel, MaterialDagRoot};
use lattice::lattice::BitpackedArray;

fn run(mut it: lattice::lattice::ChildIter<'_>) -> Vec<u32> {
    let mut out = Vec::new();
    while let Some(v) = it.next() {
        out.push(v);
    }
    out
}

#[test]
fn geometry_level_shares_nodes_by_occupancy() {
    let mut level = GeometryDagLevel::new();
    assert!(level.is_empty());
    assert_eq!(level.insert(0b101, 9, &[3, 4]), 0);
    assert_eq!(level.insert(0b1, 2, &[7]), 1);
    // Same shape, other children: the first node is shared.
    assert_eq!(level.insert(0b101, 5, &[8, 9]), 0);
    assert_eq!(level.len(), 2);
    assert_eq!(level.voxel_count, vec![9, 2]);
    assert_eq!(run(level.children_of(0)), vec![3, 4]);
    assert_eq!(run(level.children_of(1)), vec![7]);
}

#[test]
fn material_level_shares_identical_nodes_only() {
    let mut level = MaterialDagLevel::new();
    assert_eq!(level.insert(0b11, &[1, 2]), 0);
    assert_eq!(level.insert(0b11, &[1, 3]), 1);
    assert_eq!(level.insert(0b11, &[1, 2]), 0);
    assert_eq!(level.insert(0b110, &[1, 2]), 2);
    assert_eq!(level.len(), 3);
    assert_eq!(run(level.children_of(1)), vec![1, 3]);
    assert_eq!(run(level.children_of(2)), vec![1, 2]);
}

#[test]
fn dag_roots_hold_their_fields() {
    let g = GeometryDagRoot { root_node_index: 1, leaf_start: 2, materials: BitpackedArray::new(), rep_voxels: Vec::new() };
    assert_eq!(g.leaf_start, 2);
    let m = MaterialDagRoot { root_node_index: 0, lut_index_bits: 4, lut_entries: vec![5], leaf_start: 0 };
    assert_eq!(m.lut_entries, vec![5]);
}

#[test]
fn default_levels_are_empty() {
    assert!(GeometryDagLevel::default().is_empty());
    assert!(MaterialDagLevel::default().is_empty());
}
