use lattice::import::palette::{idx_to_rgb, rgb_to_idx, Palette, RGB_COLORS};
use lattice::import::partition::PartitionMap;

#[test]
fn rgb_indices_pack_bytes() {
    assert_eq!(rgb_to_idx([0, 0, 0]), 0);
    assert_eq!(rgb_to_idx([1, 2, 3]), 0x010203);
    assert_eq!(rgb_to_idx([255, 255, 255]), 0xFF_FFFF);
    assert_eq!(idx_to_rgb(0x010203), [1, 2, 3]);
    assert_eq!(idx_to_rgb(0x1_00_00_07), [0, 0, 7]);
    for idx in (0..RGB_COLORS).step_by(65521) {
        assert_eq!(rgb_to_idx(idx_to_rgb(idx)), idx);
    }
}

fn two_color_lut() -> Vec<u8> {
    // Dark colors map to entry 0, the others to entry 1.
    (0..RGB_COLORS).map(|i| if i < 0x80_0000 { 0 } else { 1 }).collect()
}

#[test]
fn palette_quantizes_through_its_table() {
    let p = Palette::from_lut(vec![[0, 0, 0], [255, 255, 255]], two_color_lut()).expect("table fits");
    assert_eq!(p.len(), 2);
    assert!(!p.is_empty());
    assert_eq!(p.nearest_idx([10, 20, 30]), 0);
    assert_eq!(p.nearest_idx([200, 0, 0]), 1);
    assert_eq!(p.nearest([200, 0, 0]), [255, 255, 255]);
    assert_eq!(p.nearest([127, 255, 255]), [0, 0, 0]);
}

#[test]
fn palette_refuses_tables_that_do_not_fit() {
    assert!(Palette::from_lut(vec![[0, 0, 0]], two_color_lut()).is_none());
    assert!(Palette::from_lut(vec![[0, 0, 0], [1, 1, 1]], vec![0; 16]).is_none());
}

#[test]
fn partition_map_holds_bins() {
    let map = PartitionMap { dims: [2, 1, 1], bins: vec![vec![0, 3], vec![]] };
    assert_eq!(map.bins[0], vec![0, 3]);
    assert_eq!(map.dims[0], 2);
}
