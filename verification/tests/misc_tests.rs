use lattice::convert::{FormatError, InputType, OutputType};
use lattice::bench::fmt_num;
use lattice::bench::{rand_pos, Lcg};
use lattice::chunk::material::MaterialTable as ChunkMaterials;
use lattice::convert::vox::{ColorMode, DotVox, DotVoxConfig};
use lattice::lattice::voxel::Voxel;
use lattice::material_table::MaterialTable;

#[test]
fn material_table_deduplicates() {
    let mut t = MaterialTable::new();
    assert!(t.is_empty());
    let a = Voxel::new([1, 2, 3], 0, false, false, false);
    let b = Voxel::new([4, 5, 6], 0, false, false, false);
    assert_eq!(t.get_or_insert(a), 0);
    assert_eq!(t.get_or_insert(b), 1);
    assert_eq!(t.get_or_insert(a), 0);
    assert_eq!(t.len(), 2);
    assert_eq!(t.get(1), b);
    assert_eq!(t.bit_width(), 1);
    for i in 0..15u8 {
        t.get_or_insert(Voxel::new([i, 0, 100], 0, false, false, false));
    }
    assert_eq!(t.len(), 17);
    assert_eq!(t.bit_width(), 8);
}

#[test]
fn chunk_material_table_deduplicates() {
    let mut t = ChunkMaterials { values: Vec::new() };
    let a = Voxel::new([7, 7, 7], 3, true, false, false);
    assert_eq!(t.get_or_add(a), 0);
    assert_eq!(t.get_or_add(a), 0);
    assert_eq!(t.len(), 1);
    assert!(!t.is_empty());
    assert_eq!(t.get(0), a);
}

#[test]
fn mode_picks_the_most_frequent_index() {
    assert_eq!(ChunkMaterials::mode(&[3, 1, 3, 2]), 3);
    assert_eq!(ChunkMaterials::mode(&[1, 2, 2, 1]), 1);
    assert_eq!(ChunkMaterials::mode(&[5]), 5);
    assert_eq!(ChunkMaterials::mode(&[]), 0);
}

#[test]
fn lcg_sequence_is_fixed() {
    let mut rng = Lcg::new(1);
    assert_eq!(rng.next(), 908834774);
    assert_eq!(rng.0, 7806831264735756412);
    assert_eq!(rng.next(), 1093944153);
    let mut rng = Lcg::new(1);
    assert_eq!(rand_pos(&mut rng, 100), [74, 53, 96]);
    assert_eq!(rng.0, 11960119808228829710);
}

#[test]
fn vox_conversion_settings() {
    assert_eq!(ColorMode::Static.as_str(), "static");
    let config = DotVoxConfig { color: ColorMode::Static, no_optimization: false };
    assert!(!config.no_optimization);
    assert_eq!(DotVox::basis(), [[1, 0, 0, 0], [0, 0, 1, 0], [0, 1, 0, 0], [0, 0, 0, 1]]);
}

#[test]
fn extensions_name_formats() {
    assert_eq!(InputType::from_extension("gltf"), Some(InputType::GlbGltf));
    assert_eq!(InputType::from_extension("glb"), Some(InputType::GlbGltf));
    assert_eq!(InputType::from_extension("obj"), None);
    assert_eq!(InputType::from_extension("GLB"), None);
    assert_eq!(OutputType::from_extension("vox"), Some(OutputType::MagicaVoxel));
    assert_eq!(OutputType::from_extension("lattice"), Some(OutputType::Lattice));
    assert_eq!(OutputType::from_extension(""), None);
}

#[test]
fn numbers_are_grouped_by_thousands() {
    assert_eq!(fmt_num(0), "0");
    assert_eq!(fmt_num(7), "7");
    assert_eq!(fmt_num(999), "999");
    assert_eq!(fmt_num(1000), "1,000");
    assert_eq!(fmt_num(1234567), "1,234,567");
    assert_eq!(fmt_num(100000), "100,000");
    assert_eq!(fmt_num(u64::MAX), "18,446,744,073,709,551,615");
}

#[test]
fn files_name_formats_by_extension() {
    assert_eq!(InputType::from_file("models/scene.glb"), Ok(InputType::GlbGltf));
    assert_eq!(InputType::from_file("scene.gltf"), Ok(InputType::GlbGltf));
    assert_eq!(InputType::from_file("scene.obj"), Err(FormatError::UnknownExtension));
    assert_eq!(InputType::from_file("scene"), Err(FormatError::NoExtension));
    assert_eq!(OutputType::from_file("out/world.lattice"), Ok(OutputType::Lattice));
    assert_eq!(OutputType::from_file("a.b.vox"), Ok(OutputType::MagicaVoxel));
    assert_eq!(OutputType::from_file(".vox"), Err(FormatError::NoExtension));
    assert_eq!(OutputType::from_file("x.png"), Err(FormatError::UnknownExtension));
}

#[test]
fn sixteen_materials_take_four_bits() {
    let mut t = MaterialTable::new();
    for i in 0..16u8 {
        t.get_or_insert(Voxel::new([i, i, i], 0, false, false, false));
    }
    assert_eq!(t.len(), 16);
    assert_eq!(t.bit_width(), 4);
    t.get_or_insert(Voxel::new([200, 0, 0], 0, false, false, false));
    assert_eq!(t.bit_width(), 8);
}
