use lattice::format::vox_chunks::{vox_scene, SceneNode};
use lattice::format::vox::{decode_static, encode_static, static_palette, vox_palette};
use lattice::format::vox_chunks::{build_vox_chunks, model_offset, vox_color_index, VoxChunk, VoxVoxel};
use lattice::import::voxelize::morton_encode;
use lattice::import::{ImportInfo, VoxelSample};
use lattice::lattice::voxel::Voxel;

#[test]
fn static_encoding_rounds_each_channel() {
    assert_eq!(encode_static([0, 0, 0]), 0);
    assert_eq!(encode_static([255, 255, 255]), 251);
    assert_eq!(encode_static([128, 128, 128]), 147);
    assert_eq!(encode_static([255, 0, 0]), 5);
    assert_eq!(encode_static([0, 255, 0]), 36);
    assert_eq!(encode_static([0, 0, 255]), 210);
}

#[test]
fn static_decoding_spreads_the_steps() {
    assert_eq!(decode_static(0), [0, 0, 0]);
    assert_eq!(decode_static(1), [51, 0, 0]);
    assert_eq!(decode_static(147), [153, 127, 153]);
    assert_eq!(decode_static(251), [255, 255, 255]);
    assert_eq!(decode_static(252), [0, 0, 0]);
}

#[test]
fn static_palette_indices_round_trip() {
    for b in 0..=251u8 {
        assert_eq!(encode_static(decode_static(b)), b);
    }
}

#[test]
fn static_palette_has_256_opaque_entries() {
    let pal = static_palette();
    assert_eq!(pal.len(), 256);
    assert_eq!(pal[0], [0, 0, 0, 255]);
    assert_eq!(pal[1], [0, 0, 0, 255]);
    assert_eq!(pal[2], [51, 0, 0, 255]);
    assert_eq!(pal[252], [255, 255, 255, 255]);
    assert_eq!(pal[255], [102, 0, 0, 255]);
}

#[test]
fn static_palette_shows_the_quantized_color() {
    let pal = static_palette();
    for rgb in [[0u8, 0, 0], [255, 255, 255], [128, 128, 128], [10, 200, 90], [255, 0, 0]] {
        let i = vox_color_index(rgb, None) as usize;
        assert!(i >= 1);
        let c = decode_static(encode_static(rgb));
        assert_eq!(pal[i], [c[0], c[1], c[2], 255]);
    }
    assert_eq!(pal[vox_color_index([0, 0, 0], None) as usize], [0, 0, 0, 255]);
}

#[test]
fn vox_palette_pads_with_black() {
    let pal = vox_palette(&[[1, 2, 3], [4, 5, 6]]);
    assert_eq!(pal.len(), 256);
    assert_eq!(pal[0], [0, 0, 0, 255]);
    assert_eq!(pal[1], [1, 2, 3, 255]);
    assert_eq!(pal[2], [4, 5, 6, 255]);
    assert_eq!(pal[3], [0, 0, 0, 255]);
    assert_eq!(pal[255], [0, 0, 0, 255]);
}

#[test]
fn vox_palette_keeps_at_most_255_colors() {
    let colors: Vec<[u8; 3]> = (0..300u32).map(|i| [(i % 256) as u8, 1, 2]).collect();
    let pal = vox_palette(&colors);
    assert_eq!(pal.len(), 256);
    assert_eq!(pal[255], [254, 1, 2, 255]);
}

#[test]
fn color_index_picks_the_nearest_entry() {
    let pal = [[0, 0, 0, 255], [10, 10, 10, 255], [250, 250, 250, 255], [250, 250, 250, 255]];
    assert_eq!(vox_color_index([255, 255, 255], Some(&pal)), 2);
    assert_eq!(vox_color_index([0, 0, 0], Some(&pal)), 1);
    assert_eq!(vox_color_index([0, 0, 0], Some(&pal[..1])), 1);
    assert_eq!(vox_color_index([255, 255, 255], None), 252);
    assert_eq!(vox_color_index([0, 0, 0], None), 1);
}

fn sample(x: u32, y: u32, z: u32, rgb: [u8; 3]) -> VoxelSample {
    VoxelSample { morton: morton_encode(x, y, z), voxel: Voxel::new(rgb, 0, false, false, false) }
}

fn find<'a>(chunks: &'a [VoxChunk], origin: [i32; 3]) -> &'a VoxChunk {
    chunks.iter().find(|c| c.origin == origin).expect("block present")
}

fn xyzi(v: &VoxVoxel) -> [u8; 4] {
    [v.x, v.y, v.z, v.i]
}

#[test]
fn vox_chunks_group_voxels_by_block() {
    let info = ImportInfo { chunk_voxels: 256, grid_dims: [2, 1, 1] };
    let chunks = vec![
        (0u64, vec![sample(0, 0, 0, [255, 255, 255])]),
        (1u64, vec![sample(0, 0, 0, [0, 0, 0]), sample(1, 0, 0, [255, 0, 0])]),
    ];
    let out = build_vox_chunks(chunks, &info, None);
    assert_eq!(out.len(), 2);
    let a = find(&out, [0, 0, 0]);
    assert_eq!(a.voxels.iter().map(xyzi).collect::<Vec<_>>(), vec![[0, 0, 0, 252]]);
    let b = find(&out, [1, 0, 0]);
    assert_eq!(b.voxels.iter().map(xyzi).collect::<Vec<_>>(), vec![[0, 0, 0, 1], [1, 0, 0, 6]]);
}

#[test]
fn vox_chunks_place_chunks_on_the_grid() {
    let info = ImportInfo { chunk_voxels: 100, grid_dims: [3, 2, 2] };
    // Chunk 10 sits at cell (1, 1, 1) of a 3 x 2 grid layer: origin (100, 100, 100).
    let pal = [[0, 0, 0, 255], [9, 9, 9, 255], [200, 0, 0, 255]];
    let chunks = vec![(10u64, vec![sample(1, 0, 0, [210, 5, 5]), sample(0, 0, 0, [1, 1, 1])])];
    let out = build_vox_chunks(chunks, &info, Some(&pal));
    assert_eq!(out.len(), 1);
    assert_eq!(out[0].origin, [0, 0, 0]);
    assert_eq!(
        out[0].voxels.iter().map(xyzi).collect::<Vec<_>>(),
        vec![[101, 100, 100, 2], [100, 100, 100, 1]]
    );
}

#[test]
fn vox_chunks_of_nothing_are_empty() {
    let info = ImportInfo { chunk_voxels: 16, grid_dims: [0, 0, 0] };
    assert!(build_vox_chunks(Vec::new(), &info, None).is_empty());
}

#[test]
fn model_offset_scales_blocks() {
    assert_eq!(model_offset([1, -2, 0]), [256, -512, 0]);
}

#[test]
fn vox_scene_links_models_into_the_graph() {
    let models = vec![
        VoxChunk { origin: [0, 0, 0], voxels: vec![VoxVoxel { x: 1, y: 2, z: 3, i: 4 }] },
        VoxChunk { origin: [1, -1, 2], voxels: Vec::new() },
    ];
    let scene = vox_scene(models);
    assert_eq!(scene.models.len(), 2);
    assert_eq!(scene.models[1].origin, [1, -1, 2]);
    assert_eq!(scene.nodes.len(), 6);
    assert!(matches!(scene.nodes[0], SceneNode::Transform { child: 1, offset: None }));
    match &scene.nodes[1] {
        SceneNode::Group { children } => assert_eq!(children, &vec![2, 4]),
        _ => panic!("node 1 is the group"),
    }
    assert!(matches!(scene.nodes[2], SceneNode::Transform { child: 3, offset: Some([0, 0, 0]) }));
    assert!(matches!(scene.nodes[3], SceneNode::Shape { model_id: 0 }));
    assert!(matches!(scene.nodes[4], SceneNode::Transform { child: 5, offset: Some([256, -256, 512]) }));
    assert!(matches!(scene.nodes[5], SceneNode::Shape { model_id: 1 }));
}

#[test]
fn vox_scene_of_no_models() {
    let scene = vox_scene(Vec::new());
    assert_eq!(scene.nodes.len(), 2);
    match &scene.nodes[1] {
        SceneNode::Group { children } => assert!(children.is_empty()),
        _ => panic!("node 1 is the group"),
    }
}
