//! Grouping imported voxels into MagicaVoxel models of at most 256^3 voxels.
use vstd::prelude::*;

verus! {

use crate::format::vox::{encode_static, encode_static_spec};
use crate::import::{ImportInfo, VoxelSample};
use crate::import::voxelize::{morton_decode, unmorton_spec, morton_spec, lemma_morton_roundtrip};

/// One voxel of a `.vox` model: its position inside the model and its
/// palette index.
#[derive(Clone, Copy)]
pub struct VoxVoxel {
    pub x: u8,
    pub y: u8,
    pub z: u8,
    pub i: u8,
}

/// A `.vox` model: the voxels whose global position falls in the 256^3 block
/// at `origin` (in units of 256 voxels).
pub struct VoxChunk {
    pub origin: [i32; 3],
    pub voxels: Vec<VoxVoxel>,
}

/// Squared RGB distance between a palette entry and a color.
pub open spec fn color_dist(c: [u8; 4], rgb: [u8; 3]) -> int {
    let dr = rgb[0] as int - c[0] as int;
    let dg = rgb[1] as int - c[1] as int;
    let db = rgb[2] as int - c[2] as int;
    dr * dr + dg * dg + db * db
}

/// `i` is the first entry of `pal`, skipping entry 0 (air), at the least
/// distance from `rgb`.
pub open spec fn is_nearest(pal: Seq<[u8; 4]>, rgb: [u8; 3], i: int) -> bool {
    &&& 1 <= i < pal.len()
    &&& forall|j: int| 1 <= j < pal.len() ==> color_dist(pal[i], rgb) <= #[trigger] color_dist(pal[j], rgb)
    &&& forall|j: int| 1 <= j < i ==> color_dist(pal[i], rgb) < #[trigger] color_dist(pal[j], rgb)
}

/// The nearest non-air palette entry to `rgb`.
pub open spec fn nearest_index(pal: Seq<[u8; 4]>, rgb: [u8; 3]) -> int {
    choose|i: int| is_nearest(pal, rgb, i)
}

/// At most one entry is the first nearest one.
pub proof fn lemma_nearest_unique(pal: Seq<[u8; 4]>, rgb: [u8; 3], a: int, b: int)
    requires
        is_nearest(pal, rgb, a),
        is_nearest(pal, rgb, b),
    ensures
        a == b,
{
    if a < b {
        assert(color_dist(pal[b], rgb) < color_dist(pal[a], rgb));
    } else if b < a {
        assert(color_dist(pal[a], rgb) < color_dist(pal[b], rgb));
    }
}

/// Palette index written for a voxel of color `rgb`: the nearest entry of
/// the given palette (1 when it has no entry but air), or else the static
/// palette's index shifted past air.
pub open spec fn color_index(rgb: [u8; 3], palette: Option<Seq<[u8; 4]>>) -> u8 {
    match palette {
        Some(pal) => if pal.len() <= 1 {
            1u8
        } else {
            nearest_index(pal, rgb) as u8
        },
        None => (encode_static_spec(rgb) + 1) as u8,
    }
}

/// With the static palette a voxel's index is its static index shifted past
/// air, so it names entry `encode_static(rgb) + 1` of `static_palette`,
/// which holds `decode_static(encode_static(rgb))`.
pub proof fn lemma_static_index_shifted(rgb: [u8; 3])
    ensures
        1 <= color_index(rgb, None) <= 252,
        color_index(rgb, None) as int == encode_static_spec(rgb) as int + 1,
{
    let ri = (rgb[0] as int * 5 + 127) / 255;
    let gi = (rgb[1] as int * 6 + 127) / 255;
    let bi = (rgb[2] as int * 5 + 127) / 255;
    assert(0 <= ri <= 5 && 0 <= gi <= 6 && 0 <= bi <= 5);
    assert(ri + gi * 6 + bi * 42 <= 251);
}

pub open spec fn palette_view(palette: Option<&[[u8; 4]]>) -> Option<Seq<[u8; 4]>> {
    match palette {
        Some(p) => Some(p@),
        None => None,
    }
}


/// Coordinate `c` (0, 1, 2 for x, y, z) of the grid cell that chunk number
/// `flat` (taken as a `u32`) occupies, x fastest.
pub open spec fn cell_coord(info: ImportInfo, flat: u64, c: int) -> int {
    let f = flat as u32 as int;
    let d0 = info.grid_dims[0] as int;
    let d1 = info.grid_dims[1] as int;
    if c == 0 {
        f % d0
    } else if c == 1 {
        (f / d0) % d1
    } else {
        f / (d0 * d1)
    }
}

/// Coordinate `c` of the first voxel of chunk number `flat`.
pub open spec fn origin_coord(info: ImportInfo, flat: u64, c: int) -> int {
    cell_coord(info, flat, c) * info.chunk_voxels as int
}

/// Coordinate `c` of the global position of a sample with Morton code `code`
/// in chunk number `flat`: the chunk's origin and the decoded local position,
/// each read as an `i32`.
pub open spec fn global_coord(info: ImportInfo, flat: u64, code: u64, c: int) -> int {
    (origin_coord(info, flat, c) as u32 as i32) as int + (unmorton_spec(code)[c] as i32) as int
}

/// The 256^3 block that a sample falls in.
pub open spec fn sample_key(info: ImportInfo, flat: u64, s: VoxelSample) -> [i32; 3] {
    [
        (global_coord(info, flat, s.morton, 0) / 256) as i32,
        (global_coord(info, flat, s.morton, 1) / 256) as i32,
        (global_coord(info, flat, s.morton, 2) / 256) as i32,
    ]
}

/// The `.vox` voxel a sample becomes: its position inside its block and its
/// palette index.
pub open spec fn sample_voxel(
    info: ImportInfo,
    flat: u64,
    s: VoxelSample,
    palette: Option<Seq<[u8; 4]>>,
) -> VoxVoxel {
    VoxVoxel {
        x: (global_coord(info, flat, s.morton, 0) % 256) as u8,
        y: (global_coord(info, flat, s.morton, 1) % 256) as u8,
        z: (global_coord(info, flat, s.morton, 2) % 256) as u8,
        i: color_index(s.voxel.rgb_spec(), palette),
    }
}

/// The samples of one chunk as (block, voxel) pairs, in order.
pub open spec fn chunk_entries(
    info: ImportInfo,
    flat: u64,
    samples: Seq<VoxelSample>,
    palette: Option<Seq<[u8; 4]>>,
) -> Seq<([i32; 3], VoxVoxel)> {
    samples.map_values(|s: VoxelSample| (sample_key(info, flat, s), sample_voxel(info, flat, s, palette)))
}

/// The samples of all chunks as (block, voxel) pairs, chunk after chunk.
pub open spec fn all_entries(
    info: ImportInfo,
    chunks: Seq<(u64, Vec<VoxelSample>)>,
    palette: Option<Seq<[u8; 4]>>,
) -> Seq<([i32; 3], VoxVoxel)>
    decreases chunks.len(),
{
    if chunks.len() == 0 {
        Seq::empty()
    } else {
        all_entries(info, chunks.drop_last(), palette) + chunk_entries(
            info,
            chunks.last().0,
            chunks.last().1@,
            palette,
        )
    }
}

/// The voxels of the entries that fall in block `key`, in order.
pub open spec fn voxels_at(entries: Seq<([i32; 3], VoxVoxel)>, key: [i32; 3]) -> Seq<VoxVoxel>
    decreases entries.len(),
{
    if entries.len() == 0 {
        Seq::empty()
    } else {
        let rest = voxels_at(entries.drop_last(), key);
        if entries.last().0 == key {
            rest.push(entries.last().1)
        } else {
            rest
        }
    }
}

/// What the grid arithmetic of `build_vox_chunks` needs: a nonzero grid
/// whose x-y layer count fits in a `u32`, chunk origins that fit in a `u32`,
/// and global coordinates that fit in an `i32`.
pub open spec fn chunks_fit(info: ImportInfo, chunks: Seq<(u64, Vec<VoxelSample>)>) -> bool {
    &&& chunks.len() > 0 ==> {
        &&& info.grid_dims[0] > 0
        &&& info.grid_dims[1] > 0
        &&& info.grid_dims[0] as int * info.grid_dims[1] as int <= u32::MAX
    }
    &&& forall|k: int, c: int|
        0 <= k < chunks.len() && 0 <= c < 3 ==> #[trigger] origin_coord(info, chunks[k].0, c) <= u32::MAX
    &&& forall|k: int, j: int, c: int|
        0 <= k < chunks.len() && 0 <= j < chunks[k].1@.len() && 0 <= c < 3 ==> i32::MIN
            <= #[trigger] global_coord(info, chunks[k].0, chunks[k].1@[j].morton, c) <= i32::MAX
}

/// `out` groups `entries` by block: distinct origins, each holding in order
/// the voxels of its block, a group for every block that occurs, and no
/// group without a voxel.
pub open spec fn groups_match(out: Seq<VoxChunk>, entries: Seq<([i32; 3], VoxVoxel)>) -> bool {
    &&& forall|a: int, b: int| 0 <= a < b < out.len() ==> #[trigger] out[a].origin != #[trigger] out[b].origin
    &&& forall|a: int| 0 <= a < out.len() ==> #[trigger] out[a].voxels@ == voxels_at(entries, out[a].origin)
    &&& forall|m: int| 0 <= m < entries.len() ==> exists|a: int| 0 <= a < out.len() && #[trigger] out[a].origin == #[trigger] entries[m].0
    &&& forall|a: int| 0 <= a < out.len() ==> (#[trigger] out[a].voxels@).len() > 0
}

proof fn lemma_voxels_at_absent(entries: Seq<([i32; 3], VoxVoxel)>, key: [i32; 3])
    requires
        forall|m: int| 0 <= m < entries.len() ==> #[trigger] entries[m].0 != key,
    ensures
        voxels_at(entries, key) == Seq::<VoxVoxel>::empty(),
    decreases entries.len(),
{
    if entries.len() > 0 {
        let rest = entries.drop_last();
        assert forall|m: int| 0 <= m < rest.len() implies #[trigger] rest[m].0 != key by {
            assert(rest[m] == entries[m]);
        }
        lemma_voxels_at_absent(rest, key);
        assert(entries.last() == entries[entries.len() - 1]);
    }
}

proof fn lemma_all_entries_step(
    info: ImportInfo,
    chunks: Seq<(u64, Vec<VoxelSample>)>,
    palette: Option<Seq<[u8; 4]>>,
    k: int,
)
    requires
        0 <= k < chunks.len(),
    ensures
        all_entries(info, chunks.take(k + 1), palette) == all_entries(info, chunks.take(k), palette)
            + chunk_entries(info, chunks[k].0, chunks[k].1@, palette),
{
    let t = chunks.take(k + 1);
    assert(t.drop_last() =~= chunks.take(k));
    assert(t.last() == chunks[k]);
}

/// Splits a global coordinate into its 256-voxel block and the position in
/// that block, as Euclidean division and remainder.
fn split_block(g: i32) -> (r: (i32, u8))
    ensures
        r.0 as int == g as int / 256,
        r.1 as int == g as int % 256,
{
    let u: u64 = (g as i64 + 2147483648i64) as u64;
    let q: u64 = u / 256;
    let rem: u64 = u % 256;
    proof {
        let qq = q as int - 8388608;
        assert(g as int == qq * 256 + rem as int);
        vstd::arithmetic::div_mod::lemma_fundamental_div_mod_converse(g as int, 256, qq, rem as int);
    }
    ((q as i64 - 8388608i64) as i32, rem as u8)
}

fn sample_entry(
    info: &ImportInfo,
    flat: u64,
    origin: [u32; 3],
    s: VoxelSample,
    palette: Option<&[[u8; 4]]>,
) -> (r: ([i32; 3], VoxVoxel))
    requires
        forall|c: int| 0 <= c < 3 ==> origin[c] as int == #[trigger] origin_coord(*info, flat, c),
        forall|c: int|
            0 <= c < 3 ==> i32::MIN <= #[trigger] global_coord(*info, flat, s.morton, c) <= i32::MAX,
    ensures
        r.0 == sample_key(*info, flat, s),
        r.1 == sample_voxel(*info, flat, s, palette_view(palette)),
{
    let local = morton_decode(s.morton);
    assert(global_coord(*info, flat, s.morton, 0) == (origin[0] as i32) as int + (local[0] as i32) as int);
    assert(global_coord(*info, flat, s.morton, 1) == (origin[1] as i32) as int + (local[1] as i32) as int);
    assert(global_coord(*info, flat, s.morton, 2) == (origin[2] as i32) as int + (local[2] as i32) as int);
    let gx = origin[0] as i32 + local[0] as i32;
    let gy = origin[1] as i32 + local[1] as i32;
    let gz = origin[2] as i32 + local[2] as i32;
    let (bx, lx) = split_block(gx);
    let (by, ly) = split_block(gy);
    let (bz, lz) = split_block(gz);
    let rgb = s.voxel.rgb();
    let i = vox_color_index(rgb, palette);
    let key = [bx, by, bz];
    let vox = VoxVoxel { x: lx, y: ly, z: lz, i };
    assert(key =~= sample_key(*info, flat, s));
    (key, vox)
}

fn find_block(out: &Vec<VoxChunk>, key: [i32; 3]) -> (r: Option<usize>)
    ensures
        match r {
            Some(p) => p < out@.len() && out@[p as int].origin == key,
            None => forall|a: int| 0 <= a < out@.len() ==> #[trigger] out@[a].origin != key,
        },
{
    let mut a: usize = 0;
    while a < out.len()
        invariant
            a <= out@.len(),
            forall|b: int| 0 <= b < a ==> #[trigger] out@[b].origin != key,
        decreases out@.len() - a,
    {
        let o = out[a].origin;
        if o[0] == key[0] && o[1] == key[1] && o[2] == key[2] {
            assert(o =~= key);
            return Some(a);
        }
        assert(o != key);
        a += 1;
    }
    None
}

fn add_entry(out: &mut Vec<VoxChunk>, key: [i32; 3], vox: VoxVoxel, Ghost(done): Ghost<Seq<([i32; 3], VoxVoxel)>>)
    requires
        groups_match(old(out)@, done),
    ensures
        groups_match(final(out)@, done.push((key, vox))),
{
    let ghost next = done.push((key, vox));
    proof {
        assert(next.drop_last() =~= done);
        assert(next.last() == (key, vox));
    }
    match find_block(out, key) {
        Some(p) => {
            let ghost before = out@;
            out[p].voxels.push(vox);
            proof {
                assert forall|a: int| 0 <= a < out@.len() implies #[trigger] out@[a].voxels@ == voxels_at(
                    next,
                    out@[a].origin,
                ) by {
                    if a != p as int {
                        assert(out@[a] == before[a]);
                    }
                }
                assert forall|m: int| 0 <= m < next.len() implies exists|a: int|
                    0 <= a < out@.len() && #[trigger] out@[a].origin == #[trigger] next[m].0 by {
                    if m < done.len() {
                        assert(next[m] == done[m]);
                        let a = choose|a: int| 0 <= a < before.len() && #[trigger] before[a].origin == #[trigger] done[m].0;
                        assert(out@[a].origin == before[a].origin);
                    } else {
                        assert(out@[p as int].origin == next[m].0);
                    }
                }
            }
        },
        None => {
            proof {
                assert forall|m: int| 0 <= m < done.len() implies #[trigger] done[m].0 != key by {
                    let a = choose|a: int| 0 <= a < out@.len() && #[trigger] out@[a].origin == #[trigger] done[m].0;
                }
                lemma_voxels_at_absent(done, key);
            }
            let ghost before = out@;
            let mut voxels: Vec<VoxVoxel> = Vec::new();
            voxels.push(vox);
            out.push(VoxChunk { origin: key, voxels });
            proof {
                assert(voxels@ =~= Seq::<VoxVoxel>::empty().push(vox));
                assert forall|a: int| 0 <= a < out@.len() implies #[trigger] out@[a].voxels@ == voxels_at(
                    next,
                    out@[a].origin,
                ) by {
                    if a < before.len() {
                        assert(out@[a] == before[a]);
                    }
                }
                assert forall|m: int| 0 <= m < next.len() implies exists|a: int|
                    0 <= a < out@.len() && #[trigger] out@[a].origin == #[trigger] next[m].0 by {
                    if m < done.len() {
                        assert(next[m] == done[m]);
                        let a = choose|a: int| 0 <= a < before.len() && #[trigger] before[a].origin == #[trigger] done[m].0;
                        assert(out@[a] == before[a]);
                    } else {
                        assert(out@[before.len() as int].origin == next[m].0);
                    }
                }
            }
        },
    }
}

/// Groups the samples of imported chunks into `.vox` models of 256^3 voxels.
/// Chunk number `flat` sits at its cell of the grid (x fastest), scaled by
/// the chunk side; each sample's global position is that origin plus its
/// decoded local position. Every block that a sample falls in becomes one
/// model holding, in input order, the voxels that fall in it, with their
/// positions inside the block and their palette indices.
pub fn build_vox_chunks(
    all_chunks: Vec<(u64, Vec<VoxelSample>)>,
    info: &ImportInfo,
    palette: Option<&[[u8; 4]]>,
) -> (r: Vec<VoxChunk>)
    requires
        chunks_fit(*info, all_chunks@),
    ensures
        groups_match(r@, all_entries(*info, all_chunks@, palette_view(palette))),
{
    let ghost chunks = all_chunks@;
    let ghost pal = palette_view(palette);
    let mut out: Vec<VoxChunk> = Vec::new();
    let ghost mut done: Seq<([i32; 3], VoxVoxel)> = Seq::empty();
    let cv = info.chunk_voxels;
    let dims = info.grid_dims;
    let mut k: usize = 0;
    proof {
        assert(chunks.take(0) =~= Seq::<(u64, Vec<VoxelSample>)>::empty());
    }
    while k < all_chunks.len()
        invariant
            k <= chunks.len(),
            chunks == all_chunks@,
            pal == palette_view(palette),
            cv == info.chunk_voxels,
            dims == info.grid_dims,
            chunks_fit(*info, chunks),
            done == all_entries(*info, chunks.take(k as int), pal),
            groups_match(out@, done),
        decreases chunks.len() - k,
    {
        let flat_idx = all_chunks[k].0;
        let f = #[verifier::truncate] (flat_idx as u32);
        assert(origin_coord(*info, chunks[k as int].0, 0) <= u32::MAX);
        assert(origin_coord(*info, chunks[k as int].0, 1) <= u32::MAX);
        assert(origin_coord(*info, chunks[k as int].0, 2) <= u32::MAX);
        let d01 = dims[0] * dims[1];
        assert(d01 > 0) by (nonlinear_arith)
            requires
                d01 == dims[0] as int * dims[1] as int,
                dims[0] > 0,
                dims[1] > 0,
        ;
        let cx = f % dims[0];
        let cy = (f / dims[0]) % dims[1];
        let cz = f / d01;
        let origin: [u32; 3] = [cx * cv, cy * cv, cz * cv];
        let samples = &all_chunks[k].1;
        let ghost base = done;
        let ghost ents = chunk_entries(*info, flat_idx, samples@, pal);
        let mut j: usize = 0;
        while j < samples.len()
            invariant
                k < chunks.len(),
                j <= samples@.len(),
                samples == chunks[k as int].1,
                flat_idx == chunks[k as int].0,
                chunks_fit(*info, chunks),
                forall|c: int| 0 <= c < 3 ==> origin[c] as int == #[trigger] origin_coord(*info, flat_idx, c),
                ents == chunk_entries(*info, flat_idx, samples@, pal),
                pal == palette_view(palette),
                done == base + ents.take(j as int),
                groups_match(out@, done),
            decreases samples@.len() - j,
        {
            let s = samples[j];
            assert(global_coord(*info, flat_idx, s.morton, 0) <= i32::MAX);
            assert(global_coord(*info, flat_idx, s.morton, 1) <= i32::MAX);
            assert(global_coord(*info, flat_idx, s.morton, 2) <= i32::MAX);
            assert(i32::MIN <= global_coord(*info, flat_idx, s.morton, 0));
            assert(i32::MIN <= global_coord(*info, flat_idx, s.morton, 1));
            assert(i32::MIN <= global_coord(*info, flat_idx, s.morton, 2));
            let (key, vox) = sample_entry(info, flat_idx, origin, s, palette);
            add_entry(&mut out, key, vox, Ghost(done));
            proof {
                assert(ents[j as int] == (key, vox));
                assert(ents.take(j as int + 1) =~= ents.take(j as int).push((key, vox)));
                done = done.push((key, vox));
            }
            j += 1;
        }
        proof {
            assert(ents.take(j as int) =~= ents);
            lemma_all_entries_step(*info, chunks, pal, k as int);
        }
        k += 1;
    }
    proof {
        assert(chunks.take(k as int) =~= chunks);
    }
    out
}

/// Offset of a model in the `.vox` scene: its block origin in voxels.
pub fn model_offset(origin: [i32; 3]) -> (r: [i32; 3])
    requires
        forall|c: int| 0 <= c < 3 ==> i32::MIN <= #[trigger] origin[c] as int * 256 <= i32::MAX,
    ensures
        forall|c: int| 0 <= c < 3 ==> #[trigger] r[c] as int == origin[c] as int * 256,
{
    assert(i32::MIN <= origin[0] as int * 256 <= i32::MAX);
    assert(i32::MIN <= origin[1] as int * 256 <= i32::MAX);
    assert(i32::MIN <= origin[2] as int * 256 <= i32::MAX);
    let r = [origin[0] * 256, origin[1] * 256, origin[2] * 256];
    r
}

/// A node of a `.vox` scene graph; child and model references are indices.
pub enum SceneNode {
    /// A transform with one child and, for a model, its offset in voxels.
    Transform { child: u32, offset: Option<[i32; 3]> },
    /// A group of transform nodes.
    Group { children: Vec<u32> },
    /// A shape showing one model.
    Shape { model_id: u32 },
}

/// The models of a `.vox` file and the scene graph that places them.
pub struct VoxScene {
    pub models: Vec<VoxChunk>,
    pub nodes: Vec<SceneNode>,
}

/// The scene nodes of model `k` at block `origin`: a transform moving it to
/// the block and pointing at the next node, and a shape showing model `k`.
pub open spec fn model_nodes_ok(nodes: Seq<SceneNode>, k: int, origin: [i32; 3]) -> bool {
    &&& nodes[2 + 2 * k] matches SceneNode::Transform { child, offset }
    &&& child == 3 + 2 * k
    &&& offset matches Some(t)
    &&& forall|c: int| 0 <= c < 3 ==> #[trigger] t[c] as int == origin[c] as int * 256
    &&& nodes[3 + 2 * k] matches SceneNode::Shape { model_id }
    &&& model_id == k
}

/// The scene graph of `models`: node 0 is the root transform, pointing at
/// node 1, a group of the models' transforms; model `k` has its transform at
/// node `2 + 2k`, moved to its block, and its shape at node `3 + 2k`.
pub open spec fn scene_nodes_ok(nodes: Seq<SceneNode>, models: Seq<VoxChunk>) -> bool {
    &&& nodes.len() == 2 + 2 * models.len()
    &&& nodes[0] matches SceneNode::Transform { child, offset }
    &&& child == 1 && offset is None
    &&& nodes[1] matches SceneNode::Group { children }
    &&& children@ == Seq::new(models.len(), |k: int| (2 + 2 * k) as u32)
    &&& forall|k: int| 0 <= k < models.len() ==> #[trigger] model_nodes_ok(nodes, k, models[k].origin)
}

/// Builds the `.vox` scene for the given models, in order.
pub fn vox_scene(models: Vec<VoxChunk>) -> (r: VoxScene)
    requires
        2 + 2 * models@.len() <= u32::MAX,
        forall|k: int, c: int|
            0 <= k < models@.len() && 0 <= c < 3 ==> i32::MIN <= #[trigger] models@[k].origin[c] as int
                * 256 <= i32::MAX,
    ensures
        r.models@ == models@,
        scene_nodes_ok(r.nodes@, models@),
{
    let n = models.len();
    let mut nodes: Vec<SceneNode> = Vec::new();
    nodes.push(SceneNode::Transform { child: 1, offset: None });
    nodes.push(SceneNode::Group { children: Vec::new() });
    let mut children: Vec<u32> = Vec::new();
    let mut k: usize = 0;
    while k < n
        invariant
            n == models@.len(),
            2 + 2 * n <= u32::MAX,
            forall|j: int, c: int|
                0 <= j < n && 0 <= c < 3 ==> i32::MIN <= #[trigger] models@[j].origin[c] as int * 256
                    <= i32::MAX,
            k <= n,
            nodes@.len() == 2 + 2 * k,
            nodes@[0] matches SceneNode::Transform { child, offset } && child == 1
                && offset is None,
            children@ == Seq::new(k as nat, |j: int| (2 + 2 * j) as u32),
            forall|j: int| 0 <= j < k ==> #[trigger] model_nodes_ok(nodes@, j, models@[j].origin),
        decreases n - k,
    {
        let origin = models[k].origin;
        assert(forall|c: int| 0 <= c < 3 ==> i32::MIN <= #[trigger] origin[c] as int * 256 <= i32::MAX) by {
            assert forall|c: int| 0 <= c < 3 implies i32::MIN <= #[trigger] origin[c] as int * 256 <= i32::MAX by {
                assert(models@[k as int].origin[c] == origin[c]);
            }
        }
        let t = model_offset(origin);
        let at = (2 + 2 * k) as u32;
        let ghost before = nodes@;
        nodes.push(SceneNode::Transform { child: at + 1, offset: Some(t) });
        nodes.push(SceneNode::Shape { model_id: k as u32 });
        children.push(at);
        proof {
            assert forall|j: int| 0 <= j < k + 1 implies #[trigger] model_nodes_ok(nodes@, j, models@[j].origin) by {
                if j < k {
                    assert(nodes@[2 + 2 * j] == before[2 + 2 * j]);
                    assert(nodes@[3 + 2 * j] == before[3 + 2 * j]);
                    assert(model_nodes_ok(before, j, models@[j].origin));
                }
            }
            assert(children@ =~= Seq::new((k + 1) as nat, |j: int| (2 + 2 * j) as u32));
            assert(nodes@[0] == before[0]);
        }
        k += 1;
    }
    let ghost before = nodes@;
    nodes[1] = SceneNode::Group { children };
    proof {
        assert forall|j: int| 0 <= j < n implies #[trigger] model_nodes_ok(nodes@, j, models@[j].origin) by {
            assert(nodes@[2 + 2 * j] == before[2 + 2 * j]);
            assert(nodes@[3 + 2 * j] == before[3 + 2 * j]);
            assert(model_nodes_ok(before, j, models@[j].origin));
        }
    }
    VoxScene { models, nodes }
}

fn dist(c: [u8; 4], rgb: [u8; 3]) -> (r: i32)
    ensures
        r == color_dist(c, rgb),
{
    let dr = rgb[0] as i32 - c[0] as i32;
    let dg = rgb[1] as i32 - c[1] as i32;
    let db = rgb[2] as i32 - c[2] as i32;
    assert(dr * dr <= 65025 && dg * dg <= 65025 && db * db <= 65025) by (nonlinear_arith)
        requires
            -255 <= dr <= 255,
            -255 <= dg <= 255,
            -255 <= db <= 255,
    ;
    assert(dr * dr >= 0 && dg * dg >= 0 && db * db >= 0) by (nonlinear_arith);
    dr * dr + dg * dg + db * db
}

fn nearest_color(pal: &[[u8; 4]], rgb: [u8; 3]) -> (r: usize)
    requires
        pal@.len() >= 2,
    ensures
        is_nearest(pal@, rgb, r as int),
        r as int == nearest_index(pal@, rgb),
{
    let mut best: usize = 1;
    let mut best_d = dist(pal[1], rgb);
    let mut i: usize = 2;
    while i < pal.len()
        invariant
            2 <= i <= pal@.len(),
            1 <= best < i,
            best_d == color_dist(pal@[best as int], rgb),
            forall|j: int| 1 <= j < i ==> best_d <= #[trigger] color_dist(pal@[j], rgb),
            forall|j: int| 1 <= j < best ==> best_d < #[trigger] color_dist(pal@[j], rgb),
        decreases pal@.len() - i,
    {
        let d = dist(pal[i], rgb);
        if d < best_d {
            best = i;
            best_d = d;
        }
        i += 1;
    }
    proof {
        let b = best as int;
        assert(is_nearest(pal@, rgb, b));
        let c = nearest_index(pal@, rgb);
        assert(is_nearest(pal@, rgb, c));
        lemma_nearest_unique(pal@, rgb, b, c);
    }
    best
}

/// The palette index of a voxel color, as `color_index` states.
pub fn vox_color_index(rgb: [u8; 3], palette: Option<&[[u8; 4]]>) -> (r: u8)
    ensures
        r == color_index(rgb, palette_view(palette)),
{
    match palette {
        Some(pal) => {
            if pal.len() <= 1 {
                1
            } else {
                let i = nearest_color(pal, rgb);
                i as u8
            }
        },
        None => {
            let idx = encode_static(rgb);
            idx + 1
        },
    }
}

/// The first entry of `pal[1..n]` at the least distance from `rgb`.
spec fn first_min(pal: Seq<[u8; 4]>, rgb: [u8; 3], n: int) -> int
    decreases n,
{
    if n <= 2 {
        1
    } else {
        let m = first_min(pal, rgb, n - 1);
        if color_dist(pal[n - 1], rgb) < color_dist(pal[m], rgb) {
            n - 1
        } else {
            m
        }
    }
}

proof fn lemma_first_min(pal: Seq<[u8; 4]>, rgb: [u8; 3], n: int)
    requires
        2 <= n <= pal.len(),
    ensures
        1 <= first_min(pal, rgb, n) < n,
        forall|j: int| 1 <= j < n ==> color_dist(pal[first_min(pal, rgb, n)], rgb) <= #[trigger] color_dist(pal[j], rgb),
        forall|j: int| 1 <= j < first_min(pal, rgb, n) ==> color_dist(pal[first_min(pal, rgb, n)], rgb) < #[trigger] color_dist(pal[j], rgb),
    decreases n,
{
    if n > 2 {
        lemma_first_min(pal, rgb, n - 1);
    }
}

/// A voxel colored `rgb` written with a palette of two or more entries gets
/// the index of an entry other than air (entry 0) whose squared RGB distance
/// `(r - c.r)^2 + (g - c.g)^2 + (b - c.b)^2` to `rgb` is the least among the
/// non-air entries, and the first such entry: no earlier non-air entry is as
/// close. In particular an entry equal to the color wins when it is the
/// first one at distance 0.
pub proof fn lemma_color_index_is_nearest(rgb: [u8; 3], pal: Seq<[u8; 4]>, j: int)
    requires
        2 <= pal.len() <= 256,
        1 <= j < pal.len(),
    ensures
        1 <= color_index(rgb, Some(pal)) < pal.len(),
        ({
            let c = pal[color_index(rgb, Some(pal)) as int];
            let e = pal[j];
            (rgb[0] - c[0]) * (rgb[0] - c[0]) + (rgb[1] - c[1]) * (rgb[1] - c[1]) + (rgb[2] - c[2])
                * (rgb[2] - c[2]) <= (rgb[0] - e[0]) * (rgb[0] - e[0]) + (rgb[1] - e[1]) * (rgb[1]
                - e[1]) + (rgb[2] - e[2]) * (rgb[2] - e[2])
        }),
        j < color_index(rgb, Some(pal)) ==> ({
            let c = pal[color_index(rgb, Some(pal)) as int];
            let e = pal[j];
            (rgb[0] - c[0]) * (rgb[0] - c[0]) + (rgb[1] - c[1]) * (rgb[1] - c[1]) + (rgb[2] - c[2])
                * (rgb[2] - c[2]) < (rgb[0] - e[0]) * (rgb[0] - e[0]) + (rgb[1] - e[1]) * (rgb[1]
                - e[1]) + (rgb[2] - e[2]) * (rgb[2] - e[2])
        }),
{
    lemma_first_min(pal, rgb, pal.len() as int);
    let m = first_min(pal, rgb, pal.len() as int);
    assert(is_nearest(pal, rgb, m));
    let i = nearest_index(pal, rgb);
    assert(is_nearest(pal, rgb, i));
    assert(color_index(rgb, Some(pal)) as int == i);
    assert(color_dist(pal[i], rgb) <= color_dist(pal[j], rgb));
}

/// Chunk number `flat` sits at the grid cell `(x, y, z)` with
/// `flat == (z * d1 + y) * d0 + x`, `x < d0`, `y < d1` (x fastest, then y,
/// then z), and its first voxel is that cell scaled by the chunk size.
pub proof fn lemma_chunk_cell(info: ImportInfo, flat: u64, x: int, y: int, z: int)
    requires
        info.grid_dims[0] > 0,
        info.grid_dims[1] > 0,
        0 <= x < info.grid_dims[0],
        0 <= y < info.grid_dims[1],
        0 <= z,
        flat <= u32::MAX,
        flat as int == (z * info.grid_dims[1] + y) * info.grid_dims[0] + x,
    ensures
        cell_coord(info, flat, 0) == x,
        cell_coord(info, flat, 1) == y,
        cell_coord(info, flat, 2) == z,
        origin_coord(info, flat, 0) == x * info.chunk_voxels,
        origin_coord(info, flat, 1) == y * info.chunk_voxels,
        origin_coord(info, flat, 2) == z * info.chunk_voxels,
{
    let d0 = info.grid_dims[0] as int;
    let d1 = info.grid_dims[1] as int;
    let f = flat as int;
    assert(flat as u32 as int == f);
    let q = z * d1 + y;
    assert(f == q * d0 + x);
    vstd::arithmetic::div_mod::lemma_fundamental_div_mod_converse(f, d0, q, x);
    assert(q == z * d1 + y);
    vstd::arithmetic::div_mod::lemma_fundamental_div_mod_converse(q, d1, z, y);
    assert(y * d0 + x < d0 * d1) by (nonlinear_arith)
        requires
            0 <= x < d0,
            0 <= y < d1,
    ;
    assert(f == z * (d0 * d1) + (y * d0 + x)) by (nonlinear_arith)
        requires
            f == (z * d1 + y) * d0 + x,
    ;
    assert(0 <= y * d0 + x) by (nonlinear_arith)
        requires
            0 <= x,
            0 <= y,
            0 <= d0,
    ;
    vstd::arithmetic::div_mod::lemma_fundamental_div_mod_converse(f, d0 * d1, z, y * d0 + x);
}

/// A sample whose local position `(lx, ly, lz)` inside chunk number `flat`
/// is Morton-encoded lands at the chunk's first voxel plus that position,
/// axis by axis: global x = origin x + lx, global y = origin y + ly, global
/// z = origin z + lz. Its `.vox` block is that position divided by 256 and
/// its place in the block the remainder, so samples at distinct local
/// positions of one chunk land at distinct places.
pub proof fn lemma_sample_position(
    info: ImportInfo,
    flat: u64,
    s: VoxelSample,
    palette: Option<Seq<[u8; 4]>>,
    lx: u32,
    ly: u32,
    lz: u32,
)
    requires
        info.grid_dims[0] > 0,
        info.grid_dims[1] > 0,
        lx < 0x20_0000,
        ly < 0x20_0000,
        lz < 0x20_0000,
        s.morton == morton_spec(lx, ly, lz),
        origin_coord(info, flat, 0) + lx <= i32::MAX,
        origin_coord(info, flat, 1) + ly <= i32::MAX,
        origin_coord(info, flat, 2) + lz <= i32::MAX,
    ensures
        global_coord(info, flat, s.morton, 0) == origin_coord(info, flat, 0) + lx,
        global_coord(info, flat, s.morton, 1) == origin_coord(info, flat, 1) + ly,
        global_coord(info, flat, s.morton, 2) == origin_coord(info, flat, 2) + lz,
        sample_key(info, flat, s) == [
            ((origin_coord(info, flat, 0) + lx) / 256) as i32,
            ((origin_coord(info, flat, 1) + ly) / 256) as i32,
            ((origin_coord(info, flat, 2) + lz) / 256) as i32,
        ],
        sample_voxel(info, flat, s, palette).x == (origin_coord(info, flat, 0) + lx) % 256,
        sample_voxel(info, flat, s, palette).y == (origin_coord(info, flat, 1) + ly) % 256,
        sample_voxel(info, flat, s, palette).z == (origin_coord(info, flat, 2) + lz) % 256,
{
    lemma_morton_roundtrip(lx, ly, lz);
    assert(unmorton_spec(s.morton) == [lx, ly, lz]);
    assert forall|c: int| 0 <= c < 3 implies 0 <= #[trigger] origin_coord(info, flat, c) by {
        let cc = cell_coord(info, flat, c);
        assert(0 <= cc) by {
            let f = flat as u32 as int;
            let d0 = info.grid_dims[0] as int;
            let d1 = info.grid_dims[1] as int;
            assert(d0 * d1 > 0) by (nonlinear_arith)
                requires
                    d0 > 0,
                    d1 > 0,
            ;
            assert(f / d0 >= 0);
            assert(f / (d0 * d1) >= 0);
        }
        assert(0 <= cc * info.chunk_voxels) by (nonlinear_arith)
            requires
                0 <= cc,
        ;
    }
    assert(0 <= origin_coord(info, flat, 0));
    assert(0 <= origin_coord(info, flat, 1));
    assert(0 <= origin_coord(info, flat, 2));
}

proof fn lemma_all_entries_has(
    info: ImportInfo,
    chunks: Seq<(u64, Vec<VoxelSample>)>,
    palette: Option<Seq<[u8; 4]>>,
    k: int,
    j: int,
) -> (m: int)
    requires
        0 <= k < chunks.len(),
        0 <= j < chunks[k].1@.len(),
    ensures
        0 <= m < all_entries(info, chunks, palette).len(),
        all_entries(info, chunks, palette)[m] == (
            sample_key(info, chunks[k].0, chunks[k].1@[j]),
            sample_voxel(info, chunks[k].0, chunks[k].1@[j], palette),
        ),
    decreases chunks.len(),
{
    let rest = chunks.drop_last();
    let before = all_entries(info, rest, palette);
    if k == chunks.len() - 1 {
        before.len() + j
    } else {
        assert(rest[k] == chunks[k]);
        lemma_all_entries_has(info, rest, palette, k, j)
    }
}

proof fn lemma_voxels_at_has(entries: Seq<([i32; 3], VoxVoxel)>, m: int)
    requires
        0 <= m < entries.len(),
    ensures
        voxels_at(entries, entries[m].0).contains(entries[m].1),
    decreases entries.len(),
{
    let key = entries[m].0;
    if m == entries.len() - 1 {
        let v = voxels_at(entries, key);
        assert(v[v.len() - 1] == entries[m].1);
    } else {
        let rest = entries.drop_last();
        assert(rest[m] == entries[m]);
        lemma_voxels_at_has(rest, m);
        let w = voxels_at(rest, key);
        let i = choose|i: int| 0 <= i < w.len() && w[i] == entries[m].1;
        if entries.last().0 == key {
            assert(voxels_at(entries, key)[i] == entries[m].1);
        }
    }
}

/// Nothing is lost: every sample of every chunk appears, as the voxel
/// `sample_voxel` gives, in the model whose origin is the sample's block.
pub proof fn lemma_every_sample_exported(
    out: Seq<VoxChunk>,
    info: ImportInfo,
    chunks: Seq<(u64, Vec<VoxelSample>)>,
    palette: Option<Seq<[u8; 4]>>,
    k: int,
    j: int,
)
    requires
        groups_match(out, all_entries(info, chunks, palette)),
        0 <= k < chunks.len(),
        0 <= j < chunks[k].1@.len(),
    ensures
        exists|a: int|
            0 <= a < out.len() && #[trigger] out[a].origin == sample_key(info, chunks[k].0, chunks[k].1@[j])
                && out[a].voxels@.contains(sample_voxel(info, chunks[k].0, chunks[k].1@[j], palette)),
{
    let entries = all_entries(info, chunks, palette);
    let m = lemma_all_entries_has(info, chunks, palette, k, j);
    lemma_voxels_at_has(entries, m);
    let a = choose|a: int| 0 <= a < out.len() && #[trigger] out[a].origin == #[trigger] entries[m].0;
    assert(out[a].voxels@ == voxels_at(entries, out[a].origin));
}

} // verus!
