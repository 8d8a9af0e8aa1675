//! The static 6-7-6 RGB palette used when writing MagicaVoxel files.
use vstd::prelude::*;

verus! {

/// Steps of red, green and blue in the static palette.
pub const R_STEPS: u16 = 6;
pub const G_STEPS: u16 = 7;
pub const B_STEPS: u16 = 6;

/// Palette index of the static-palette color nearest to `color`: each channel
/// rounded to its step count, red fastest.
pub open spec fn encode_static_spec(color: [u8; 3]) -> u8 {
    let ri = (color[0] as int * 5 + 127) / 255;
    let gi = (color[1] as int * 6 + 127) / 255;
    let bi = (color[2] as int * 5 + 127) / 255;
    (ri + gi * 6 + bi * 42) as u8
}

/// Color of static-palette index `byte`; index 0 is black.
pub open spec fn decode_static_spec(byte: u8) -> [u8; 3] {
    if byte == 0 {
        [0, 0, 0]
    } else {
        let v = byte as int;
        [
            ((v % 6) * 255 / 5) as u8,
            (((v / 6) % 7) * 255 / 6) as u8,
            (((v / 42) % 6) * 255 / 5) as u8,
        ]
    }
}

pub fn encode_static(color: [u8; 3]) -> (r: u8)
    ensures
        r == encode_static_spec(color),
        r <= 251,
{
    assert(R_STEPS == 6 && G_STEPS == 7 && B_STEPS == 6);
    let r = color[0] as u16;
    let g = color[1] as u16;
    let b = color[2] as u16;
    assert(r * (R_STEPS - 1) == r * 5 && g * (G_STEPS - 1) == g * 6 && b * (B_STEPS - 1) == b * 5);
    let ri = (r * (R_STEPS - 1) + 127) / 255;
    let gi = (g * (G_STEPS - 1) + 127) / 255;
    let bi = (b * (B_STEPS - 1) + 127) / 255;
    assert(gi * R_STEPS == gi * 6 && bi * R_STEPS * G_STEPS == bi * 42);
    (ri + gi * R_STEPS + bi * R_STEPS * G_STEPS) as u8
}

pub fn decode_static(byte: u8) -> (r: [u8; 3])
    ensures
        r == decode_static_spec(byte),
{
    if byte == 0 {
        return [0, 0, 0];
    }
    assert(R_STEPS == 6 && G_STEPS == 7 && B_STEPS == 6);
    let v = byte as u16;
    let ri = v % R_STEPS;
    let gi = (v / R_STEPS) % G_STEPS;
    let bi = (v / (R_STEPS * G_STEPS)) % B_STEPS;
    assert(ri * 255 / (R_STEPS - 1) == ri * 255 / 5);
    assert(gi * 255 / (G_STEPS - 1) == gi * 255 / 6);
    assert(bi * 255 / (B_STEPS - 1) == bi * 255 / 5);
    let r = [
        (ri * 255 / (R_STEPS - 1)) as u8,
        (gi * 255 / (G_STEPS - 1)) as u8,
        (bi * 255 / (B_STEPS - 1)) as u8,
    ];
    assert(r =~= decode_static_spec(byte));
    r
}

/// The 256 RGBA colors of the `.vox` palette for static-palette indices:
/// entry 0 is black (air), and entry `k` above 0 holds the color of static
/// index `k - 1`, so a voxel written with index `encode_static(rgb) + 1`
/// shows `decode_static(encode_static(rgb))`; every entry is opaque.
pub fn static_palette() -> (r: Vec<[u8; 4]>)
    ensures
        r@.len() == 256,
        r@[0] == [0u8, 0, 0, 255],
        forall|i: int|
            1 <= i < 256 ==> {
                let c = decode_static_spec((i - 1) as u8);
                #[trigger] r@[i] == [c[0], c[1], c[2], 255u8]
            },
{
    let mut out: Vec<[u8; 4]> = Vec::new();
    out.push([0, 0, 0, 255]);
    let mut i: u16 = 0;
    while i < 255
        invariant
            i <= 255,
            out@.len() == i + 1,
            out@[0] == [0u8, 0, 0, 255],
            forall|k: int|
                1 <= k <= i ==> {
                    let c = decode_static_spec((k - 1) as u8);
                    #[trigger] out@[k] == [c[0], c[1], c[2], 255u8]
                },
        decreases 255 - i,
    {
        let c = decode_static(i as u8);
        out.push([c[0], c[1], c[2], 255]);
        i += 1;
    }
    out
}

/// The palette written to a `.vox` file from a list of colors: index 0 is
/// black (air), then at most 255 of the colors in order, then black up to
/// 256 entries; every entry is opaque.
pub fn vox_palette(colors: &[[u8; 3]]) -> (r: Vec<[u8; 4]>)
    ensures
        r@.len() == 256,
        r@[0] == [0u8, 0, 0, 255],
        forall|i: int|
            1 <= i < 256 ==> #[trigger] r@[i] == (if i - 1 < colors@.len() {
                [colors@[i - 1][0], colors@[i - 1][1], colors@[i - 1][2], 255u8]
            } else {
                [0u8, 0, 0, 255]
            }),
{
    let mut pal: Vec<[u8; 4]> = Vec::new();
    pal.push([0, 0, 0, 255]);
    let mut k: usize = 0;
    while k < colors.len() && k < 255
        invariant
            k <= 255,
            k <= colors@.len(),
            pal@.len() == k + 1,
            pal@[0] == [0u8, 0, 0, 255],
            forall|i: int|
                1 <= i < pal@.len() ==> #[trigger] pal@[i] == [
                    colors@[i - 1][0],
                    colors@[i - 1][1],
                    colors@[i - 1][2],
                    255u8,
                ],
        decreases 255 - k,
    {
        let c = colors[k];
        pal.push([c[0], c[1], c[2], 255]);
        k += 1;
    }
    while pal.len() < 256
        invariant
            1 <= pal@.len() <= 256,
            pal@[0] == [0u8, 0, 0, 255],
            pal@.len() > 1 + colors@.len() ==> colors@.len() < 255,
            pal@.len() <= 1 + colors@.len() ==> pal@.len() == 1 + (if colors@.len() < 255 {
                colors@.len()
            } else {
                255
            }),
            forall|i: int|
                1 <= i < pal@.len() ==> #[trigger] pal@[i] == (if i - 1 < colors@.len() {
                    [colors@[i - 1][0], colors@[i - 1][1], colors@[i - 1][2], 255u8]
                } else {
                    [0u8, 0, 0, 255]
                }),
        decreases 256 - pal@.len(),
    {
        pal.push([0, 0, 0, 255]);
    }
    pal
}

proof fn lemma_step5_roundtrip(x: int)
    requires
        0 <= x < 6,
    ensures
        0 <= x * 255 / 5 <= 255,
        ((x * 255 / 5) * 5 + 127) / 255 == x,
{
    if x == 0 {
    } else if x == 1 {
    } else if x == 2 {
    } else if x == 3 {
    } else if x == 4 {
    } else {
    }
}

proof fn lemma_step6_roundtrip(x: int)
    requires
        0 <= x < 7,
    ensures
        0 <= x * 255 / 6 <= 255,
        ((x * 255 / 6) * 6 + 127) / 255 == x,
{
    if x == 0 {
    } else if x == 1 {
    } else if x == 2 {
    } else if x == 3 {
    } else if x == 4 {
    } else if x == 5 {
    } else {
    }
}

/// Every color of the static palette maps back to its own index: for
/// `b <= 251`, `encode_static(decode_static(b)) == b`.
pub proof fn lemma_static_index_roundtrip(b: u8)
    requires
        b <= 251,
    ensures
        encode_static_spec(decode_static_spec(b)) == b,
{
    if b != 0 {
        let v = b as int;
        let ri = v % 6;
        let gi = (v / 6) % 7;
        let bi = (v / 42) % 6;
        assert(v / 42 < 6);
        assert(bi == v / 42);
        assert((v / 6) / 7 == v / 42) by {
            vstd::arithmetic::div_mod::lemma_div_denominator(v, 6, 7);
        }
        assert(v == ri + 6 * (v / 6)) by {
            vstd::arithmetic::div_mod::lemma_fundamental_div_mod(v, 6);
        }
        assert(v / 6 == gi + 7 * (v / 42)) by {
            vstd::arithmetic::div_mod::lemma_fundamental_div_mod(v / 6, 7);
        }
        lemma_step5_roundtrip(ri);
        lemma_step6_roundtrip(gi);
        lemma_step5_roundtrip(bi);
        let c = decode_static_spec(b);
        assert(c[0] as int == ri * 255 / 5);
        assert(c[1] as int == gi * 255 / 6);
        assert(c[2] as int == bi * 255 / 5);
    }
}

} // verus!
