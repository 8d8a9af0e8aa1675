//! Morton (Z-order) coding of positions within a chunk: bit `i` of x, y and
//! z goes to bits `3i`, `3i + 1` and `3i + 2` of the code, for the low 21
//! bits of each coordinate.
use vstd::prelude::*;

verus! {

/// Bit `i` of `v` moved to bit `3 * i`, for `i` below 21; higher bits are
/// dropped.
pub open spec fn spread_spec(v: u64) -> u64 {
    (((v >> 0u64) & 1) << 0u64) | (((v >> 1u64) & 1) << 3u64) | (((v >> 2u64) & 1) << 6u64) | (((v >> 3u64) & 1) << 9u64) | (((v >> 4u64) & 1) << 12u64) | (((v >> 5u64) & 1) << 15u64) | (((v >> 6u64) & 1) << 18u64) | (((v >> 7u64) & 1) << 21u64) | (((v >> 8u64) & 1) << 24u64) | (((v >> 9u64) & 1) << 27u64) | (((v >> 10u64) & 1) << 30u64) | (((v >> 11u64) & 1) << 33u64) | (((v >> 12u64) & 1) << 36u64) | (((v >> 13u64) & 1) << 39u64) | (((v >> 14u64) & 1) << 42u64) | (((v >> 15u64) & 1) << 45u64) | (((v >> 16u64) & 1) << 48u64) | (((v >> 17u64) & 1) << 51u64) | (((v >> 18u64) & 1) << 54u64) | (((v >> 19u64) & 1) << 57u64) | (((v >> 20u64) & 1) << 60u64)
}

/// Bit `i` of the result is bit `3 * i` of `v`, for `i` below 21.
pub open spec fn third_bits(v: u64) -> u64 {
    (((v >> 0u64) & 1) << 0u64) | (((v >> 3u64) & 1) << 1u64) | (((v >> 6u64) & 1) << 2u64) | (((v >> 9u64) & 1) << 3u64) | (((v >> 12u64) & 1) << 4u64) | (((v >> 15u64) & 1) << 5u64) | (((v >> 18u64) & 1) << 6u64) | (((v >> 21u64) & 1) << 7u64) | (((v >> 24u64) & 1) << 8u64) | (((v >> 27u64) & 1) << 9u64) | (((v >> 30u64) & 1) << 10u64) | (((v >> 33u64) & 1) << 11u64) | (((v >> 36u64) & 1) << 12u64) | (((v >> 39u64) & 1) << 13u64) | (((v >> 42u64) & 1) << 14u64) | (((v >> 45u64) & 1) << 15u64) | (((v >> 48u64) & 1) << 16u64) | (((v >> 51u64) & 1) << 17u64) | (((v >> 54u64) & 1) << 18u64) | (((v >> 57u64) & 1) << 19u64) | (((v >> 60u64) & 1) << 20u64)
}

/// The code `morton_encode` gives a position.
pub open spec fn morton_spec(x: u32, y: u32, z: u32) -> u64 {
    spread_spec(x as u64) | (spread_spec(y as u64) << 1u64) | (spread_spec(z as u64) << 2u64)
}

/// The position `morton_decode` gives a code.
pub open spec fn unmorton_spec(code: u64) -> [u32; 3] {
    [
        third_bits(code) as u32,
        third_bits(code >> 1u64) as u32,
        third_bits(code >> 2u64) as u32,
    ]
}

fn spread(v: u64) -> (r: u64)
    ensures
        r == spread_spec(v),
{
    let ghost v0 = v;
    let mut v = v & 0x1f_ffff;
    v = (v | (v << 32)) & 0x001f_0000_0000_ffff;
    v = (v | (v << 16)) & 0x001f_0000_ff00_00ff;
    v = (v | (v << 8)) & 0x100f_00f0_0f00_f00f;
    v = (v | (v << 4)) & 0x10c3_0c30_c30c_30c3;
    v = (v | (v << 2)) & 0x1249_2492_4924_9249;
    proof {
        let a = v0 & 0x1f_ffff;
        let b = (a | (a << 32u64)) & 0x001f_0000_0000_ffff;
        let c = (b | (b << 16u64)) & 0x001f_0000_ff00_00ff;
        let d = (c | (c << 8u64)) & 0x100f_00f0_0f00_f00f;
        let e = (d | (d << 4u64)) & 0x10c3_0c30_c30c_30c3;
        let f = (e | (e << 2u64)) & 0x1249_2492_4924_9249;
        assert(f == spread_spec(v0)) by (bit_vector)
            requires
                a == v0 & 0x1f_ffff,
                b == (a | (a << 32u64)) & 0x001f_0000_0000_ffff,
                c == (b | (b << 16u64)) & 0x001f_0000_ff00_00ff,
                d == (c | (c << 8u64)) & 0x100f_00f0_0f00_f00f,
                e == (d | (d << 4u64)) & 0x10c3_0c30_c30c_30c3,
                f == (e | (e << 2u64)) & 0x1249_2492_4924_9249,
        ;
    }
    v
}

fn compact(v: u64) -> (r: u32)
    ensures
        r == third_bits(v) as u32,
        third_bits(v) < 0x20_0000,
{
    let ghost v0 = v;
    let mut v = v & 0x1249_2492_4924_9249;
    v = (v | (v >> 2)) & 0x10c3_0c30_c30c_30c3;
    v = (v | (v >> 4)) & 0x100f_00f0_0f00_f00f;
    v = (v | (v >> 8)) & 0x001f_0000_ff00_00ff;
    v = (v | (v >> 16)) & 0x001f_0000_0000_ffff;
    v = (v | (v >> 32)) & 0x1f_ffff;
    proof {
        let a = v0 & 0x1249_2492_4924_9249;
        let b = (a | (a >> 2u64)) & 0x10c3_0c30_c30c_30c3;
        let c = (b | (b >> 4u64)) & 0x100f_00f0_0f00_f00f;
        let d = (c | (c >> 8u64)) & 0x001f_0000_ff00_00ff;
        let e = (d | (d >> 16u64)) & 0x001f_0000_0000_ffff;
        let f = (e | (e >> 32u64)) & 0x1f_ffff;
        assert(f == third_bits(v0) && f < 0x20_0000) by (bit_vector)
            requires
                a == v0 & 0x1249_2492_4924_9249,
                b == (a | (a >> 2u64)) & 0x10c3_0c30_c30c_30c3,
                c == (b | (b >> 4u64)) & 0x100f_00f0_0f00_f00f,
                d == (c | (c >> 8u64)) & 0x001f_0000_ff00_00ff,
                e == (d | (d >> 16u64)) & 0x001f_0000_0000_ffff,
                f == (e | (e >> 32u64)) & 0x1f_ffff,
        ;
    }
    v as u32
}

/// The Morton code of a chunk-local position: the three coordinates' spread
/// bits, shifted by 0, 1 and 2.
pub fn morton_encode(x: u32, y: u32, z: u32) -> (r: u64)
    ensures
        r == morton_spec(x, y, z),
{
    spread(x as u64) | (spread(y as u64) << 1) | (spread(z as u64) << 2)
}

/// The position read back from a Morton code: every third bit of the code,
/// and of the code shifted down by 1 and by 2.
pub fn morton_decode(code: u64) -> (r: [u32; 3])
    ensures
        r == unmorton_spec(code),
{
    let r = [compact(code), compact(code >> 1), compact(code >> 2)];
    assert(r =~= unmorton_spec(code));
    r
}

/// Decoding inverts encoding for coordinates below 2^21, the bits a code
/// holds.
pub proof fn lemma_morton_roundtrip(x: u32, y: u32, z: u32)
    requires
        x < 0x20_0000,
        y < 0x20_0000,
        z < 0x20_0000,
    ensures
        unmorton_spec(morton_spec(x, y, z)) == [x, y, z],
{
    let (a, b, c) = (x as u64, y as u64, z as u64);
    let code = morton_spec(x, y, z);
    assert(code == spread_spec(a) | (spread_spec(b) << 1u64) | (spread_spec(c) << 2u64));
    assert(third_bits(spread_spec(a) | (spread_spec(b) << 1u64) | (spread_spec(c) << 2u64)) == a)
        by (bit_vector)
        requires
            a < 0x20_0000,
    ;
    assert(third_bits((spread_spec(a) | (spread_spec(b) << 1u64) | (spread_spec(c) << 2u64)) >> 1u64)
        == b) by (bit_vector)
        requires
            b < 0x20_0000,
    ;
    assert(third_bits((spread_spec(a) | (spread_spec(b) << 1u64) | (spread_spec(c) << 2u64)) >> 2u64)
        == c) by (bit_vector)
        requires
            c < 0x20_0000,
    ;
    assert(unmorton_spec(code) =~= [x, y, z]);
}

} // verus!
