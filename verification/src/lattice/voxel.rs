//! The universal 32-bit voxel format.
//!
//! Bit layout:
//!   bits 31-8   rgb          24-bit linear RGB (R=31-24, G=23-16, B=15-8)
//!   bits  7-4   roughness    0 = perfect mirror, 15 = fully diffuse
//!   bit   3     emissive     emits light at its albedo color
//!   bit   2     metallic     conductor, albedo tints specular
//!   bit   1     transparent  refracts rather than reflects
//!   bit   0     reserved
use vstd::prelude::*;

verus! {

use crate::bits::bit_of;

#[derive(Clone, Copy, PartialEq, Eq, Structural, Hash, Debug)]
pub struct Voxel(pub u32);

impl Voxel {
    /// The packed word of a voxel with the given fields; roughness keeps its
    /// low four bits and the reserved bit is zero.
    pub open spec fn packed(
        rgb: [u8; 3],
        roughness: u8,
        emissive: bool,
        metallic: bool,
        transparent: bool,
    ) -> u32 {
        (rgb[0] as int * 0x100_0000 + rgb[1] as int * 0x1_0000 + rgb[2] as int * 0x100 + (roughness
            % 16) as int * 0x10 + bit_of(emissive) as int * 8 + bit_of(metallic) as int * 4 + bit_of(
            transparent,
        ) as int * 2) as u32
    }

    pub open spec fn rgb_spec(self) -> [u8; 3] {
        [(self.0 >> 24u32) as u8, (self.0 >> 16u32) as u8, (self.0 >> 8u32) as u8]
    }

    pub open spec fn roughness_spec(self) -> u8 {
        ((self.0 >> 4u32) & 0xF) as u8
    }

    pub open spec fn emissive_spec(self) -> bool {
        (self.0 >> 3u32) & 1 != 0
    }

    pub open spec fn metallic_spec(self) -> bool {
        (self.0 >> 2u32) & 1 != 0
    }

    pub open spec fn transparent_spec(self) -> bool {
        (self.0 >> 1u32) & 1 != 0
    }

    pub fn new(rgb: [u8; 3], roughness: u8, emissive: bool, metallic: bool, transparent: bool) -> (r:
        Self)
        ensures
            r.0 == Self::packed(rgb, roughness, emissive, metallic, transparent),
            r.rgb_spec() == rgb,
            r.roughness_spec() == roughness % 16,
            r.emissive_spec() == emissive,
            r.metallic_spec() == metallic,
            r.transparent_spec() == transparent,
            r.0 % 2 == 0,
    {
        let e: u32 = if emissive { 1 } else { 0 };
        let m: u32 = if metallic { 1 } else { 0 };
        let t: u32 = if transparent { 1 } else { 0 };
        let r0 = rgb[0] as u32;
        let g0 = rgb[1] as u32;
        let b0 = rgb[2] as u32;
        let rough = (roughness & 0xF) as u32;
        let v = (r0 << 24) | (g0 << 16) | (b0 << 8) | (rough << 4) | (e << 3) | (m << 2) | (t << 1);
        proof {
            assert(roughness & 0xF == roughness % 16) by (bit_vector);
            assert(r0 < 256 && g0 < 256 && b0 < 256 && rough < 16 && e < 2 && m < 2 && t < 2 ==> {
                let v = (r0 << 24) | (g0 << 16) | (b0 << 8) | (rough << 4) | (e << 3) | (m << 2) | (t
                    << 1);
                &&& v == r0 * 0x100_0000 + g0 * 0x1_0000 + b0 * 0x100 + rough * 0x10 + e * 8 + m * 4
                    + t * 2
                &&& (v >> 24) & 0xff == r0
                &&& (v >> 16) & 0xff == g0
                &&& (v >> 8) & 0xff == b0
                &&& (v >> 4) & 0xF == rough
                &&& (v >> 3) & 1 == e
                &&& (v >> 2) & 1 == m
                &&& (v >> 1) & 1 == t
                &&& v % 2 == 0
            }) by (bit_vector);
            assert(((v >> 24u32) as u8) == ((v >> 24) & 0xff) as u8) by (bit_vector);
            assert(((v >> 16u32) as u8) == ((v >> 16) & 0xff) as u8) by (bit_vector);
            assert(((v >> 8u32) as u8) == ((v >> 8) & 0xff) as u8) by (bit_vector);
        }
        let r = Voxel(v);
        assert(r.rgb_spec() =~= rgb);
        r
    }

    pub fn rgb(self) -> (r: [u8; 3])
        ensures
            r == self.rgb_spec(),
    {
        [(self.0 >> 24) as u8, (self.0 >> 16) as u8, (self.0 >> 8) as u8]
    }

    pub fn roughness(self) -> (r: u8)
        ensures
            r == self.roughness_spec(),
    {
        ((self.0 >> 4) & 0xF) as u8
    }

    pub fn emissive(self) -> (r: bool)
        ensures
            r == self.emissive_spec(),
    {
        (self.0 >> 3) & 1 != 0
    }

    pub fn metallic(self) -> (r: bool)
        ensures
            r == self.metallic_spec(),
    {
        (self.0 >> 2) & 1 != 0
    }

    pub fn transparent(self) -> (r: bool)
        ensures
            r == self.transparent_spec(),
    {
        (self.0 >> 1) & 1 != 0
    }
}

impl From<u32> for Voxel {
    fn from(v: u32) -> (r: Self) {
        Voxel(v)
    }
}

impl vstd::std_specs::convert::FromSpecImpl<u32> for Voxel {
    open spec fn obeys_from_spec() -> bool {
        true
    }

    open spec fn from_spec(v: u32) -> Voxel {
        Voxel(v)
    }
}

impl From<Voxel> for u32 {
    fn from(v: Voxel) -> (r: u32) {
        v.0
    }
}

impl vstd::std_specs::convert::FromSpecImpl<Voxel> for u32 {
    open spec fn obeys_from_spec() -> bool {
        true
    }

    open spec fn from_spec(v: Voxel) -> u32 {
        v.0
    }
}

/// A color palette of linear RGB entries, used at import time to quantize
/// scene colors.
#[derive(Clone, Debug, Default)]
pub struct ColorPalette {
    pub entries: Vec<[u8; 3]>,
}

impl ColorPalette {
    pub fn new() -> (r: Self)
        ensures
            r.entries@.len() == 0,
    {
        ColorPalette { entries: Vec::new() }
    }

    pub fn len(&self) -> (r: u32)
        requires
            self.entries@.len() <= u32::MAX,
        ensures
            r == self.entries@.len(),
    {
        self.entries.len() as u32
    }

    pub fn is_empty(&self) -> (r: bool)
        ensures
            r == (self.entries@.len() == 0),
    {
        self.entries.is_empty()
    }
}

} // verus!
