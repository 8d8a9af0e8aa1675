//! A leaf voxel packed into one `u32`, with an octahedral normal.
//!
//! Bit layout:
//!   31-15  normal      17-bit signed octahedral encoding: x (8 bits), y (8 bits), z sign
//!   14     transparent refracts rather than reflects
//!   13     metallic    conductor; albedo tints specular
//!   12     emissive    emits light at its albedo color
//!   11-8   roughness   0 = perfect mirror, 15 = fully diffuse
//!    7-0   palette     index into the scene's color palette
use vstd::prelude::*;

verus! {

use crate::bits::bit_of;

#[derive(Clone, Copy, PartialEq, Eq, Structural, Hash, Debug)]
pub struct Voxel(pub u32);

impl Voxel {
    /// The packed word of a voxel with the given fields; roughness keeps its
    /// low four bits.
    pub open spec fn packed(
        oct_x: u8,
        oct_y: u8,
        sgn_z: bool,
        transparent: bool,
        metallic: bool,
        emissive: bool,
        roughness: u8,
        palette: u8,
    ) -> u32 {
        (oct_x as int * 0x100_0000 + oct_y as int * 0x1_0000 + bit_of(sgn_z) as int * 0x8000
            + bit_of(transparent) as int * 0x4000 + bit_of(metallic) as int * 0x2000 + bit_of(
            emissive,
        ) as int * 0x1000 + (roughness % 16) as int * 0x100 + palette as int) as u32
    }

    pub fn new(
        oct_x: u8,
        oct_y: u8,
        sgn_z: bool,
        transparent: bool,
        metallic: bool,
        emissive: bool,
        roughness: u8,
        palette: u8,
    ) -> (r: Self)
        ensures
            r.0 == Self::packed(
                oct_x,
                oct_y,
                sgn_z,
                transparent,
                metallic,
                emissive,
                roughness,
                palette,
            ),
            r.oct_x_spec() == oct_x,
            r.oct_y_spec() == oct_y,
            r.sgn_z_spec() == sgn_z,
            r.transparent_spec() == transparent,
            r.metallic_spec() == metallic,
            r.emissive_spec() == emissive,
            r.roughness_spec() == roughness % 16,
            r.palette_spec() == palette,
    {
        let z: u32 = if sgn_z { 1 } else { 0 };
        let t: u32 = if transparent { 1 } else { 0 };
        let m: u32 = if metallic { 1 } else { 0 };
        let e: u32 = if emissive { 1 } else { 0 };
        let x = oct_x as u32;
        let y = oct_y as u32;
        let rough = (roughness & 0xF) as u32;
        let p = palette as u32;
        let normal = (x << 9) | (y << 1) | z;
        let v = (normal << 15) | (t << 14) | (m << 13) | (e << 12) | (rough << 8) | p;
        proof {
            assert(roughness & 0xF == roughness % 16) by (bit_vector);
            assert(x < 256 && y < 256 && z < 2 && t < 2 && m < 2 && e < 2 && rough < 16 && p < 256
                ==> {
                let v = ((((x << 9) | (y << 1) | z) << 15) | (t << 14) | (m << 13) | (e << 12) | (
                rough << 8) | p);
                &&& v == x * 0x100_0000 + y * 0x1_0000 + z * 0x8000 + t * 0x4000 + m * 0x2000 + e
                    * 0x1000 + rough * 0x100 + p
                &&& (v >> 24) & 0xFF == x
                &&& (v >> 16) & 0xFF == y
                &&& (v >> 15) & 1 == z
                &&& (v >> 14) & 1 == t
                &&& (v >> 13) & 1 == m
                &&& (v >> 12) & 1 == e
                &&& (v >> 8) & 0xF == rough
                &&& v & 0xFF == p
            }) by (bit_vector);
        }
        Voxel(v)
    }

    pub open spec fn oct_x_spec(self) -> u8 {
        ((self.0 >> 24u32) & 0xFF) as u8
    }

    pub open spec fn oct_y_spec(self) -> u8 {
        ((self.0 >> 16u32) & 0xFF) as u8
    }

    pub open spec fn sgn_z_spec(self) -> bool {
        (self.0 >> 15u32) & 1 != 0
    }

    pub open spec fn transparent_spec(self) -> bool {
        (self.0 >> 14u32) & 1 != 0
    }

    pub open spec fn metallic_spec(self) -> bool {
        (self.0 >> 13u32) & 1 != 0
    }

    pub open spec fn emissive_spec(self) -> bool {
        (self.0 >> 12u32) & 1 != 0
    }

    pub open spec fn roughness_spec(self) -> u8 {
        ((self.0 >> 8u32) & 0xF) as u8
    }

    pub open spec fn palette_spec(self) -> u8 {
        (self.0 & 0xFF) as u8
    }

    pub fn oct_x(self) -> (r: u8)
        ensures
            r == self.oct_x_spec(),
    {
        ((self.0 >> 24) & 0xFF) as u8
    }

    pub fn oct_y(self) -> (r: u8)
        ensures
            r == self.oct_y_spec(),
    {
        ((self.0 >> 16) & 0xFF) as u8
    }

    pub fn sgn_z(self) -> (r: bool)
        ensures
            r == self.sgn_z_spec(),
    {
        (self.0 >> 15) & 1 != 0
    }

    pub fn transparent(self) -> (r: bool)
        ensures
            r == self.transparent_spec(),
    {
        (self.0 >> 14) & 1 != 0
    }

    pub fn metallic(self) -> (r: bool)
        ensures
            r == self.metallic_spec(),
    {
        (self.0 >> 13) & 1 != 0
    }

    pub fn emissive(self) -> (r: bool)
        ensures
            r == self.emissive_spec(),
    {
        (self.0 >> 12) & 1 != 0
    }

    pub fn roughness(self) -> (r: u8)
        ensures
            r == self.roughness_spec(),
    {
        ((self.0 >> 8) & 0xF) as u8
    }

    pub fn palette(self) -> (r: u8)
        ensures
            r == self.palette_spec(),
    {
        (self.0 & 0xFF) as u8
    }
}

/// The scene's color palette: linear RGB entries.
#[derive(Clone, Debug)]
pub struct ColorPalette {
    pub entries: Vec<[u8; 3]>,
}

impl ColorPalette {
    pub fn new() -> (r: Self)
        ensures
            r.entries@.len() == 0,
    {
        Self { entries: Vec::new() }
    }

    pub fn len(&self) -> (r: usize)
        ensures
            r == self.entries@.len(),
    {
        self.entries.len()
    }
}

} // verus!
