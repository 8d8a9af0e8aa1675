//! Color quantization against a fixed palette through a full RGB lookup
//! table, and the 24-bit packing of RGB colors.
use vstd::prelude::*;

verus! {

/// Number of 24-bit RGB colors.
pub const RGB_COLORS: usize = 16_777_216;

/// The 24-bit index of a color: red in the high byte, blue in the low byte.
pub open spec fn rgb_index(rgb: [u8; 3]) -> int {
    rgb[0] as int * 65536 + rgb[1] as int * 256 + rgb[2] as int
}

/// The color whose 24-bit index is `idx`, ignoring bits above 24.
pub open spec fn index_rgb(idx: int) -> [u8; 3] {
    [((idx / 65536) % 256) as u8, ((idx / 256) % 256) as u8, (idx % 256) as u8]
}

pub fn rgb_to_idx(rgb: [u8; 3]) -> (r: usize)
    ensures
        r as int == rgb_index(rgb),
{
    let (a, b, c) = (rgb[0] as usize, rgb[1] as usize, rgb[2] as usize);
    assert((a << 16usize) | (b << 8usize) | c == a * 65536 + b * 256 + c) by (bit_vector)
        requires
            a < 256,
            b < 256,
            c < 256,
    ;
    (a << 16) | (b << 8) | c
}

pub fn idx_to_rgb(idx: usize) -> (r: [u8; 3])
    ensures
        r == index_rgb(idx as int),
{
    assert(((idx >> 16usize) as u8) as int == ((idx / 65536) % 256) as u8 as int) by (bit_vector);
    assert(((idx >> 8usize) as u8) as int == ((idx / 256) % 256) as u8 as int) by (bit_vector);
    assert((idx as u8) as int == (idx % 256) as u8 as int) by (bit_vector);
    let r = [(idx >> 16) as u8, (idx >> 8) as u8, idx as u8];
    assert(r =~= index_rgb(idx as int));
    r
}

/// A color's index gives the color back, and every index below 2^24 is the
/// index of the color it gives.
pub proof fn lemma_rgb_index_roundtrip(rgb: [u8; 3], idx: int)
    requires
        0 <= idx < RGB_COLORS,
    ensures
        index_rgb(rgb_index(rgb)) == rgb,
        0 <= rgb_index(rgb) < RGB_COLORS,
        rgb_index(index_rgb(idx)) == idx,
{
    let (a, b, c) = (rgb[0] as int, rgb[1] as int, rgb[2] as int);
    let i = rgb_index(rgb);
    assert(i == (a * 256 + b) * 256 + c);
    vstd::arithmetic::div_mod::lemma_fundamental_div_mod_converse(i, 256, a * 256 + b, c);
    vstd::arithmetic::div_mod::lemma_fundamental_div_mod_converse(a * 256 + b, 256, a, b);
    vstd::arithmetic::div_mod::lemma_div_denominator(i, 256, 256);
    vstd::arithmetic::div_mod::lemma_small_mod(a as nat, 256);
    assert(index_rgb(i) =~= rgb);
    let q = idx / 256;
    vstd::arithmetic::div_mod::lemma_fundamental_div_mod(idx, 256);
    vstd::arithmetic::div_mod::lemma_fundamental_div_mod(q, 256);
    vstd::arithmetic::div_mod::lemma_div_denominator(idx, 256, 256);
    assert(q / 256 < 256);
    vstd::arithmetic::div_mod::lemma_small_mod((q / 256) as nat, 256);
}

/// A fixed set of colors with, for every 24-bit color, the index of the
/// entry it quantizes to.
pub struct Palette {
    pub entries: Vec<[u8; 3]>,
    lut: Vec<u8>,
}

/// A lookup table fits a palette of `n` entries: one index per 24-bit
/// color, each naming an entry.
pub open spec fn lut_fits(lut: Seq<u8>, n: int) -> bool {
    &&& lut.len() == RGB_COLORS
    &&& forall|i: int| 0 <= i < lut.len() ==> (#[trigger] lut[i] as int) < n
}

impl Palette {
    /// The entries.
    pub closed spec fn entries_view(&self) -> Seq<[u8; 3]> {
        self.entries@
    }

    /// The lookup table.
    pub closed spec fn lut_view(&self) -> Seq<u8> {
        self.lut@
    }

    pub closed spec fn wf(&self) -> bool {
        lut_fits(self.lut@, self.entries@.len() as int)
    }

    /// A palette over `entries` quantizing by `lut`, if the table fits.
    pub fn from_lut(entries: Vec<[u8; 3]>, lut: Vec<u8>) -> (r: Option<Palette>)
        ensures
            r is Some <==> lut_fits(lut@, entries@.len() as int),
            r matches Some(p) ==> p.wf() && p.entries_view() == entries@ && p.lut_view() == lut@,
    {
        if lut.len() != RGB_COLORS {
            return None;
        }
        let n = entries.len();
        let mut i: usize = 0;
        while i < lut.len()
            invariant
                i <= lut@.len(),
                n == entries@.len(),
                forall|j: int| 0 <= j < i ==> (#[trigger] lut@[j] as int) < n,
            decreases lut@.len() - i,
        {
            if lut[i] as usize >= n {
                return None;
            }
            i += 1;
        }
        Some(Palette { entries, lut })
    }

    pub fn len(&self) -> (r: u32)
        requires
            self.entries_view().len() <= u32::MAX,
        ensures
            r == self.entries_view().len(),
    {
        self.entries.len() as u32
    }

    pub fn is_empty(&self) -> (r: bool)
        ensures
            r == (self.entries_view().len() == 0),
    {
        self.entries.is_empty()
    }

    /// The index of the entry that `rgb` quantizes to.
    pub fn nearest_idx(&self, rgb: [u8; 3]) -> (r: u8)
        requires
            self.wf(),
        ensures
            r == self.lut_view()[rgb_index(rgb)],
            (r as int) < self.entries_view().len(),
    {
        let i = rgb_to_idx(rgb);
        proof {
            lemma_rgb_index_roundtrip(rgb, 0);
        }
        self.lut[i]
    }

    /// The entry that `rgb` quantizes to.
    pub fn nearest(&self, rgb: [u8; 3]) -> (r: [u8; 3])
        requires
            self.wf(),
        ensures
            r == self.entries_view()[self.lut_view()[rgb_index(rgb)] as int],
    {
        let i = self.nearest_idx(rgb);
        self.entries[i as usize]
    }
}

} // verus!
