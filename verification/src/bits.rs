//! Bit-level facts shared by the packed arrays: the power-of-two widths an
//! entry may have, the mask of a width, and how reading and writing a slot of
//! a 32-bit word relate.
use vstd::prelude::*;

verus! {

use vstd::std_specs::bits::{
    u8_trailing_zeros,
    axiom_u8_trailing_zeros,
    u32_leading_zeros,
    axiom_u32_leading_zeros,
};

/// The entry widths a packed array may use.
pub open spec fn valid_width(b: u8) -> bool {
    b == 1 || b == 2 || b == 4 || b == 8 || b == 16 || b == 32
}

/// log2 of a valid width.
pub open spec fn width_log2(b: u8) -> u32 {
    if b == 1 {
        0
    } else if b == 2 {
        1
    } else if b == 4 {
        2
    } else if b == 8 {
        3
    } else if b == 16 {
        4
    } else {
        5
    }
}

/// The mask with the low `b` bits set, for a valid width `b`.
pub open spec fn width_mask(b: u8) -> u32 {
    if b == 1 {
        1
    } else if b == 2 {
        3
    } else if b == 4 {
        0xf
    } else if b == 8 {
        0xff
    } else if b == 16 {
        0xffff
    } else {
        0xffff_ffff
    }
}

/// The mask of the width whose log2 is `lg`.
pub open spec fn log_mask(lg: u32) -> u32 {
    if lg == 0 {
        1
    } else if lg == 1 {
        3
    } else if lg == 2 {
        0xf
    } else if lg == 3 {
        0xff
    } else if lg == 4 {
        0xffff
    } else {
        0xffff_ffff
    }
}

/// The smallest valid width whose mask holds `v`.
pub open spec fn width_needed(v: u32) -> u8 {
    if v < 2 {
        1
    } else if v < 4 {
        2
    } else if v < 16 {
        4
    } else if v < 256 {
        8
    } else if v < 65536 {
        16
    } else {
        32
    }
}

/// Bit-packed widths are powers of two that scale with content:
/// `width_needed(v)` is the least of 1, 2, 4, 8, 16, 32 bits that holds `v`.
pub proof fn lemma_width_needed_least(v: u32)
    ensures
        valid_width(width_needed(v)),
        (v as int) < vstd::arithmetic::power2::pow2(width_needed(v) as nat),
        forall|w: u8|
            valid_width(w) && w < width_needed(v) ==> vstd::arithmetic::power2::pow2(w as nat) <= v,
{
    vstd::arithmetic::power2::lemma2_to64();
}

/// The value of the `b`-bit slot at bit offset `o` of word `w`.
pub open spec fn read_slot(w: u32, o: u32, lg: u32) -> u32 {
    (w >> o) & log_mask(lg)
}

/// Word `w` with the `b`-bit slot at bit offset `o` replaced by `v`.
pub open spec fn write_slot(w: u32, o: u32, lg: u32, v: u32) -> u32 {
    (w & !(log_mask(lg) << o)) | (v << o)
}

pub proof fn lemma_width_facts(b: u8)
    requires
        valid_width(b),
    ensures
        u8_trailing_zeros(b) == width_log2(b),
        width_log2(b) <= 5,
        width_mask(b) == log_mask(width_log2(b)),
        b as u32 == (1u32 << width_log2(b)),
        b as int == vstd::arithmetic::power2::pow2(width_log2(b) as nat),
{
    axiom_u8_trailing_zeros(b);
    let t = u8_trailing_zeros(b) as u8;
    assert(t <= 8);
    assert(t < 8);
    assert(forall|j: u8| 0 <= j < t ==> #[trigger] (b >> j) & 1u8 == 0u8);
    if t > 0 {
        assert((b >> 0u8) & 1u8 == 0u8);
    }
    if t > 1 {
        assert((b >> 1u8) & 1u8 == 0u8);
    }
    if t > 2 {
        assert((b >> 2u8) & 1u8 == 0u8);
    }
    if t > 3 {
        assert((b >> 3u8) & 1u8 == 0u8);
    }
    if t > 4 {
        assert((b >> 4u8) & 1u8 == 0u8);
    }
    if t > 5 {
        assert((b >> 5u8) & 1u8 == 0u8);
    }
    assert(
        (b == 1 || b == 2 || b == 4 || b == 8 || b == 16 || b == 32) && t < 8
        && (b >> t) & 1u8 == 1u8
        && (t > 0 ==> (b >> 0u8) & 1u8 == 0u8)
        && (t > 1 ==> (b >> 1u8) & 1u8 == 0u8)
        && (t > 2 ==> (b >> 2u8) & 1u8 == 0u8)
        && (t > 3 ==> (b >> 3u8) & 1u8 == 0u8)
        && (t > 4 ==> (b >> 4u8) & 1u8 == 0u8)
        && (t > 5 ==> (b >> 5u8) & 1u8 == 0u8)
        ==> (b == 1 ==> t == 0) && (b == 2 ==> t == 1) && (b == 4 ==> t == 2)
            && (b == 8 ==> t == 3) && (b == 16 ==> t == 4) && (b == 32 ==> t == 5)
    ) by (bit_vector);
    assert(1u32 << 0u32 == 1 && 1u32 << 1u32 == 2 && 1u32 << 2u32 == 4 && 1u32 << 3u32 == 8
        && 1u32 << 4u32 == 16 && 1u32 << 5u32 == 32) by (bit_vector);
    vstd::arithmetic::power2::lemma2_to64();
}

/// Where slot `i` of a `2^lg`-bit array starts does not reach past its word.
pub proof fn lemma_slot_fits(i: u32, lg: u32)
    requires
        lg <= 5,
    ensures
        ((i << lg) & 31u32) + (1u32 << lg) <= 32,
        (i << lg) & 31u32 < 32,
{
    assert(lg <= 5 ==> ((i << lg) & 31u32) + (1u32 << lg) <= 32 && (i << lg) & 31u32 < 32)
        by (bit_vector);
}

/// How a bit position splits into a word index and an offset.
pub proof fn lemma_pos_split(p: u32)
    ensures
        p >> 5u32 == p / 32,
        p & 31u32 == p % 32,
{
    assert(p >> 5u32 == p / 32 && p & 31u32 == p % 32) by (bit_vector);
}

/// Reading back the slot just written gives the written value.
pub proof fn lemma_read_write_same(w: u32, o: u32, lg: u32, v: u32)
    requires
        lg <= 5,
        o + (1u32 << lg) <= 32,
        v <= log_mask(lg),
    ensures
        read_slot(write_slot(w, o, lg, v), o, lg) == v,
{
    let m = log_mask(lg);
    assert(lg <= 5 && o + (1u32 << lg) <= 32 && v <= m && m == (if lg == 0 { 1u32 } else if lg
        == 1 { 3u32 } else if lg == 2 { 0xfu32 } else if lg == 3 { 0xffu32 } else if lg == 4 {
        0xffffu32
    } else {
        0xffff_ffffu32
    }) ==> (((w & !(m << o)) | (v << o)) >> o) & m == v) by (bit_vector);
}

/// Writing one slot leaves a slot that does not overlap it unchanged.
pub proof fn lemma_read_write_other(w: u32, o1: u32, lg1: u32, v: u32, o2: u32, lg2: u32)
    requires
        lg1 <= 5,
        lg2 <= 5,
        o1 + (1u32 << lg1) <= 32,
        o2 + (1u32 << lg2) <= 32,
        v <= log_mask(lg1),
        o1 + (1u32 << lg1) <= o2 || o2 + (1u32 << lg2) <= o1,
    ensures
        read_slot(write_slot(w, o1, lg1, v), o2, lg2) == read_slot(w, o2, lg2),
{
    let m1 = log_mask(lg1);
    let m2 = log_mask(lg2);
    assert(lg1 <= 5 && lg2 <= 5 && o1 + (1u32 << lg1) <= 32 && o2 + (1u32 << lg2) <= 32 && v
        <= m1 && (o1 + (1u32 << lg1) <= o2 || o2 + (1u32 << lg2) <= o1) && m1 == (if lg1 == 0 {
        1u32
    } else if lg1 == 1 {
        3u32
    } else if lg1 == 2 {
        0xfu32
    } else if lg1 == 3 {
        0xffu32
    } else if lg1 == 4 {
        0xffffu32
    } else {
        0xffff_ffffu32
    }) && m2 == (if lg2 == 0 { 1u32 } else if lg2 == 1 { 3u32 } else if lg2 == 2 { 0xfu32 } else if lg2
        == 3 { 0xffu32 } else if lg2 == 4 { 0xffffu32 } else { 0xffff_ffffu32 }) ==> ((((w & !(m1
        << o1)) | (v << o1)) >> o2) & m2) == ((w >> o2) & m2)) by (bit_vector);
}

/// Writing a value wider than a slot leaves the value's low bits in the
/// slot.
pub proof fn lemma_read_write_low(w: u32, o: u32, lg: u32, v: u32)
    requires
        lg <= 5,
        o + (1u32 << lg) <= 32,
    ensures
        read_slot(write_slot(w, o, lg, v), o, lg) == v & log_mask(lg),
{
    let m = log_mask(lg);
    assert(lg <= 5 && o + (1u32 << lg) <= 32 && m == (if lg == 0 { 1u32 } else if lg == 1 {
        3u32
    } else if lg == 2 {
        0xfu32
    } else if lg == 3 {
        0xffu32
    } else if lg == 4 {
        0xffffu32
    } else {
        0xffff_ffffu32
    }) ==> (((w & !(m << o)) | (v << o)) >> o) & m == v & m) by (bit_vector);
}

/// Writing a value of up to `2^lgv` bits at offset `o1` leaves a slot that
/// lies below `o1`, or at or above the value's top bit, unchanged.
pub proof fn lemma_read_write_wide_other(
    w: u32,
    o1: u32,
    lg1: u32,
    v: u32,
    lgv: u32,
    o2: u32,
    lg2: u32,
)
    requires
        lg1 <= lgv <= 5,
        lg2 <= 5,
        o1 + (1u32 << lg1) <= 32,
        o2 + (1u32 << lg2) <= 32,
        v <= log_mask(lgv),
        o1 + (1u32 << lgv) <= o2 || o2 + (1u32 << lg2) <= o1,
    ensures
        read_slot(write_slot(w, o1, lg1, v), o2, lg2) == read_slot(w, o2, lg2),
{
    let m1 = log_mask(lg1);
    let mv = log_mask(lgv);
    let m2 = log_mask(lg2);
    assert(lg1 <= lgv && lgv <= 5 && lg2 <= 5 && o1 + (1u32 << lg1) <= 32 && o2 + (1u32 << lg2)
        <= 32 && v <= mv && (o1 + (1u32 << lgv) <= o2 || o2 + (1u32 << lg2) <= o1) && m1 == (if lg1
        == 0 { 1u32 } else if lg1 == 1 { 3u32 } else if lg1 == 2 { 0xfu32 } else if lg1 == 3 {
        0xffu32
    } else if lg1 == 4 {
        0xffffu32
    } else {
        0xffff_ffffu32
    }) && mv == (if lgv == 0 { 1u32 } else if lgv == 1 { 3u32 } else if lgv == 2 { 0xfu32 } else if lgv
        == 3 { 0xffu32 } else if lgv == 4 { 0xffffu32 } else { 0xffff_ffffu32 }) && m2 == (if lg2
        == 0 { 1u32 } else if lg2 == 1 { 3u32 } else if lg2 == 2 { 0xfu32 } else if lg2 == 3 {
        0xffu32
    } else if lg2 == 4 {
        0xffffu32
    } else {
        0xffff_ffffu32
    }) ==> ((((w & !(m1 << o1)) | (v << o1)) >> o2) & m2) == ((w >> o2) & m2)) by (bit_vector);
}

/// A value that fits a mask is unchanged by it.
pub proof fn lemma_mask_keeps(v: u32, lg: u32)
    requires
        lg <= 5,
        v <= log_mask(lg),
    ensures
        v & log_mask(lg) == v,
{
    let m = log_mask(lg);
    assert(v <= m && (m == 1 || m == 3 || m == 0xf || m == 0xff || m == 0xffff || m == 0xffff_ffff)
        ==> v & m == v) by (bit_vector);
}

/// Any value read from a slot of a zero word is zero.
pub proof fn lemma_read_zero(o: u32, lg: u32)
    ensures
        read_slot(0, o, lg) == 0,
{
    let m = log_mask(lg);
    assert((0u32 >> o) & m == 0) by (bit_vector);
}

/// Shifting zero gives zero.
pub proof fn lemma_zero_shr(o: u32)
    ensures
        0u32 >> o == 0,
{
    assert(0u32 >> o == 0) by (bit_vector);
}

/// A value read from a slot fits the slot's mask.
pub proof fn lemma_read_fits(w: u32, o: u32, lg: u32)
    ensures
        read_slot(w, o, lg) <= log_mask(lg),
{
    let m = log_mask(lg);
    assert((w >> o) & m <= m) by (bit_vector);
}

/// Word `w` shifted down to `o2` is unaffected by writing a slot that ends
/// at or before `o2`.
pub proof fn lemma_write_below(w: u32, o1: u32, lg: u32, v: u32, o2: u32)
    requires
        lg <= 5,
        o1 + (1u32 << lg) <= o2,
        o2 < 32,
        v <= log_mask(lg),
    ensures
        write_slot(w, o1, lg, v) >> o2 == w >> o2,
{
    let m = log_mask(lg);
    assert(lg <= 5 && o1 + (1u32 << lg) <= o2 && o2 < 32 && v <= m && m == (if lg == 0 {
        1u32
    } else if lg == 1 {
        3u32
    } else if lg == 2 {
        0xfu32
    } else if lg == 3 {
        0xffu32
    } else if lg == 4 {
        0xffffu32
    } else {
        0xffff_ffffu32
    }) ==> ((w & !(m << o1)) | (v << o1)) >> o2 == w >> o2) by (bit_vector);
}

/// Bits that are zero from `o1` on are zero from any later offset on, and so
/// is every slot read there.
pub proof fn lemma_high_zero_mono(w: u32, o1: u32, o2: u32, lg: u32)
    requires
        w >> o1 == 0,
        o1 <= o2,
        o2 < 32,
    ensures
        w >> o2 == 0,
        read_slot(w, o2, lg) == 0,
{
    let m = log_mask(lg);
    assert(w >> o1 == 0 && o1 <= o2 && o2 < 32 ==> w >> o2 == 0 && (w >> o2) & m == 0)
        by (bit_vector);
}

/// Writing a value into the lowest free slot of a word whose bits from `o`
/// on are zero leaves the bits past that slot zero.
pub proof fn lemma_write_keeps_high_zero(w: u32, o: u32, lg: u32, v: u32)
    requires
        lg <= 5,
        w >> o == 0,
        o + (1u32 << lg) < 32,
        v <= log_mask(lg),
    ensures
        write_slot(w, o, lg, v) >> (o + (1u32 << lg)) == 0,
{
    let m = log_mask(lg);
    assert(lg <= 5 && w >> o == 0 && o + (1u32 << lg) < 32 && v <= m && m == (if lg == 0 {
        1u32
    } else if lg == 1 {
        3u32
    } else if lg == 2 {
        0xfu32
    } else if lg == 3 {
        0xffu32
    } else if lg == 4 {
        0xffffu32
    } else {
        0xffff_ffffu32
    }) ==> ((w & !(m << o)) | (v << o)) >> (o + (1u32 << lg)) == 0) by (bit_vector);
}

/// For a valid width below 32, shifting out the width's bits leaves nothing
/// exactly when the value fits the width's mask.
pub proof fn lemma_shift_fits(v: u32, b: u32)
    requires
        b == 1 || b == 2 || b == 4 || b == 8 || b == 16,
    ensures
        ((v >> b) == 0) == (v <= width_mask(b as u8)),
{
    assert((b == 1 || b == 2 || b == 4 || b == 8 || b == 16) ==> ((v >> b) == 0) == (v <= (if b
        == 1 { 1u32 } else if b == 2 { 3u32 } else if b == 4 { 0xfu32 } else if b == 8 {
        0xffu32
    } else {
        0xffffu32
    }))) by (bit_vector);
}

/// Smallest power of two at or above `x`, for `x` at most 128.
pub open spec fn next_pow2_u8(x: u8) -> u8 {
    if x <= 1 {
        1
    } else if x <= 2 {
        2
    } else if x <= 4 {
        4
    } else if x <= 8 {
        8
    } else if x <= 16 {
        16
    } else if x <= 32 {
        32
    } else if x <= 64 {
        64
    } else {
        128
    }
}

/// Calls `u8::next_power_of_two`, which returns the smallest power of two
/// greater than or equal to its argument; the argument is kept at most 128
/// so the result does not overflow.
#[verifier::external_body]
pub(crate) fn u8_next_power_of_two(x: u8) -> (r: u8)
    requires
        x <= 128,
    ensures
        r == next_pow2_u8(x),
{
    x.next_power_of_two()
}

/// The number of significant bits of a nonzero value, rounded up to a power
/// of two, is the width that value needs.
pub proof fn lemma_significant_bits_width(v: u32)
    requires
        v != 0,
    ensures
        0 < 32 - u32_leading_zeros(v) <= 32,
        next_pow2_u8((32 - u32_leading_zeros(v)) as u8) == width_needed(v),
{
    axiom_u32_leading_zeros(v);
    let lz = u32_leading_zeros(v);
    assert(lz < 32);
    let t = (32 - lz) as u32;
    let t1 = (t - 1) as u32;
    assert((v >> ((31 - lz) as u32)) & 1u32 != 0u32);
    assert((31 - lz) as u32 == t1);
    assert(v >> ((32 - lz) as u32) == 0);
    assert(1 <= t <= 32 && t1 == t - 1 && (v >> t1) & 1u32 != 0u32 && v >> t == 0 ==> ((v < 2) == (t <= 1))
        && ((v < 4) == (t <= 2)) && ((v < 16) == (t <= 4)) && ((v < 256) == (t <= 8)) && ((v
        < 65536) == (t <= 16))) by (bit_vector);
}

/// Number of set bits of `x`.
pub open spec fn popcount(x: u64) -> nat
    decreases x,
{
    if x == 0 {
        0
    } else {
        (x % 2) as nat + popcount(x / 2)
    }
}

/// Calls `u64::count_ones`, which returns the number of ones in the binary
/// representation of its argument.
#[verifier::external_body]
pub(crate) fn u64_count_ones(x: u64) -> (r: u32)
    ensures
        r as nat == popcount(x),
{
    x.count_ones()
}

/// A 64-bit value has at most 64 set bits.
pub proof fn lemma_popcount_bound(x: u64)
    ensures
        popcount(x) <= 64,
{
    vstd::arithmetic::power2::lemma2_to64();
    lemma_popcount_shift_bound(x, 64);
}

proof fn lemma_popcount_shift_bound(x: u64, n: nat)
    requires
        x < vstd::arithmetic::power2::pow2(n),
    ensures
        popcount(x) <= n,
    decreases n,
{
    if x != 0 {
        if n == 0 {
            vstd::arithmetic::power2::lemma2_to64();
        } else {
            vstd::arithmetic::power2::lemma_pow2_unfold(n);
            lemma_popcount_shift_bound(x / 2, (n - 1) as nat);
        }
    }
}

/// 1 as a number, 0 otherwise.
pub open spec fn bit_of(b: bool) -> u32 {
    if b {
        1
    } else {
        0
    }
}

} // verus!
