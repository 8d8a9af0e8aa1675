//! A growable array of unsigned values packed at a power-of-two bit width.
//!
//! Entries are stored back to back in 32-bit words. The width starts at one
//! bit and doubles (1, 2, 4, 8, 16, 32) whenever a stored value needs more
//! bits, repacking every entry. Entry `i` lives in word `(i * bits) / 32` at
//! bit offset `(i * bits) % 32`, so the GPU extracts it with one shift and
//! one mask.
use vstd::prelude::*;

verus! {

use crate::bits::{
    valid_width,
    width_log2,
    width_mask,
    log_mask,
    width_needed,
    read_slot,
    write_slot,
    lemma_width_facts,
    lemma_slot_fits,
    lemma_pos_split,
    lemma_read_write_same,
    lemma_read_write_other,
    lemma_read_write_low,
    lemma_read_write_wide_other,
    lemma_mask_keeps,
    lemma_read_zero,
    lemma_read_fits,
    lemma_write_below,
    lemma_zero_shr,
    lemma_high_zero_mono,
    lemma_write_keeps_high_zero,
    lemma_shift_fits,
    lemma_significant_bits_width,
    next_pow2_u8,
    u8_next_power_of_two,
};
use vstd::arithmetic::power2::pow2;

#[derive(Clone, Debug, PartialEq, Eq, Hash)]
pub struct BitpackedArray {
    pub data: Vec<u32>,
    pub bits: u8,
    pub len: u32,
}

/// The value held by slot `i` of `data` when entries are `bits` wide.
pub open spec fn slot_value(data: Seq<u32>, bits: u8, i: int) -> u32 {
    let lg = width_log2(bits);
    let p = (i as u32) << lg;
    read_slot(data[(p >> 5u32) as int], p & 31u32, lg)
}

/// `len` entries of `bits` bits have bit positions that fit in 32 bits, and
/// their word count is computable in `usize`.
pub open spec fn positions_fit(len: int, bits: int) -> bool {
    len * bits < 0x1_0000_0000 && len * bits + 31 <= usize::MAX
}

/// Number of 32-bit words that hold `len` entries of `bits` bits.
pub open spec fn word_count(len: int, bits: int) -> int {
    (len * bits + 31) / 32
}

impl View for BitpackedArray {
    type V = Seq<u32>;

    /// The entries, in order.
    open spec fn view(&self) -> Seq<u32> {
        Seq::new(self.len as nat, |i: int| slot_value(self.data@, self.bits, i))
    }
}

/// Word holding the slot that starts at bit `i * b`.
pub open spec fn word_of(i: int, b: u8) -> int {
    (i * b as int) / 32
}

/// Bit offset, within its word, of the slot that starts at bit `i * b`.
pub open spec fn off_of(i: int, b: u8) -> u32 {
    ((i * b as int) % 32) as u32
}

/// `data` with slot `i` of width `b` replaced by `v`.
pub open spec fn write_at(data: Seq<u32>, i: int, b: u8, v: u32) -> Seq<u32> {
    data.update(word_of(i, b), write_slot(data[word_of(i, b)], off_of(i, b), width_log2(b), v))
}

/// Every bit of `data` from bit position `pos` on is zero.
pub open spec fn tail_zero(data: Seq<u32>, pos: int) -> bool {
    &&& forall|w: int| pos / 32 < w < data.len() ==> #[trigger] data[w] == 0
    &&& pos / 32 < data.len() ==> data[pos / 32] >> ((pos % 32) as u32) == 0
}

/// The shift-based position of slot `i` is its arithmetic position, and the
/// slot lies inside one word.
pub(crate) proof fn lemma_pos(i: int, b: u8)
    requires
        valid_width(b),
        0 <= i,
        i * b as int + b as int <= 0x1_0000_0000,
    ensures
        ({
            let lg = width_log2(b);
            let p = (i as u32) << lg;
            &&& p as int == i * b as int
            &&& (p >> 5u32) as int == word_of(i, b)
            &&& p & 31u32 == off_of(i, b)
            &&& off_of(i, b) + b as int <= 32
            &&& (i as u32) as int == i
        }),
        (1u32 << width_log2(b)) == b as u32,
{
    lemma_width_facts(b);
    let lg = width_log2(b);
    assert(i <= 0xffff_ffff) by (nonlinear_arith)
        requires
            i * b as int + b as int <= 0x1_0000_0000,
            1 <= b,
            0 <= i,
    ;
    let iu = i as u32;
    assert(iu * pow2(lg as nat) <= u32::MAX);
    vstd::bits::lemma_u32_shl_is_mul(iu, lg);
    let p = iu << lg;
    lemma_pos_split(p);
    lemma_slot_fits(iu, lg);
}

/// A slot whose bits end within `dlen` words lies in one of those words, and
/// its value is the read of that word.
pub(crate) proof fn lemma_slot_read(data: Seq<u32>, b: u8, i: int)
    requires
        valid_width(b),
        0 <= i,
        i * b as int + b as int <= data.len() * 32,
        data.len() * 32 <= 0x1_0000_0000,
    ensures
        0 <= word_of(i, b) < data.len(),
        off_of(i, b) + b as int <= 32,
        slot_value(data, b, i) == read_slot(data[word_of(i, b)], off_of(i, b), width_log2(b)),
{
    lemma_pos(i, b);
}

/// A slot that comes before slot `e` (at no larger width) ends before `e`
/// starts.
pub(crate) proof fn lemma_before(i: int, bi: u8, e: int, be: u8)
    requires
        0 <= i < e,
        1 <= bi <= be,
    ensures
        i * bi as int + bi as int <= e * be as int,
{
    assert(i * bi as int + bi as int <= e * be as int) by (nonlinear_arith)
        requires
            0 <= i < e,
            1 <= bi <= be,
    ;
}

/// Writing one slot leaves every slot whose bits do not overlap it unchanged.
pub(crate) proof fn lemma_write_frame(data: Seq<u32>, e: int, be: u8, v: u32, i: int, bi: u8)
    requires
        valid_width(be),
        valid_width(bi),
        0 <= e,
        0 <= i,
        e * be as int + be as int <= data.len() * 32,
        i * bi as int + bi as int <= data.len() * 32,
        data.len() * 32 <= 0x1_0000_0000,
        v <= width_mask(be),
        i * bi as int + bi as int <= e * be as int || e * be as int + be as int <= i * bi as int,
    ensures
        slot_value(write_at(data, e, be, v), bi, i) == slot_value(data, bi, i),
{
    lemma_slot_read(data, be, e);
    lemma_slot_read(data, bi, i);
    lemma_width_facts(be);
    lemma_width_facts(bi);
    let d2 = write_at(data, e, be, v);
    assert(d2.len() == data.len());
    lemma_slot_read(d2, bi, i);
    if word_of(i, bi) == word_of(e, be) {
        lemma_read_write_other(
            data[word_of(e, be)],
            off_of(e, be),
            width_log2(be),
            v,
            off_of(i, bi),
            width_log2(bi),
        );
    }
}

/// Writing a value of up to `vb` bits into slot `e` of width `be` leaves
/// every slot below it, or at or above the value's top bit, unchanged.
proof fn lemma_write_wide_frame(data: Seq<u32>, e: int, be: u8, v: u32, vb: u8, i: int, bi: u8)
    requires
        valid_width(be),
        valid_width(vb),
        valid_width(bi),
        be <= vb,
        0 <= e,
        0 <= i,
        e * be as int + be as int <= data.len() * 32,
        i * bi as int + bi as int <= data.len() * 32,
        data.len() * 32 <= 0x1_0000_0000,
        v <= width_mask(vb),
        i * bi as int + bi as int <= e * be as int || e * be as int + vb as int <= i * bi as int,
    ensures
        slot_value(write_at(data, e, be, v), bi, i) == slot_value(data, bi, i),
{
    lemma_slot_read(data, be, e);
    lemma_slot_read(data, bi, i);
    lemma_width_facts(be);
    lemma_width_facts(vb);
    lemma_width_facts(bi);
    let d2 = write_at(data, e, be, v);
    assert(d2.len() == data.len());
    lemma_slot_read(d2, bi, i);
    if word_of(i, bi) == word_of(e, be) {
        lemma_read_write_wide_other(
            data[word_of(e, be)],
            off_of(e, be),
            width_log2(be),
            v,
            width_log2(vb),
            off_of(i, bi),
            width_log2(bi),
        );
    }
}

/// Reading back a slot just written gives the written value's low bits.
proof fn lemma_write_read_low(data: Seq<u32>, e: int, b: u8, v: u32)
    requires
        valid_width(b),
        0 <= e,
        e * b as int + b as int <= data.len() * 32,
        data.len() * 32 <= 0x1_0000_0000,
    ensures
        slot_value(write_at(data, e, b, v), b, e) == v & width_mask(b),
{
    lemma_slot_read(data, b, e);
    lemma_width_facts(b);
    let d2 = write_at(data, e, b, v);
    lemma_slot_read(d2, b, e);
    lemma_read_write_low(data[word_of(e, b)], off_of(e, b), width_log2(b), v);
}

/// Reading back a slot just written gives the written value.
pub(crate) proof fn lemma_write_read(data: Seq<u32>, e: int, b: u8, v: u32)
    requires
        valid_width(b),
        0 <= e,
        e * b as int + b as int <= data.len() * 32,
        data.len() * 32 <= 0x1_0000_0000,
        v <= width_mask(b),
    ensures
        slot_value(write_at(data, e, b, v), b, e) == v,
{
    lemma_slot_read(data, b, e);
    lemma_width_facts(b);
    let d2 = write_at(data, e, b, v);
    lemma_slot_read(d2, b, e);
    lemma_read_write_same(data[word_of(e, b)], off_of(e, b), width_log2(b), v);
}

/// Slots past the zero tail read as zero.
proof fn lemma_tail_slot(data: Seq<u32>, pos: int, b: u8, j: int)
    requires
        valid_width(b),
        tail_zero(data, pos),
        0 <= pos <= j * b as int,
        0 <= j,
        j * b as int + b as int <= data.len() * 32,
        data.len() * 32 <= 0x1_0000_0000,
    ensures
        slot_value(data, b, j) == 0,
{
    lemma_slot_read(data, b, j);
    let w = word_of(j, b);
    if w > pos / 32 {
        assert(data[w] == 0);
        lemma_read_zero(off_of(j, b), width_log2(b));
    } else {
        lemma_high_zero_mono(data[w], (pos % 32) as u32, off_of(j, b), width_log2(b));
    }
}

/// Writing a slot that ends at or before `pos` keeps the tail from `pos` zero.
proof fn lemma_tail_after_write(data: Seq<u32>, pos: int, e: int, b: u8, v: u32)
    requires
        valid_width(b),
        tail_zero(data, pos),
        0 <= e,
        e * b as int + b as int <= pos,
        e * b as int + b as int <= data.len() * 32,
        data.len() * 32 <= 0x1_0000_0000,
        v <= width_mask(b),
    ensures
        tail_zero(write_at(data, e, b, v), pos),
{
    lemma_slot_read(data, b, e);
    lemma_width_facts(b);
    let d2 = write_at(data, e, b, v);
    let w = word_of(e, b);
    if pos / 32 < data.len() && w == pos / 32 {
        lemma_write_below(data[w], off_of(e, b), width_log2(b), v, (pos % 32) as u32);
    }
}

/// A zero tail from `p1` is also a zero tail from any later position.
proof fn lemma_tail_mono(data: Seq<u32>, p1: int, p2: int)
    requires
        tail_zero(data, p1),
        0 <= p1 <= p2,
    ensures
        tail_zero(data, p2),
{
    if p2 / 32 < data.len() {
        if p2 / 32 == p1 / 32 {
            lemma_high_zero_mono(data[p1 / 32], (p1 % 32) as u32, (p2 % 32) as u32, 0);
        } else {
            assert(data[p2 / 32] == 0);
            lemma_zero_shr((p2 % 32) as u32);
        }
    }
}

/// The words of `len` entries hold every entry's bits, and there are at most
/// 2^27 of them.
pub(crate) proof fn lemma_words_hold(len: int, b: u8, i: int)
    requires
        valid_width(b),
        0 <= i < len,
        len * b as int <= 0x1_0000_0000,
    ensures
        i * b as int + b as int <= len * b as int,
        len * b as int <= word_count(len, b as int) * 32,
        word_count(len, b as int) * 32 <= 0x1_0000_0000,
        0 <= word_count(len, b as int),
{
    lemma_before(i, b, len, b);
}

/// Shifting right by five divides by 32.
pub(crate) proof fn lemma_usize_shr5(x: usize)
    ensures
        x >> 5usize == x / 32,
{
    assert(x >> 5usize == x / 32) by (bit_vector);
}

/// Every entry of a well-formed array fits its width's mask.
pub(crate) proof fn lemma_view_fits(a: &BitpackedArray)
    requires
        a.wf(),
    ensures
        forall|i: int| 0 <= i < a.len ==> #[trigger] a@[i] <= width_mask(a.bits),
{
    assert forall|i: int| 0 <= i < a.len implies #[trigger] a@[i] <= width_mask(a.bits) by {
        lemma_words_hold(a.len as int, a.bits, i);
        lemma_slot_read(a.data@, a.bits, i);
        lemma_width_facts(a.bits);
        lemma_read_fits(a.data@[word_of(i, a.bits)], off_of(i, a.bits), width_log2(a.bits));
    }
}

/// Slots whose words lie in a common prefix of two word sequences agree.
pub(crate) proof fn lemma_slot_prefix(d1: Seq<u32>, d2: Seq<u32>, b: u8, i: int)
    requires
        valid_width(b),
        0 <= i,
        i * b as int + b as int <= d1.len() * 32,
        d1.len() <= d2.len(),
        d2.len() * 32 <= 0x1_0000_0000,
        forall|w: int| 0 <= w < d1.len() ==> d1[w] == d2[w],
    ensures
        slot_value(d1, b, i) == slot_value(d2, b, i),
{
    lemma_slot_read(d1, b, i);
    lemma_slot_read(d2, b, i);
}

impl BitpackedArray {
    /// The array's words hold entries at a valid width, exactly as many words
    /// as its entries need, and every entry position fits in 32 bits.
    pub open spec fn wf(&self) -> bool {
        &&& valid_width(self.bits)
        &&& positions_fit(self.len as int, self.bits as int)
        &&& self.data@.len() == word_count(self.len as int, self.bits as int)
    }

    /// Every bit of the array's words past its last entry is zero.
    pub open spec fn spare_zero(&self) -> bool {
        tail_zero(self.data@, self.len as int * self.bits as int)
    }

    /// The width the array has after storing `value`.
    pub open spec fn width_after(bits: u8, value: u32) -> u8 {
        if bits < 32 && (value >> bits) != 0 {
            width_needed(value)
        } else {
            bits
        }
    }

    pub fn new() -> (r: Self)
        ensures
            r.wf(),
            r@ == Seq::<u32>::empty(),
            r.bits == 1,
            r.spare_zero(),
    {
        Self { data: Vec::new(), bits: 1, len: 0 }
    }

    pub fn len(&self) -> (r: u32)
        ensures
            r == self.len,
            r == self@.len(),
    {
        self.len
    }

    pub fn is_empty(&self) -> (r: bool)
        ensures
            r == (self@.len() == 0),
    {
        self.len == 0
    }

    pub fn clear(&mut self)
        ensures
            final(self).wf(),
            final(self)@ == Seq::<u32>::empty(),
            final(self).bits == 1,
            final(self).spare_zero(),
    {
        self.data.clear();
        self.bits = 1;
        self.len = 0;
    }

    /// The mask of a valid width.
    fn mask(bits: u8) -> (r: u32)
        requires
            valid_width(bits),
        ensures
            r == width_mask(bits),
    {
        if bits == 32 {
            u32::MAX
        } else {
            assert((1u32 << 1u8) - 1 == 1 && (1u32 << 2u8) - 1 == 3 && (1u32 << 4u8) - 1 == 0xf
                && (1u32 << 8u8) - 1 == 0xff && (1u32 << 16u8) - 1 == 0xffff) by (bit_vector);
            (1u32 << bits) - 1
        }
    }


    /// Widens the array, repacking every entry, if `value` does not fit the
    /// current width.
    fn ensure_width(&mut self, value: u32)
        requires
            old(self).wf(),
            positions_fit(old(self).len as int, Self::width_after(old(self).bits, value) as int),
        ensures
            final(self).wf(),
            final(self).len == old(self).len,
            final(self).bits == Self::width_after(old(self).bits, value),
            final(self)@ == old(self)@,
            value <= width_mask(final(self).bits),
            old(self).spare_zero() ==> final(self).spare_zero(),
    {
        let bits = self.bits;
        proof {
            lemma_width_facts(bits);
        }
        if self.bits < 32 && value >> self.bits != 0 {
            proof {
                assert(value >> bits == value >> (bits as u32));
                lemma_shift_fits(value, bits as u32);
                lemma_zero_shr(bits as u32);
                lemma_significant_bits_width(value);
            }
            let w = u8_next_power_of_two((32 - value.leading_zeros()) as u8);
            self.repack_in_place(w);
        } else {
            proof {
                if bits < 32 {
                    assert(value >> bits == value >> (bits as u32));
                    lemma_shift_fits(value, bits as u32);
                }
            }
        }
    }

    /// Re-encodes every entry at width `new_bits`, keeping each entry's low
    /// `new_bits` bits: growing keeps every entry, shrinking keeps every entry
    /// that fits the new width.
    pub fn repack_in_place(&mut self, new_bits: u8)
        requires
            old(self).wf(),
            valid_width(new_bits),
            positions_fit(old(self).len as int, new_bits as int),
        ensures
            final(self).wf(),
            final(self).len == old(self).len,
            final(self).bits == new_bits,
            (forall|i: int| 0 <= i < old(self).len ==> #[trigger] old(self)@[i] <= width_mask(new_bits))
                ==> final(self)@ == old(self)@,
            old(self).bits <= new_bits ==> final(self)@ == old(self)@,
            old(self).bits <= new_bits && old(self).spare_zero() ==> final(self).spare_zero(),
            forall|i: int|
                0 <= i < old(self).len ==> #[trigger] final(self)@[i] == old(self)@[i] & width_mask(
                    new_bits,
                ),
    {
        proof {
            lemma_view_fits(self);
            lemma_width_facts(self.bits);
            lemma_width_facts(new_bits);
        }
        if new_bits == self.bits {
            proof {
                assert forall|i: int| 0 <= i < self.len implies #[trigger] self@[i] == self@[i]
                    & width_mask(new_bits) by {
                    lemma_mask_keeps(self@[i], width_log2(new_bits));
                }
            }
            return;
        }
        let old_bits = self.bits;
        let len = self.len;
        let ghost old_view = self@;
        let ghost old_data = self.data@;
        let ghost spare = self.spare_zero();
        let ghost fits = forall|i: int| 0 <= i < len ==> #[trigger] old_view[i] <= width_mask(new_bits);
        let ghost ob = old_bits as int;
        let ghost nb = new_bits as int;
        let new_word_count = ((len as usize * new_bits as usize) + 31) >> 5;
        assert(new_word_count == word_count(len as int, nb)) by {
            lemma_usize_shr5(((len as usize * new_bits as usize) + 31) as usize);
        }
        let growing = new_bits > old_bits;
        if growing {
            proof {
                if len > 0 {
                    lemma_words_hold(len as int, new_bits, len as int - 1);
                    lemma_words_hold(len as int, old_bits, len as int - 1);
                    lemma_before(len as int - 1, old_bits, len as int, new_bits);
                }
                assert(word_count(len as int, ob) <= word_count(len as int, nb)) by (nonlinear_arith)
                    requires
                        0 <= len,
                        1 <= ob <= nb,
                {}
            }
            self.data.resize(new_word_count, 0);
            proof {
                let d = self.data@;
                assert forall|w: int| old_data.len() <= w < d.len() implies d[w] == 0 by {
                    assert(vstd::pervasive::cloned::<u32>(0, d[w]));
                }
                assert forall|i: int| 0 <= i < len implies #[trigger] slot_value(d, old_bits, i)
                    == old_view[i] by {
                    lemma_words_hold(len as int, old_bits, i);
                    lemma_slot_prefix(old_data, d, old_bits, i);
                }
                if spare {
                    assert(tail_zero(d, len as int * ob)) by {
                        let pos = len as int * ob;
                        if pos / 32 < d.len() {
                            if pos / 32 < old_data.len() {
                                assert(d[pos / 32] == old_data[pos / 32]);
                            } else {
                                assert(vstd::pervasive::cloned::<u32>(0, d[pos / 32]));
                                lemma_zero_shr((pos % 32) as u32);
                            }
                        }
                        assert forall|w: int| (len as int * ob) / 32 < w < d.len() implies #[trigger] d[w] == 0 by {
                            if w < old_data.len() {
                                assert(old_data[w] == 0);
                            } else {
                                assert(vstd::pervasive::cloned::<u32>(0, d[w]));
                            }
                        }
                    }
                    assert(len as int * ob <= len as int * nb) by (nonlinear_arith)
                        requires
                            0 <= len,
                            1 <= ob <= nb,
                    ;
                    lemma_tail_mono(d, len as int * ob, len as int * nb);
                }
            }
            let mut step: u32 = 0;
            while step < len
                invariant
                    valid_width(old_bits),
                    valid_width(new_bits),
                    old_bits < new_bits,
                    ob == old_bits as int,
                    nb == new_bits as int,
                    self.bits == old_bits,
                    self.len == len,
                    old_view.len() == len,
                    step <= len,
                    positions_fit(len as int, nb),
                    self.data@.len() == word_count(len as int, nb),
                    forall|i: int| 0 <= i < len ==> #[trigger] old_view[i] <= width_mask(old_bits),
                    forall|i: int|
                        0 <= i < len - step ==> #[trigger] slot_value(self.data@, old_bits, i)
                            == old_view[i],
                    forall|i: int|
                        len - step <= i < len ==> #[trigger] slot_value(self.data@, new_bits, i)
                            == old_view[i],
                    spare ==> tail_zero(self.data@, len as int * nb),
                decreases len - step,
            {
                let entry = len - 1 - step;
                let ghost d = self.data@;
                proof {
                    lemma_width_facts(old_bits);
                    lemma_width_facts(new_bits);
                    lemma_words_hold(len as int, new_bits, entry as int);
                    lemma_before(entry as int, old_bits, len as int, new_bits);
                    lemma_slot_read(d, old_bits, entry as int);
                    lemma_slot_read(d, new_bits, entry as int);
                    lemma_pos(entry as int, old_bits);
                    lemma_pos(entry as int, new_bits);
                }
                let old_pos = entry << old_bits.trailing_zeros();
                let value = (self.data[(old_pos >> 5) as usize] >> (old_pos & 31)) & Self::mask(
                    old_bits,
                );
                assert(value == old_view[entry as int]);
                let new_pos = entry << new_bits.trailing_zeros();
                let new_off = new_pos & 31;
                let mask = Self::mask(new_bits) << new_off;
                let widx = (new_pos >> 5) as usize;
                let cur = self.data[widx];
                self.data.set(widx, (cur & !mask) | (value << new_off));
                proof {
                    assert(value <= width_mask(new_bits));
                    assert(self.data@ == write_at(d, entry as int, new_bits, value));
                    assert forall|i: int| 0 <= i < len - (step + 1) implies #[trigger] slot_value(
                        self.data@,
                        old_bits,
                        i,
                    ) == old_view[i] by {
                        lemma_before(i, old_bits, entry as int, new_bits);
                        lemma_words_hold(len as int, new_bits, i);
                        lemma_before(i, old_bits, len as int, new_bits);
                        lemma_write_frame(d, entry as int, new_bits, value, i, old_bits);
                    }
                    assert forall|i: int| len - (step + 1) <= i < len implies #[trigger] slot_value(
                        self.data@,
                        new_bits,
                        i,
                    ) == old_view[i] by {
                        lemma_words_hold(len as int, new_bits, i);
                        if i == entry {
                            lemma_write_read(d, entry as int, new_bits, value);
                        } else {
                            lemma_before(entry as int, new_bits, i, new_bits);
                            lemma_write_frame(d, entry as int, new_bits, value, i, new_bits);
                        }
                    }
                    if spare {
                        lemma_tail_after_write(d, len as int * nb, entry as int, new_bits, value);
                    }
                }
                step += 1;
            }
        } else {
            proof {
                if len > 0 {
                    lemma_words_hold(len as int, old_bits, len as int - 1);
                }
                assert(word_count(len as int, nb) <= word_count(len as int, ob)) by (nonlinear_arith)
                    requires
                        0 <= len,
                        1 <= nb <= ob,
                {}
            }
            let mut step: u32 = 0;
            while step < len
                invariant
                    valid_width(old_bits),
                    valid_width(new_bits),
                    new_bits < old_bits,
                    ob == old_bits as int,
                    nb == new_bits as int,
                    self.bits == old_bits,
                    self.len == len,
                    old_view.len() == len,
                    step <= len,
                    positions_fit(len as int, ob),
                    self.data@.len() == word_count(len as int, ob),
                    forall|i: int| 0 <= i < len ==> #[trigger] old_view[i] <= width_mask(old_bits),
                    forall|i: int|
                        step <= i < len ==> #[trigger] slot_value(self.data@, old_bits, i)
                            == old_view[i],
                    forall|i: int|
                        0 <= i < step ==> #[trigger] slot_value(self.data@, new_bits, i)
                            == old_view[i] & width_mask(new_bits),
                decreases len - step,
            {
                let entry = step;
                let ghost d = self.data@;
                proof {
                    lemma_width_facts(old_bits);
                    lemma_width_facts(new_bits);
                    lemma_words_hold(len as int, old_bits, entry as int);
                    lemma_before(entry as int, new_bits, len as int, old_bits);
                    lemma_slot_read(d, old_bits, entry as int);
                    lemma_slot_read(d, new_bits, entry as int);
                    lemma_pos(entry as int, old_bits);
                    lemma_pos(entry as int, new_bits);
                }
                let old_pos = entry << old_bits.trailing_zeros();
                let value = (self.data[(old_pos >> 5) as usize] >> (old_pos & 31)) & Self::mask(
                    old_bits,
                );
                let new_pos = entry << new_bits.trailing_zeros();
                let new_off = new_pos & 31;
                let mask = Self::mask(new_bits) << new_off;
                let widx = (new_pos >> 5) as usize;
                let cur = self.data[widx];
                self.data.set(widx, (cur & !mask) | (value << new_off));
                proof {
                    assert(value == old_view[entry as int]);
                    assert(value <= width_mask(old_bits));
                    assert(self.data@ == write_at(d, entry as int, new_bits, value));
                    assert forall|i: int| step + 1 <= i < len implies #[trigger] slot_value(
                        self.data@,
                        old_bits,
                        i,
                    ) == old_view[i] by {
                        lemma_words_hold(len as int, old_bits, i);
                        let e = entry as int;
                        assert(e * nb + ob <= i * ob) by (nonlinear_arith)
                            requires
                                0 <= e < i,
                                1 <= nb <= ob,
                        ;
                        lemma_write_wide_frame(d, e, new_bits, value, old_bits, i, old_bits);
                    }
                    assert forall|i: int| 0 <= i < step + 1 implies #[trigger] slot_value(
                        self.data@,
                        new_bits,
                        i,
                    ) == old_view[i] & width_mask(new_bits) by {
                        lemma_before(i, new_bits, len as int, old_bits);
                        if i == entry {
                            lemma_write_read_low(d, entry as int, new_bits, value);
                        } else {
                            lemma_before(i, new_bits, entry as int, new_bits);
                            lemma_write_wide_frame(
                                d,
                                entry as int,
                                new_bits,
                                value,
                                old_bits,
                                i,
                                new_bits,
                            );
                        }
                    }
                }
                step += 1;
            }
            let ghost d = self.data@;
            self.data.truncate(new_word_count);
            proof {
                assert forall|i: int| 0 <= i < len implies #[trigger] slot_value(
                    self.data@,
                    new_bits,
                    i,
                ) == old_view[i] & width_mask(new_bits) by {
                    lemma_words_hold(len as int, new_bits, i);
                    lemma_slot_prefix(self.data@, d, new_bits, i);
                }
            }
        }
        self.bits = new_bits;
        proof {
            if old_bits <= new_bits {
                assert(self@ =~= old_view);
                assert forall|i: int| 0 <= i < len implies #[trigger] self@[i] == old_view[i]
                    & width_mask(new_bits) by {
                    lemma_width_facts(new_bits);
                    lemma_mask_keeps(old_view[i], width_log2(new_bits));
                }
            } else {
                assert forall|i: int| 0 <= i < len implies #[trigger] self@[i] == old_view[i]
                    & width_mask(new_bits) by {
                    assert(self@[i] == slot_value(self.data@, new_bits, i));
                }
                if fits {
                    assert forall|i: int| 0 <= i < len implies #[trigger] self@[i] == old_view[i] by {
                        lemma_width_facts(new_bits);
                        lemma_mask_keeps(old_view[i], width_log2(new_bits));
                    }
                    assert(self@ =~= old_view);
                }
            }
            if spare && growing {
                assert(tail_zero(self.data@, len as int * nb));
                assert(self.spare_zero());
            }
        }
    }

    /// Replaces entry `index` with `value`, widening the array first if the
    /// value does not fit.
    pub fn set(&mut self, index: u32, value: u32)
        requires
            old(self).wf(),
            index < old(self).len,
            positions_fit(old(self).len as int, Self::width_after(old(self).bits, value) as int),
        ensures
            final(self).wf(),
            final(self).len == old(self).len,
            final(self).bits == Self::width_after(old(self).bits, value),
            final(self)@ == old(self)@.update(index as int, value),
            old(self).spare_zero() ==> final(self).spare_zero(),
    {
        self.ensure_width(value);
        let bits = self.bits;
        let ghost d = self.data@;
        let ghost v0 = self@;
        proof {
            lemma_width_facts(bits);
            lemma_words_hold(self.len as int, bits, index as int);
            lemma_slot_read(d, bits, index as int);
            lemma_pos(index as int, bits);
        }
        let bit_pos = index << self.bits.trailing_zeros();
        let bit_off = bit_pos & 31;
        let mask = Self::mask(self.bits) << bit_off;
        let widx = (bit_pos >> 5) as usize;
        let cur = self.data[widx];
        self.data.set(widx, (cur & !mask) | (value << bit_off));
        proof {
            assert(self.data@ == write_at(d, index as int, bits, value));
            assert forall|i: int| 0 <= i < self.len implies #[trigger] self@[i] == v0.update(
                index as int,
                value,
            )[i] by {
                lemma_words_hold(self.len as int, bits, i);
                if i == index {
                    lemma_write_read(d, index as int, bits, value);
                } else {
                    if i < index {
                        lemma_before(i, bits, index as int, bits);
                    } else {
                        lemma_before(index as int, bits, i, bits);
                    }
                    lemma_write_frame(d, index as int, bits, value, i, bits);
                }
            }
            assert(self@ =~= v0.update(index as int, value));
            if old(self).spare_zero() {
                lemma_before(index as int, bits, self.len as int, bits);
                lemma_tail_after_write(d, self.len as int * bits as int, index as int, bits, value);
            }
        }
    }

    /// Appends `value`, widening the array first if it does not fit.
    pub fn push(&mut self, value: u32)
        requires
            old(self).wf(),
            positions_fit(
                old(self).len as int + 1,
                Self::width_after(old(self).bits, value) as int,
            ),
        ensures
            final(self).wf(),
            final(self).len == old(self).len + 1,
            final(self).bits == Self::width_after(old(self).bits, value),
            final(self)@ == old(self)@.push(value),
            old(self).spare_zero() ==> final(self).spare_zero(),
    {
        let ghost b0 = Self::width_after(self.bits, value) as int;
        proof {
            let l = self.len as int;
            assert((l + 1) * b0 == l * b0 + b0) by (nonlinear_arith);
            assert(l + 1 <= (l + 1) * b0 && l * b0 <= (l + 1) * b0) by (nonlinear_arith)
                requires
                    0 <= l,
                    1 <= b0,
            ;
        }
        self.ensure_width(value);
        let bits = self.bits;
        let len = self.len;
        let ghost d0 = self.data@;
        let ghost v0 = self@;
        let ghost spare = self.spare_zero();
        let ghost pos = len as int * bits as int;
        proof {
            lemma_width_facts(bits);
            lemma_pos(len as int, bits);
            lemma_words_hold(len as int + 1, bits, len as int);
        }
        let bit_pos = self.len << self.bits.trailing_zeros();
        let bit_offset = bit_pos & 31;
        if bit_offset == 0 {
            self.data.push(0);
        }
        let ghost d1 = self.data@;
        proof {
            assert(d1.len() == word_count(len as int + 1, bits as int));
            assert forall|i: int| 0 <= i < len implies #[trigger] slot_value(d1, bits, i)
                == v0[i] by {
                lemma_words_hold(len as int, bits, i);
                lemma_slot_prefix(d0, d1, bits, i);
            }
        }
        let widx = (bit_pos >> 5) as usize;
        let mask = Self::mask(self.bits) << bit_offset;
        let cur = self.data[widx];
        self.data.set(widx, (cur & !mask) | (value << bit_offset));
        self.len += 1;
        proof {
            let d2 = self.data@;
            assert(d2 == write_at(d1, len as int, bits, value));
            assert forall|i: int| 0 <= i <= len implies #[trigger] self@[i] == v0.push(value)[i] by {
                lemma_words_hold(len as int + 1, bits, i);
                if i == len {
                    lemma_write_read(d1, len as int, bits, value);
                } else {
                    lemma_before(i, bits, len as int, bits);
                    lemma_write_frame(d1, len as int, bits, value, i, bits);
                }
            }
            assert(self@ =~= v0.push(value));
            if spare {
                // the bits past the new entry stay zero
                let w = word_of(len as int, bits);
                let o = off_of(len as int, bits);
                let npos = pos + bits as int;
                assert(npos == (len as int + 1) * bits as int);
                assert forall|x: int| npos / 32 < x < d2.len() implies #[trigger] d2[x] == 0 by {
                    assert(x != w);
                    if x < d0.len() {
                        assert(d0[x] == 0);
                    }
                }
                if npos / 32 < d2.len() {
                    assert(npos / 32 == w);
                    assert(o + bits < 32);
                    if bit_offset == 0 {
                        lemma_zero_shr(0);
                        assert(d1[w] >> 0u32 == 0);
                    } else {
                        assert(d1[w] >> o == 0);
                    }
                    lemma_write_keeps_high_zero(d1[w], o, width_log2(bits), value);
                }
            }
        }
    }

    /// Inserts `value` at `index`, shifting later entries up by one.
    pub fn insert(&mut self, index: u32, value: u32)
        requires
            old(self).wf(),
            index <= old(self).len,
            positions_fit(
                old(self).len as int + 1,
                Self::width_after(old(self).bits, value) as int,
            ),
        ensures
            final(self).wf(),
            final(self).len == old(self).len + 1,
            final(self).bits == Self::width_after(old(self).bits, value),
            final(self)@ == old(self)@.insert(index as int, value),
            old(self).spare_zero() ==> final(self).spare_zero(),
    {
        let ghost v0 = old(self)@;
        let ghost spare = old(self).spare_zero();
        proof {
            let l = self.len as int;
            let b0 = Self::width_after(self.bits, value) as int;
            assert(l * b0 <= (l + 1) * b0) by (nonlinear_arith)
                requires
                    0 <= l,
                    1 <= b0,
            ;
        }
        self.ensure_width(value);
        let bits = self.bits;
        proof {
            lemma_view_fits(self);
            lemma_width_facts(bits);
        }
        let tail = if self.len > 0 {
            self.get(self.len - 1)
        } else {
            0
        };
        proof {
            if bits < 32 {
                lemma_shift_fits(tail, bits as u32);
                assert(tail >> bits == tail >> (bits as u32));
            }
        }
        self.push(tail);
        let mut i = self.len - 1;
        while i > index
            invariant
                self.wf(),
                self.bits == bits,
                self.len == v0.len() + 1,
                index < i + 1,
                i <= v0.len(),
                value <= width_mask(bits),
                forall|j: int| 0 <= j < v0.len() ==> #[trigger] v0[j] <= width_mask(bits),
                forall|j: int| 0 <= j < i ==> #[trigger] self@[j] == v0[j],
                forall|j: int| i < j <= v0.len() ==> #[trigger] self@[j] == v0[j - 1],
                spare ==> self.spare_zero(),
            decreases i,
        {
            let prev = self.get(i - 1);
            proof {
                if bits < 32 {
                    lemma_shift_fits(prev, bits as u32);
                    assert(prev >> bits == prev >> (bits as u32));
                }
            }
            self.set(i, prev);
            i -= 1;
        }
        proof {
            if bits < 32 {
                lemma_shift_fits(value, bits as u32);
                assert(value >> bits == value >> (bits as u32));
            }
        }
        self.set(index, value);
        proof {
            assert(self@ =~= v0.insert(index as int, value));
        }
    }

    /// Removes and returns entry `index`, shifting later entries down by one.
    pub fn remove(&mut self, index: u32) -> (r: u32)
        requires
            old(self).wf(),
            index < old(self).len,
        ensures
            r == old(self)@[index as int],
            final(self).wf(),
            final(self).bits == old(self).bits,
            final(self).len == old(self).len - 1,
            final(self)@ == old(self)@.remove(index as int),
    {
        let ghost v0 = old(self)@;
        let bits = self.bits;
        proof {
            lemma_view_fits(self);
            lemma_width_facts(bits);
        }
        let removed = self.get(index);
        let mut i = index;
        while i < self.len - 1
            invariant
                self.wf(),
                self.bits == bits,
                self.len == v0.len(),
                index <= i < self.len,
                forall|j: int| 0 <= j < v0.len() ==> #[trigger] v0[j] <= width_mask(bits),
                forall|j: int| 0 <= j < index ==> #[trigger] self@[j] == v0[j],
                forall|j: int| index <= j < i ==> #[trigger] self@[j] == v0[j + 1],
                forall|j: int| i <= j < v0.len() ==> #[trigger] self@[j] == v0[j],
            decreases self.len - i,
        {
            let next = self.get(i + 1);
            proof {
                if bits < 32 {
                    lemma_shift_fits(next, bits as u32);
                    assert(next >> bits == next >> (bits as u32));
                }
            }
            self.set(i, next);
            i += 1;
        }
        let ghost d = self.data@;
        let ghost vl = self@;
        self.len -= 1;
        proof {
            let l = self.len as int;
            assert(l * bits as int <= (l + 1) * bits as int) by (nonlinear_arith)
                requires
                    0 <= l,
                    1 <= bits,
            ;
            assert(word_count(l, bits as int) <= word_count(l + 1, bits as int)) by (nonlinear_arith)
                requires
                    0 <= l,
                    1 <= bits,
            ;
        }
        let new_word_count = ((self.len as usize * self.bits as usize) + 31) >> 5;
        proof {
            lemma_usize_shr5(((self.len as usize * self.bits as usize) + 31) as usize);
        }
        self.data.truncate(new_word_count);
        proof {
            assert forall|j: int| 0 <= j < self.len implies #[trigger] self@[j] == v0.remove(
                index as int,
            )[j] by {
                lemma_words_hold(self.len as int, bits, j);
                assert(self.data@ == d.subrange(0, new_word_count as int));
                lemma_slot_prefix(self.data@, d, bits, j);
                assert(self@[j] == vl[j]);
            }
            assert(self@ =~= v0.remove(index as int));
        }
        removed
    }

    /// A copy of the array with every entry re-encoded at `new_bits`.
    pub fn repack(&self, new_bits: u8) -> (r: Self)
        requires
            self.wf(),
            valid_width(new_bits),
            positions_fit(self.len as int, new_bits as int),
        ensures
            r.wf(),
            r.len == self.len,
            r.bits == new_bits,
            (forall|i: int| 0 <= i < self.len ==> #[trigger] self@[i] <= width_mask(new_bits)) ==> r@
                == self@,
            self.bits <= new_bits ==> r@ == self@,
            self.bits <= new_bits && self.spare_zero() ==> r.spare_zero(),
            forall|i: int| 0 <= i < self.len ==> #[trigger] r@[i] == self@[i] & width_mask(new_bits),
    {
        let mut out = Self { data: self.data.clone(), bits: self.bits, len: self.len };
        proof {
            assert(out.data@ =~= self.data@);
            assert(out@ =~= self@);
        }
        out.repack_in_place(new_bits);
        out
    }

    /// The smallest width that holds `count` distinct indices `0..count`.
    pub fn min_bits(count: u32) -> (r: u8)
        ensures
            r == width_needed(if count == 0 { 0 } else { (count - 1) as u32 }),
            valid_width(r),
    {
        let top = count.saturating_sub(1);
        let bits = (32 - top.leading_zeros()).max(1) as u8;
        proof {
            if top == 0 {
                vstd::std_specs::bits::axiom_u32_leading_zeros(top);
            } else {
                lemma_significant_bits_width(top);
            }
        }
        u8_next_power_of_two(bits)
    }

    pub fn get(&self, index: u32) -> (r: u32)
        requires
            self.wf(),
            index < self.len,
        ensures
            r == self@[index as int],
    {
        proof {
            lemma_words_hold(self.len as int, self.bits, index as int);
            lemma_slot_read(self.data@, self.bits, index as int);
            lemma_pos(index as int, self.bits);
            lemma_width_facts(self.bits);
        }
        let bit_pos = index << self.bits.trailing_zeros();
        (self.data[(bit_pos >> 5) as usize] >> (bit_pos & 31)) & Self::mask(self.bits)
    }
}

impl Default for BitpackedArray {
    fn default() -> (r: Self)
        ensures
            r.wf(),
            r@ == Seq::<u32>::empty(),
            r.bits == 1,
            r.spare_zero(),
    {
        Self::new()
    }
}

/// Removing at the index just inserted at gives back the array's former
/// contents (`insert` then `remove`, over the views their contracts give).
pub proof fn lemma_remove_undoes_insert(s: Seq<u32>, i: int, v: u32)
    requires
        0 <= i <= s.len(),
    ensures
        s.insert(i, v).remove(i) == s,
{
    assert(s.insert(i, v).remove(i) =~= s);
}

/// Inserting a removed value back at its index gives back the array's former
/// contents (`remove` then `insert`, over the views their contracts give).
pub proof fn lemma_insert_undoes_remove(s: Seq<u32>, i: int)
    requires
        0 <= i < s.len(),
    ensures
        s.remove(i).insert(i, s[i]) == s,
{
    assert(s.remove(i).insert(i, s[i]) =~= s);
}

/// The width of an array of width `bits` after each value of `s` is pushed
/// in turn.
pub open spec fn width_after_all(bits: u8, s: Seq<u32>) -> u8
    decreases s.len(),
{
    if s.len() == 0 {
        bits
    } else {
        BitpackedArray::width_after(width_after_all(bits, s.drop_last()), s.last())
    }
}

/// Storing a value never narrows the array: the width afterwards is a valid
/// width, the larger of the old width and the least width that holds the
/// value.
pub proof fn lemma_width_after_grows(bits: u8, v: u32)
    requires
        valid_width(bits),
    ensures
        valid_width(BitpackedArray::width_after(bits, v)),
        bits <= BitpackedArray::width_after(bits, v),
        BitpackedArray::width_after(bits, v) == (if width_needed(v) > bits {
            width_needed(v)
        } else {
            bits
        }),
{
    if bits < 32 {
        assert(v >> bits == v >> (bits as u32));
        lemma_shift_fits(v, bits as u32);
    }
}

/// The widths met while pushing a sequence only grow: after any prefix the
/// width is valid and at most the width after the whole sequence.
pub proof fn lemma_width_after_prefix(bits: u8, s: Seq<u32>, k: int)
    requires
        valid_width(bits),
        0 <= k <= s.len(),
    ensures
        valid_width(width_after_all(bits, s)),
        valid_width(width_after_all(bits, s.take(k))),
        bits <= width_after_all(bits, s.take(k)) <= width_after_all(bits, s),
    decreases s.len(),
{
    if s.len() == 0 {
        assert(s.take(k) =~= s);
    } else {
        let k2 = if k == s.len() {
            s.len() - 1
        } else {
            k
        };
        lemma_width_after_prefix(bits, s.drop_last(), k2);
        lemma_width_after_grows(width_after_all(bits, s.drop_last()), s.last());
        if k == s.len() {
            assert(s.take(k) =~= s);
        } else {
            assert(s.drop_last().take(k) =~= s.take(k));
        }
    }
}

/// The largest value of `s`, 0 when `s` is empty.
pub open spec fn max_of(s: Seq<u32>) -> u32
    decreases s.len(),
{
    if s.len() == 0 {
        0
    } else if max_of(s.drop_last()) >= s.last() {
        max_of(s.drop_last())
    } else {
        s.last()
    }
}

/// An empty array is one bit wide, and each push leaves the width at
/// `width_after`; so pushing the values of `s` in turn onto an empty array
/// ends at the least width that holds the largest of them (one bit for an
/// empty or all-0/1 sequence, 32 bits once any value needs more than 16).
pub proof fn lemma_pushes_end_at_width_of_max(s: Seq<u32>)
    ensures
        width_after_all(1, s) == width_needed(max_of(s)),
    decreases s.len(),
{
    if s.len() > 0 {
        lemma_pushes_end_at_width_of_max(s.drop_last());
        lemma_width_after_prefix(1, s.drop_last(), 0);
        lemma_width_after_grows(width_after_all(1, s.drop_last()), s.last());
    }
}

} // verus!
