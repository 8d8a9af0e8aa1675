//! A flat array of fixed-width values packed at a power-of-two bit width
//! (1, 2, 4, 8, 16 or 32). The GPU extracts any entry with a single shift and
//! mask; the backing storage is `Vec<u32>` for GPU compatibility.
use vstd::prelude::*;

verus! {

use crate::bits::{
    valid_width,
    width_log2,
    width_mask,
    log_mask,
    next_pow2_u8,
    u8_next_power_of_two,
    lemma_width_facts,
    lemma_read_fits,
};
use crate::bitpacked::{
    slot_value,
    word_count,
    positions_fit,
    write_at,
    word_of,
    off_of,
    lemma_pos,
    lemma_slot_read,
    lemma_before,
    lemma_write_frame,
    lemma_write_read,
    lemma_words_hold,
    lemma_slot_prefix,
};
use crate::dag::{index_bits, usize_leading_zeros, lemma_index_bits};

pub struct BitpackedArray {
    pub data: Vec<u32>,
    pub bits: u8,
    pub len: usize,
}

impl View for BitpackedArray {
    type V = Seq<u32>;

    /// The entries, in order.
    open spec fn view(&self) -> Seq<u32> {
        Seq::new(self.len as nat, |i: int| slot_value(self.data@, self.bits, i))
    }
}

/// Calls `usize::div_ceil`: the quotient of `a` by `b` rounded up.
#[verifier::external_body]
fn usize_div_ceil(a: usize, b: usize) -> (r: usize)
    requires
        b > 0,
    ensures
        r == (a + b - 1) / b as int,
{
    a.div_ceil(b)
}

impl BitpackedArray {
    /// The array's words hold its entries at a valid width, exactly as many
    /// words as its entries need.
    pub open spec fn wf(&self) -> bool {
        &&& valid_width(self.bits)
        &&& positions_fit(self.len as int, self.bits as int)
        &&& self.data@.len() == word_count(self.len as int, self.bits as int)
    }

    pub fn new(bits: u8) -> (r: Self)
        requires
            valid_width(bits),
        ensures
            r.wf(),
            r.bits == bits,
            r@ == Seq::<u32>::empty(),
    {
        Self { data: Vec::new(), bits, len: 0 }
    }

    /// An empty array at width `bits` with room reserved for `cap` entries.
    pub fn with_capacity(bits: u8, cap: usize) -> (r: Self)
        requires
            valid_width(bits),
        ensures
            r.wf(),
            r.bits == bits,
            r@ == Seq::<u32>::empty(),
    {
        assert(32usize / (bits as usize) >= 1) by (nonlinear_arith)
            requires
                1 <= bits <= 32,
        ;
        let words = usize_div_ceil(cap, 32 / bits as usize);
        Self { data: Vec::with_capacity(words), bits, len: 0 }
    }

    pub fn len(&self) -> (r: usize)
        ensures
            r == self@.len(),
    {
        self.len
    }

    pub fn is_empty(&self) -> (r: bool)
        ensures
            r == (self@.len() == 0),
    {
        self.len == 0
    }

    fn mask(bits: u8) -> (r: u32)
        requires
            valid_width(bits),
        ensures
            r == width_mask(bits),
    {
        if bits == 32 {
            u32::MAX
        } else {
            assert((1u32 << 1u8) - 1 == 1 && (1u32 << 2u8) - 1 == 3 && (1u32 << 4u8) - 1 == 0xf
                && (1u32 << 8u8) - 1 == 0xff && (1u32 << 16u8) - 1 == 0xffff) by (bit_vector);
            (1u32 << bits) - 1
        }
    }

    /// Appends `value`, which must fit the array's width.
    pub fn push(&mut self, value: u32)
        requires
            old(self).wf(),
            value <= width_mask(old(self).bits),
            positions_fit(old(self).len as int + 1, old(self).bits as int),
        ensures
            final(self).wf(),
            final(self).bits == old(self).bits,
            final(self)@ == old(self)@.push(value),
    {
        let bits = self.bits;
        let len = self.len;
        let ghost d0 = self.data@;
        let ghost v0 = self@;
        proof {
            lemma_width_facts(bits);
            lemma_pos(len as int, bits);
            lemma_words_hold(len as int + 1, bits, len as int);
            assert(len as int * bits as int <= (len as int + 1) * bits as int) by (nonlinear_arith)
                requires
                    1 <= bits,
                    0 <= len,
            ;
        }
        let bit_pos = (len as u32) << self.bits.trailing_zeros();
        let off = bit_pos & 31;
        if off == 0 {
            self.data.push(0);
        }
        let ghost d1 = self.data@;
        proof {
            assert forall|i: int| 0 <= i < len implies #[trigger] slot_value(d1, bits, i) == v0[i] by {
                lemma_words_hold(len as int, bits, i);
                lemma_slot_prefix(d0, d1, bits, i);
            }
        }
        let w = (bit_pos >> 5) as usize;
        let mask = Self::mask(self.bits) << off;
        let cur = self.data[w];
        self.data.set(w, (cur & !mask) | (value << off));
        self.len = len + 1;
        proof {
            assert(self.data@ == write_at(d1, len as int, bits, value));
            assert forall|i: int| 0 <= i <= len implies #[trigger] self@[i] == v0.push(value)[i] by {
                lemma_words_hold(len as int + 1, bits, i);
                if i == len {
                    lemma_write_read(d1, len as int, bits, value);
                } else {
                    lemma_before(i, bits, len as int, bits);
                    lemma_write_frame(d1, len as int, bits, value, i, bits);
                }
            }
            assert(self@ =~= v0.push(value));
        }
    }

    pub fn get(&self, index: usize) -> (r: u32)
        requires
            self.wf(),
            index < self.len,
        ensures
            r == self@[index as int],
    {
        proof {
            lemma_words_hold(self.len as int, self.bits, index as int);
            lemma_slot_read(self.data@, self.bits, index as int);
            lemma_pos(index as int, self.bits);
            lemma_width_facts(self.bits);
        }
        let bit_pos = (index as u32) << self.bits.trailing_zeros();
        (self.data[(bit_pos >> 5) as usize] >> (bit_pos & 31)) & Self::mask(self.bits)
    }

    /// Replaces entry `index` with `value`, which must fit the array's width.
    pub fn set(&mut self, index: usize, value: u32)
        requires
            old(self).wf(),
            index < old(self).len,
            value <= width_mask(old(self).bits),
        ensures
            final(self).wf(),
            final(self).bits == old(self).bits,
            final(self)@ == old(self)@.update(index as int, value),
    {
        let bits = self.bits;
        let ghost d = self.data@;
        let ghost v0 = self@;
        proof {
            lemma_width_facts(bits);
            lemma_words_hold(self.len as int, bits, index as int);
            lemma_slot_read(d, bits, index as int);
            lemma_pos(index as int, bits);
        }
        let bit_pos = (index as u32) << self.bits.trailing_zeros();
        let off = bit_pos & 31;
        let mask = Self::mask(self.bits) << off;
        let w = (bit_pos >> 5) as usize;
        let cur = self.data[w];
        self.data.set(w, (cur & !mask) | (value << off));
        proof {
            assert(self.data@ == write_at(d, index as int, bits, value));
            assert forall|i: int| 0 <= i < self.len implies #[trigger] self@[i] == v0.update(
                index as int,
                value,
            )[i] by {
                lemma_words_hold(self.len as int, bits, i);
                if i == index {
                    lemma_write_read(d, index as int, bits, value);
                } else {
                    if i < index {
                        lemma_before(i, bits, index as int, bits);
                    } else {
                        lemma_before(index as int, bits, i, bits);
                    }
                    lemma_write_frame(d, index as int, bits, value, i, bits);
                }
            }
            assert(self@ =~= v0.update(index as int, value));
        }
    }

    /// A new array with the same values repacked at `new_bits`; every value
    /// must fit the new width.
    pub fn repack(&self, new_bits: u8) -> (r: Self)
        requires
            self.wf(),
            valid_width(new_bits),
            positions_fit(self.len as int, new_bits as int),
            forall|i: int| 0 <= i < self.len ==> #[trigger] self@[i] <= width_mask(new_bits),
        ensures
            r.wf(),
            r.bits == new_bits,
            r@ == self@,
    {
        let mut out = Self::new(new_bits);
        let mut i: usize = 0;
        while i < self.len
            invariant
                self.wf(),
                out.wf(),
                out.bits == new_bits,
                valid_width(new_bits),
                positions_fit(self.len as int, new_bits as int),
                forall|k: int| 0 <= k < self.len ==> #[trigger] self@[k] <= width_mask(new_bits),
                i <= self.len,
                out@ == self@.subrange(0, i as int),
            decreases self.len - i,
        {
            let v = self.get(i);
            proof {
                let l = i as int;
                assert((l + 1) * new_bits as int <= self.len as int * new_bits as int)
                    by (nonlinear_arith)
                    requires
                        l + 1 <= self.len,
                        1 <= new_bits,
                ;
            }
            assert(out@.len() == i);
            assert(out.len == i);
            assert(positions_fit(out.len as int + 1, out.bits as int));
            out.push(v);
            i += 1;
            assert(out@ =~= self@.subrange(0, i as int));
        }
        assert(self@.subrange(0, self.len as int) =~= self@);
        out
    }

    /// Minimum power-of-two bit width needed to represent `count` distinct
    /// indices: the least of 1, 2, 4, ... whose indices reach `count - 1`.
    pub fn min_bits(count: usize) -> (r: u8)
        ensures
            r == index_bits(count as nat),
    {
        if count <= 2 {
            return 1;
        }
        proof {
            vstd::arithmetic::power2::lemma2_to64();
        }
        let lz = usize_leading_zeros(count - 1);
        let bits = (usize::BITS - lz) as u8;
        proof {
            lemma_index_bits((count - 1) as nat, (usize::BITS - lz) as nat);
        }
        u8_next_power_of_two(bits)
    }
}

} // verus!
