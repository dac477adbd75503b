//! The tick-array bitmap extension: two fixed bitmaps covering the array
//! slots on either side of the default in-pool window, out to the edge of
//! the valid tick range.

use vstd::prelude::*;
use crate::bitmap::{bit_at, flip_bit, test_bit};
use crate::pool::Address;

verus! {

/// Words per extension side: 112 words of 64 bits cover 7168 array slots.
pub const EXTENSION_BITMAP_WORDS: usize = 112;

/// The secondary bitmap pair: the positive side covers array slots at and
/// above the default window, the negative side the slots below it.
pub struct TickArrayBitmapExtension {
    /// The pool this extension belongs to.
    pub pool_id: Address,
    /// Bits for array slots 512 and above: slot `i` maps to bit `i - 512`.
    pub positive_tick_array_bitmap: Vec<u64>,
    /// Bits for array slots -513 and below: slot `i` maps to bit `-i - 513`.
    pub negative_tick_array_bitmap: Vec<u64>,
}

/// Whether `idx` is an array slot the extension covers.
pub open spec fn ext_slot_in_range(idx: int) -> bool {
    ||| 512 <= idx < 512 + 7168
    ||| -512 - 7168 < idx <= -513
}

/// The extension bit of array slot `idx`.
pub open spec fn ext_bit(ext: TickArrayBitmapExtension, idx: int) -> bool
    recommends
        ext_slot_in_range(idx),
{
    if idx >= 512 {
        bit_at(ext.positive_tick_array_bitmap@, idx - 512)
    } else {
        bit_at(ext.negative_tick_array_bitmap@, -idx - 513)
    }
}

impl TickArrayBitmapExtension {
    /// Structural well-formedness: both sides hold their 112 words.
    pub open spec fn wf(&self) -> bool {
        &&& self.positive_tick_array_bitmap@.len() == EXTENSION_BITMAP_WORDS
        &&& self.negative_tick_array_bitmap@.len() == EXTENSION_BITMAP_WORDS
    }

    /// A fresh, empty extension for `pool_id`.
    pub fn initialize(pool_id: Address) -> (r: TickArrayBitmapExtension)
        ensures
            r.wf(),
            r.pool_id == pool_id,
            forall|i: int| ext_slot_in_range(i) ==> !ext_bit(r, i),
    {
        let mut positive: Vec<u64> = Vec::new();
        let mut negative: Vec<u64> = Vec::new();
        let mut i: usize = 0;
        while i < EXTENSION_BITMAP_WORDS
            invariant
                i <= EXTENSION_BITMAP_WORDS,
                positive@.len() == i,
                negative@.len() == i,
                forall|j: int| 0 <= j < i ==> positive@[j] == 0 && negative@[j] == 0,
            decreases EXTENSION_BITMAP_WORDS - i,
        {
            positive.push(0);
            negative.push(0);
            i += 1;
        }
        let r = TickArrayBitmapExtension {
            pool_id,
            positive_tick_array_bitmap: positive,
            negative_tick_array_bitmap: negative,
        };
        proof {
            assert forall|k: int| ext_slot_in_range(k) implies !ext_bit(r, k) by {
                if k >= 512 {
                    lemma_zero_words_bit(r.positive_tick_array_bitmap@, k - 512);
                } else {
                    lemma_zero_words_bit(r.negative_tick_array_bitmap@, -k - 513);
                }
            }
        }
        r
    }

    /// Read the extension bit of array slot `idx`.
    pub fn test_slot(&self, idx: i32) -> (r: bool)
        requires
            self.wf(),
            ext_slot_in_range(idx as int),
        ensures
            r == ext_bit(*self, idx as int),
    {
        if idx >= 512 {
            test_bit(&self.positive_tick_array_bitmap, (idx - 512) as usize)
        } else {
            test_bit(&self.negative_tick_array_bitmap, ((-idx) - 513) as usize)
        }
    }

    /// Toggle the extension bit of array slot `idx`.
    pub fn flip_slot(&mut self, idx: i32)
        requires
            old(self).wf(),
            ext_slot_in_range(idx as int),
        ensures
            final(self).wf(),
            final(self).pool_id == old(self).pool_id,
            ext_bit(*final(self), idx as int) == !ext_bit(*old(self), idx as int),
            forall|k: int|
                ext_slot_in_range(k) && k != idx ==> ext_bit(*final(self), k) == ext_bit(
                    *old(self),
                    k,
                ),
            idx >= 512 ==> final(self).positive_tick_array_bitmap@ == crate::bitmap::flip_at(
                old(self).positive_tick_array_bitmap@,
                idx - 512,
            ) && final(self).negative_tick_array_bitmap@ == old(self).negative_tick_array_bitmap@,
            idx < 512 ==> final(self).negative_tick_array_bitmap@ == crate::bitmap::flip_at(
                old(self).negative_tick_array_bitmap@,
                -idx - 513,
            ) && final(self).positive_tick_array_bitmap@ == old(self).positive_tick_array_bitmap@,
    {
        if idx >= 512 {
            let bit: usize = (idx - 512) as usize;
            flip_bit(&mut self.positive_tick_array_bitmap, bit);
        } else {
            let bit: usize = ((-idx) - 513) as usize;
            flip_bit(&mut self.negative_tick_array_bitmap, bit);
        }
    }
}

/// Every bit of an all-zero word array is clear.
proof fn lemma_zero_words_bit(words: Seq<u64>, i: int)
    requires
        0 <= i < words.len() * 64,
        forall|j: int| 0 <= j < words.len() ==> words[j] == 0,
    ensures
        !bit_at(words, i),
{
    assert(0 <= i / 64 < words.len() && i % 64 < 64) by (nonlinear_arith)
        requires 0 <= i < words.len() * 64;
    let k = (i % 64) as u64;
    assert((0u64 >> k) & 1 == 0) by (bit_vector);
}

} // verus!
