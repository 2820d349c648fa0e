use vstd::prelude::*;
use vstd::arithmetic::power2::{pow2, lemma2_to64};
use vstd::bits::{lemma_u32_shr_is_div, lemma_u32_shl_is_mul, lemma_u32_low_bits_mask_is_mod, low_bits_mask};
use core::ops::RangeInclusive;

verus! {

/// Relies on `RangeInclusive::start`: it returns the lower bound the range was built with.
pub assume_specification<Idx>[ RangeInclusive::<Idx>::start ](r: &RangeInclusive<Idx>) -> (ret: &Idx)
    ensures
        *ret == r@.start,
;

/// Relies on `RangeInclusive::end`: it returns the upper bound the range was built with.
pub assume_specification<Idx>[ RangeInclusive::<Idx>::end ](r: &RangeInclusive<Idx>) -> (ret: &Idx)
    ensures
        *ret == r@.end,
;

/// The bits `start..=end` of a 32-bit word, counted from 1 at the most
/// significant bit, shifted down so that bit `end` lands at bit 0.
pub open spec fn extract(word: int, start: int, end: int) -> int {
    (word / pow2((32 - end) as nat) as int) % pow2((end - start + 1) as nat) as int
}

/// Extracts the inclusive bit range `range` of `num` (bit 1 is the most
/// significant bit, bit 32 the least significant one), right-aligned.
pub fn new_num_from(num: u32, range: RangeInclusive<usize>) -> (r: u32)
    requires
        1 <= range@.start <= range@.end <= 32,
    ensures
        r as int == extract(num as int, range@.start as int, range@.end as int),
{
    let start: usize = *range.start();
    let end: usize = *range.end();
    let shift: u32 = (32 - end) as u32;
    let width: u32 = (end - start + 1) as u32;
    let shifted: u32 = num >> shift;
    proof {
        lemma_u32_shr_is_div(num, shift);
        lemma2_to64();
    }
    if width == 32 {
        assert(shift == 0);
        assert(shifted as int % pow2(32) as int == shifted as int);
        shifted
    } else {
        proof {
            lemma_u32_shl_is_mul(1u32, width);
            lemma_u32_low_bits_mask_is_mod(shifted, width as nat);
        }
        let mask: u32 = (1u32 << width) - 1;
        assert(mask == low_bits_mask(width as nat) as u32);
        shifted & mask
    }
}

} // verus!
