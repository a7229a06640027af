use vstd::prelude::*;

verus! {

use crate::chess::square::Square;
use crate::utils::bit;
use vstd::std_specs::bits::u64_trailing_zeros;

/// A set of squares held in the 64 bits of a word, square `i` in bit `i`.
pub trait Bitboard: Sized {
    /// The word of the set.
    spec fn bits(&self) -> u64;

    /// The set masked to the square `bit_index`.
    fn get_bit(&self, bit_index: u8) -> (r: u64)
        requires
            bit_index < 64,
        ensures
            r == self.bits() & (1u64 << bit_index),
    ;

    /// Adds the square.
    fn set_bit(&mut self, bit_index: Square)
        requires
            bit_index < 64,
        ensures
            final(self).bits() == old(self).bits() | (1u64 << bit_index),
    ;

    /// The lowest square of the set (64 when it is empty).
    fn get_lsb(&self) -> (r: u8)
        ensures
            r as u32 == u64_trailing_zeros(self.bits()),
    ;

    /// Removes the lowest square of a non-empty set and returns it.
    fn pop_lsb(&mut self) -> (r: u8)
        requires
            old(self).bits() != 0,
        ensures
            r as u32 == u64_trailing_zeros(old(self).bits()),
            final(self).bits() == old(self).bits() & !(1u64 << r),
    ;

    /// Removes the square.
    fn clear_bit(&mut self, bit_index: Square)
        requires
            bit_index < 64,
        ensures
            final(self).bits() == old(self).bits() & !(1u64 << bit_index),
    ;

    /// Whether the square is in the set.
    fn test_bit(&self, bit_index: u8) -> (r: bool)
        requires
            bit_index < 64,
        ensures
            r == bit(self.bits(), bit_index as u64),
    {
        let masked = self.get_bit(bit_index);
        proof {
            crate::utils::lemma_single_bit(self.bits(), bit_index as u64);
        }
        masked != 0
    }
}

impl Bitboard for u64 {
    open spec fn bits(&self) -> u64 {
        *self
    }

    fn get_bit(&self, bit_index: u8) -> (r: u64) {
        *self & (1u64 << bit_index)
    }

    fn set_bit(&mut self, bit_index: Square) {
        *self = *self | (1u64 << bit_index);
    }

    fn get_lsb(&self) -> (r: u8) {
        crate::utils::get_lsb(*self)
    }

    fn pop_lsb(&mut self) -> (r: u8) {
        crate::utils::pop_lsb(self)
    }

    fn clear_bit(&mut self, bit_index: Square) {
        *self = *self & !(1u64 << bit_index);
    }
}

} // verus!
