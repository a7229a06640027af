use vstd::prelude::*;

verus! {

use crate::board::fen::{castling_parse, parse_castling};
use vstd::string::StringSliceAdditionalSpecFns;

/// Represents the castling rights of a position
///
/// bit 0: white can castle kingside, bit 1: white queenside,
/// bit 2: black kingside, bit 3: black queenside.
#[derive(Clone, Copy, Debug)]
pub struct CastlingRights {
    rights: u8,
}

impl View for CastlingRights {
    type V = u8;

    closed spec fn view(&self) -> u8 {
        self.rights
    }
}

/// The castling rights whose bits are `r`.
pub closed spec fn castling_of(r: u8) -> CastlingRights {
    CastlingRights { rights: r }
}

/// The rights built from `r` have the bits `r`.
pub proof fn lemma_castling_of(r: u8)
    ensures
        castling_of(r)@ == r,
{
}

pub const WHITE_KINGSIDE: u8 = 0b0001;
pub const WHITE_QUEENSIDE: u8 = 0b0010;
pub const BLACK_KINGSIDE: u8 = 0b0100;
pub const BLACK_QUEENSIDE: u8 = 0b1000;

impl CastlingRights {
    /// Create a new castling rights with all rights
    pub fn new() -> (r: Self)
        ensures
            r@ == 0b1111u8,
    {
        CastlingRights { rights: 0b1111 }
    }

    /// Create a new empty castling rights
    pub fn new_empty() -> (r: Self)
        ensures
            r@ == 0u8,
    {
        CastlingRights { rights: 0 }
    }

    /// Check if the current castling rights contain a right
    pub fn can_castle(&self, right: u8) -> (r: bool)
        ensures
            r == (self@ & right != 0),
    {
        self.rights & right != 0
    }

    /// Remove a right from the current castling rights
    pub fn remove_right(&mut self, right: u8)
        ensures
            final(self)@ == old(self)@ & !right,
    {
        self.rights = self.rights & !right;
    }

    /// Add a right to the current castling rights
    pub fn add_right(&mut self, right: u8)
        ensures
            final(self)@ == old(self)@ | right,
    {
        self.rights = self.rights | right;
    }

    /// Get the castling rights as a u8
    pub fn get_rights_u8(&self) -> (r: u8)
        ensures
            r == self@,
    {
        self.rights
    }

    /// The rights written as in a FEN string: `K`, `Q`, `k` and `q` add white's kingside,
    /// white's queenside, black's kingside and black's queenside rights, and `-` ends the
    /// text; any other character before it is refused.
    pub fn from_text(v: &str) -> (r: Self)
        requires
            castling_parse(v.spec_bytes(), v.spec_bytes().len()).ok,
        ensures
            r@ == castling_parse(v.spec_bytes(), v.spec_bytes().len()).rights,
    {
        let bytes = v.as_bytes();
        let mut sec: Vec<u8> = Vec::new();
        let mut i: usize = 0;
        while i < bytes.len()
            invariant
                i <= bytes@.len(),
                sec@ == bytes@.subrange(0, i as int),
            decreases bytes@.len() - i,
        {
            sec.push(bytes[i]);
            i = i + 1;
            proof {
                assert(sec@ =~= bytes@.subrange(0, i as int));
            }
        }
        proof {
            assert(sec@ =~= bytes@);
        }
        match parse_castling(&sec) {
            Some(rights) => CastlingRights { rights },
            None => CastlingRights { rights: 0 },
        }
    }
}

/// Adding a right makes it present; removing a right makes it absent.
pub proof fn lemma_castling_add_remove(rights: u8, right: u8)
    by (bit_vector)
    requires
        right != 0,
    ensures
        (rights | right) & right != 0,
        (rights & !right) & right == 0,
        ((rights | right) & !right) == rights & !right,
{
}

} // verus!
