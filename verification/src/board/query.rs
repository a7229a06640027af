use vstd::prelude::*;

verus! {

use crate::board::Position;
use crate::board::attacks::{
    pawn_attacks, knight_attacks, king_attacks, bishop_attacks, rook_attacks, mask_pawn_attacks,
    mask_knight_attacks, mask_king_attacks, generate_bishop_attacks_on_the_fly,
    generate_rook_attacks_on_the_fly,
};
use crate::chess::color::{Color, opposite};
use crate::chess::square::Square;
use crate::utils::{get_lsb, bit};
use vstd::std_specs::bits::u64_trailing_zeros;

/// The pieces of `color` that attack `sq` when the squares of `occ` are occupied: pawns, knights,
/// bishops and queens on diagonals, rooks and queens on lines, and the king.
pub open spec fn attackers(bb: Seq<u64>, sq: u64, color: Color, occ: u64) -> u64 {
    let o = 6 * color@ as int;
    (pawn_attacks(opposite(color), sq) & bb[o]) | (knight_attacks(sq) & bb[o + 1]) | (
    bishop_attacks(sq as int, occ) & (bb[o + 2] | bb[o + 4])) | (rook_attacks(sq as int, occ) & (
    bb[o + 3] | bb[o + 4])) | (king_attacks(sq) & bb[o + 5])
}

/// Whether the side to move has no king, or its king is attacked.
pub open spec fn in_check(bb: Seq<u64>, turn: Color, occ: u64) -> bool {
    let k = u64_trailing_zeros(bb[5 + 6 * turn@ as int]);
    k >= 64 || attackers(bb, k as u64, opposite(turn), occ) != 0
}

impl Position {
    /// The squares a bishop on `square` attacks given the occupancy.
    pub fn get_bishop_magic_attacks(&self, square: Square, occupancy: u64) -> (r: u64)
        requires
            square < 64,
        ensures
            r == bishop_attacks(square as int, occupancy),
    {
        generate_bishop_attacks_on_the_fly(square, occupancy)
    }

    /// The squares a rook on `square` attacks given the occupancy.
    pub fn get_rook_magic_attacks(&self, square: Square, occupancy: u64) -> (r: u64)
        requires
            square < 64,
        ensures
            r == rook_attacks(square as int, occupancy),
    {
        generate_rook_attacks_on_the_fly(square, occupancy)
    }

    /// The squares a queen on `square` attacks given the occupancy.
    pub fn get_queen_magic_attacks(&self, square: Square, occupancy: u64) -> (r: u64)
        requires
            square < 64,
        ensures
            r == bishop_attacks(square as int, occupancy) | rook_attacks(square as int, occupancy),
    {
        self.get_bishop_magic_attacks(square, occupancy) | self.get_rook_magic_attacks(square, occupancy)
    }

    /// Returns true if the given square is attacked by the given color, takes a custom occupancy
    pub fn is_square_attacked_w_occupancy(&self, square: Square, color: Color, both_occupancy: u64) -> (r: bool)
        requires
            square < 64,
        ensures
            r == (attackers(self.bitboards@, square as u64, color, both_occupancy) != 0),
    {
        let piece_offset = color.to_index() * 6;
        let p_attacks = mask_pawn_attacks(square, color.opponent()) & self.bitboards[piece_offset];
        let n_attacks = mask_knight_attacks(square) & self.bitboards[piece_offset + 1];
        let bq_attacks = self.get_bishop_magic_attacks(square, both_occupancy) & (
        self.bitboards[piece_offset + 2] | self.bitboards[piece_offset + 4]);
        let rq_attacks = self.get_rook_magic_attacks(square, both_occupancy) & (
        self.bitboards[piece_offset + 3] | self.bitboards[piece_offset + 4]);
        let k_attacks = mask_king_attacks(square) & self.bitboards[piece_offset + 5];
        (p_attacks | n_attacks | bq_attacks | rq_attacks | k_attacks) != 0
    }

    /// The pieces of `color` attacking `square` when the squares of `occupancy` are occupied.
    pub fn get_attackers_to(&self, square: Square, color: Color, occupancy: u64) -> (r: u64)
        requires
            square < 64,
        ensures
            r == attackers(self.bitboards@, square as u64, color, occupancy),
    {
        let piece_offset = color.to_index() * 6;
        let p_attacks = mask_pawn_attacks(square, color.opponent()) & self.bitboards[piece_offset];
        let n_attacks = mask_knight_attacks(square) & self.bitboards[piece_offset + 1];
        let bq_attacks = self.get_bishop_magic_attacks(square, occupancy) & (
        self.bitboards[piece_offset + 2] | self.bitboards[piece_offset + 4]);
        let rq_attacks = self.get_rook_magic_attacks(square, occupancy) & (
        self.bitboards[piece_offset + 3] | self.bitboards[piece_offset + 4]);
        let k_attacks = mask_king_attacks(square) & self.bitboards[piece_offset + 5];
        p_attacks | n_attacks | bq_attacks | rq_attacks | k_attacks
    }

    /// The pieces of both colors attacking `square` when the squares of `occupancy` are
    /// occupied.
    pub fn get_all_attackers_to(&self, square: Square, occupancy: u64) -> (r: u64)
        requires
            square < 64,
        ensures
            r == attackers(self.bitboards@, square as u64, Color::White, occupancy)
                | attackers(self.bitboards@, square as u64, Color::Black, occupancy),
    {
        self.get_attackers_to(square, Color::White, occupancy) | self.get_attackers_to(square, Color::Black, occupancy)
    }

    /// Returns true if the given square is attacked by the given color
    pub fn is_square_attacked(&self, square: Square, color: Color) -> (r: bool)
        requires
            square < 64,
        ensures
            r == (attackers(self.bitboards@, square as u64, color, self.occupancies[2]) != 0),
    {
        self.is_square_attacked_w_occupancy(square, color, self.occupancies[2])
    }

    /// Returns true if the current side's king is in check (or has no king).
    pub fn is_in_check(&self) -> (r: bool)
        ensures
            r == in_check(self.bitboards@, self.turn, self.occupancies[2]),
    {
        let king_square = get_lsb(self.bitboards[self.turn.to_index() * 6 + 5]);
        king_square >= 64 || self.is_square_attacked(king_square, self.turn.opponent())
    }
}

} // verus!
