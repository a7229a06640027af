pub mod attacks;
pub mod constants;
pub mod fen;
pub mod fen_out;
pub mod fen_law;
pub mod magic;
pub mod make;
pub mod query;
pub mod zobrist;

use vstd::prelude::*;

verus! {

use crate::chess::_move::BitPackedMove;
use crate::chess::castling_rights::CastlingRights;
use crate::chess::color::Color;
use crate::chess::piece::{Piece, piece_of_index};
use crate::chess::square::Square;
use crate::utils::{bit, get_bit, pop_lsb, count_bits, popcount, lemma_xor_facts, lemma_bit_ops, lemma_bit_single};
use crate::board::fen::{fen_valid, fen_fields_match, parse_fen, split_spaces, placement};
use vstd::string::StringSliceAdditionalSpecFns;
use crate::board::zobrist::{ZobristKeys, draw_zobrist_keys, keys_drawn_from, rand_state, ZOBRIST_SEED};

/// The number of plies the history and move-list stacks hold.
pub const STACK_SIZE: usize = 128;

/// A chess position
#[derive(Clone)]
pub struct Position {
    pub bitboards: [u64; 12],
    pub turn: Color,
    pub enpassant: Option<Square>,
    pub castling: CastlingRights,
    pub halfmove_clock: u32,
    pub fullmove_number: u32,
    pub position_stack: Vec<HistoryEntry>,
    pub occupancies: [u64; 3],
    pub hash: u64,
    pub material: [i32; 2],
    pub move_list_stack: Vec<Vec<BitPackedMove>>,
    pub depth: usize,
    pub rand_seed: u32,
    pub zobrist_piece_keys: [[u64; 64]; 12],
    pub zobrist_castling_keys: [u64; 16],
    pub zobrist_enpassant_keys: [u64; 64],
    pub zobrist_turn_key: u64,
    pub opponent_attack_map: u64,
}

/// The state of a position saved before a move, restored when the move is taken back.
#[derive(Clone, Copy)]
pub struct HistoryEntry {
    pub bitboards: [u64; 12],
    pub turn: Color,
    pub enpassant: Option<Square>,
    pub castling: CastlingRights,
    pub material: [i32; 2],
    pub halfmove_clock: u32,
    pub fullmove_number: u32,
    pub occupancies: [u64; 3],
    pub hash: u64,
}

impl HistoryEntry {
    /// An empty board with white to move, all castling rights and fullmove number 1.
    pub fn default() -> (r: HistoryEntry)
        ensures
            forall|i: int| 0 <= i < 12 ==> r.bitboards[i] == 0,
            r.turn == Color::White,
            r.enpassant is None,
            r.castling@ == 0b1111u8,
            r.material[0] == 0 && r.material[1] == 0,
            r.halfmove_clock == 0,
            r.fullmove_number == 1,
            r.occupancies[0] == 0 && r.occupancies[1] == 0 && r.occupancies[2] == 0,
            r.hash == 0,
    {
        HistoryEntry {
            bitboards: [0; 12],
            turn: Color::White,
            enpassant: None,
            castling: CastlingRights::new(),
            material: [0; 2],
            halfmove_clock: 0,
            fullmove_number: 1,
            occupancies: [0; 3],
            hash: 0,
        }
    }
}

/// The squares occupied by white pieces.
pub open spec fn white_occupancy(bb: Seq<u64>) -> u64 {
    bb[0] | bb[1] | bb[2] | bb[3] | bb[4] | bb[5]
}

/// The squares occupied by black pieces.
pub open spec fn black_occupancy(bb: Seq<u64>) -> u64 {
    bb[6] | bb[7] | bb[8] | bb[9] | bb[10] | bb[11]
}

/// The first piece, among indices `start..end`, whose bitboard holds `sq` (the empty piece
/// when there is none).
pub open spec fn first_piece_on(bb: Seq<u64>, sq: u64, start: int, end: int) -> Piece
    decreases end - start,
{
    if start >= end {
        Piece::Empty
    } else if bit(bb[start], sq) {
        piece_of_index(start)
    } else {
        first_piece_on(bb, sq, start + 1, end)
    }
}

/// The piece on `sq`: a white piece when the white occupancy holds the square,
/// otherwise a black piece, and the empty piece when none is found.
pub open spec fn piece_on(bb: Seq<u64>, white: u64, sq: u64) -> Piece {
    if bit(white, sq) {
        first_piece_on(bb, sq, 0, 6)
    } else {
        first_piece_on(bb, sq, 6, 12)
    }
}

/// The Zobrist contribution of one piece's bitboard, over the squares below `n`.
pub open spec fn piece_square_hash(bb: u64, keys: [u64; 64], n: nat) -> u64
    decreases n,
{
    if n == 0 {
        0
    } else {
        piece_square_hash(bb, keys, (n - 1) as nat) ^ (if bit(bb, (n - 1) as u64) {
            keys[n - 1]
        } else {
            0u64
        })
    }
}

/// The Zobrist contribution of the pieces below index `p`.
pub open spec fn pieces_hash(bbs: [u64; 12], keys: [[u64; 64]; 12], p: nat) -> u64
    decreases p,
{
    if p == 0 {
        0
    } else {
        pieces_hash(bbs, keys, (p - 1) as nat) ^ piece_square_hash(bbs[p - 1], keys[p - 1], 64)
    }
}

impl Position {
    /// The occupancy bitboards agree with the piece bitboards.
    pub open spec fn occupancies_consistent(&self) -> bool {
        &&& self.occupancies[0] == white_occupancy(self.bitboards@)
        &&& self.occupancies[1] == black_occupancy(self.bitboards@)
        &&& self.occupancies[2] == self.occupancies[0] | self.occupancies[1]
    }

    /// The Zobrist hash of the position: the keys of every piece on its square, of the en
    /// passant square, of the castling rights and, with black to move, of the side to move.
    pub open spec fn zobrist_hash(&self) -> u64 {
        pieces_hash(self.bitboards, self.zobrist_piece_keys, 12) ^ (match self.enpassant {
            Some(s) => self.zobrist_enpassant_keys[s as int],
            None => 0u64,
        }) ^ self.zobrist_castling_keys[self.castling@ as int] ^ (if self.turn == Color::Black {
            self.zobrist_turn_key
        } else {
            0u64
        })
    }

    /// The Zobrist keys are the draws of the pseudorandom stream from its fixed seed.
    pub open spec fn keys_initialized(&self) -> bool {
        keys_drawn_from(
            ZobristKeys {
                piece: self.zobrist_piece_keys,
                castling: self.zobrist_castling_keys,
                enpassant: self.zobrist_enpassant_keys,
                turn: self.zobrist_turn_key,
            },
            ZOBRIST_SEED,
        )
    }

    /// The position's shape: consistent occupancies, an en passant square on the board,
    /// castling rights in four bits, and stacks of the fixed size.
    pub open spec fn wf(&self) -> bool {
        &&& self.occupancies_consistent()
        &&& (self.enpassant matches Some(s) ==> s < 64)
        &&& self.castling@ < 16
        &&& self.position_stack@.len() >= STACK_SIZE
        &&& self.move_list_stack@.len() == STACK_SIZE
    }

    /// Draws the Zobrist keys from the pseudorandom stream, starting again from its seed.
    pub fn init_zorbrist_keys(&mut self)
        ensures
            final(self).keys_initialized(),
            final(self).rand_seed == rand_state(ZOBRIST_SEED, 849),
            final(self).bitboards == old(self).bitboards,
            final(self).turn == old(self).turn,
            final(self).enpassant == old(self).enpassant,
            final(self).castling == old(self).castling,
            final(self).halfmove_clock == old(self).halfmove_clock,
            final(self).fullmove_number == old(self).fullmove_number,
            final(self).position_stack == old(self).position_stack,
            final(self).occupancies == old(self).occupancies,
            final(self).hash == old(self).hash,
            final(self).material == old(self).material,
            final(self).move_list_stack == old(self).move_list_stack,
            final(self).depth == old(self).depth,
            final(self).opponent_attack_map == old(self).opponent_attack_map,
    {
        self.rand_seed = ZOBRIST_SEED;
        let keys = draw_zobrist_keys(&mut self.rand_seed);
        self.zobrist_piece_keys = keys.piece;
        self.zobrist_castling_keys = keys.castling;
        self.zobrist_enpassant_keys = keys.enpassant;
        self.zobrist_turn_key = keys.turn;
    }

    /// Updates the occupancy bitboards from the piece bitboards.
    pub fn update_occupancies(&mut self)
        ensures
            final(self).occupancies_consistent(),
            final(self).bitboards == old(self).bitboards,
            final(self).turn == old(self).turn,
            final(self).enpassant == old(self).enpassant,
            final(self).castling == old(self).castling,
            final(self).halfmove_clock == old(self).halfmove_clock,
            final(self).fullmove_number == old(self).fullmove_number,
            final(self).position_stack == old(self).position_stack,
            final(self).hash == old(self).hash,
            final(self).material == old(self).material,
            final(self).move_list_stack == old(self).move_list_stack,
            final(self).depth == old(self).depth,
            final(self).rand_seed == old(self).rand_seed,
            final(self).zobrist_piece_keys == old(self).zobrist_piece_keys,
            final(self).zobrist_castling_keys == old(self).zobrist_castling_keys,
            final(self).zobrist_enpassant_keys == old(self).zobrist_enpassant_keys,
            final(self).zobrist_turn_key == old(self).zobrist_turn_key,
            final(self).opponent_attack_map == old(self).opponent_attack_map,
    {
        let white_occupancy = self.bitboards[0] | self.bitboards[1] | self.bitboards[2]
            | self.bitboards[3] | self.bitboards[4] | self.bitboards[5];
        let black_occupancy = self.bitboards[6] | self.bitboards[7] | self.bitboards[8]
            | self.bitboards[9] | self.bitboards[10] | self.bitboards[11];
        self.occupancies[0] = white_occupancy;
        self.occupancies[1] = black_occupancy;
        self.occupancies[2] = white_occupancy | black_occupancy;
    }

    /// The squares occupied by any piece, computed from the piece bitboards.
    pub fn get_both_occupancy(&self) -> (r: u64)
        ensures
            r == white_occupancy(self.bitboards@) | black_occupancy(self.bitboards@),
    {
        let mut white_occupancy: u64 = 0;
        let mut black_occupancy: u64 = 0;
        let mut piece: usize = 0;
        proof {
            crate::board::attacks::lemma_or_facts(self.bitboards[0], 0, 0);
        }
        while piece < 6
            invariant
                piece <= 6,
                piece == 0 ==> white_occupancy == 0,
                piece == 1 ==> white_occupancy == 0 | self.bitboards[0],
                piece == 2 ==> white_occupancy == 0 | self.bitboards[0] | self.bitboards[1],
                piece == 3 ==> white_occupancy == 0 | self.bitboards[0] | self.bitboards[1] | self.bitboards[2],
                piece == 4 ==> white_occupancy == 0 | self.bitboards[0] | self.bitboards[1] | self.bitboards[2] | self.bitboards[3],
                piece == 5 ==> white_occupancy == 0 | self.bitboards[0] | self.bitboards[1] | self.bitboards[2] | self.bitboards[3] | self.bitboards[4],
                piece == 6 ==> white_occupancy == 0 | self.bitboards[0] | self.bitboards[1] | self.bitboards[2] | self.bitboards[3] | self.bitboards[4] | self.bitboards[5],
            decreases 6 - piece,
        {
            white_occupancy = white_occupancy | self.bitboards[piece];
            piece = piece + 1;
        }
        while piece < 12
            invariant
                6 <= piece <= 12,
                piece == 6 ==> black_occupancy == 0,
                piece == 7 ==> black_occupancy == 0 | self.bitboards[6],
                piece == 8 ==> black_occupancy == 0 | self.bitboards[6] | self.bitboards[7],
                piece == 9 ==> black_occupancy == 0 | self.bitboards[6] | self.bitboards[7] | self.bitboards[8],
                piece == 10 ==> black_occupancy == 0 | self.bitboards[6] | self.bitboards[7] | self.bitboards[8] | self.bitboards[9],
                piece == 11 ==> black_occupancy == 0 | self.bitboards[6] | self.bitboards[7] | self.bitboards[8] | self.bitboards[9] | self.bitboards[10],
                piece == 12 ==> black_occupancy == 0 | self.bitboards[6] | self.bitboards[7] | self.bitboards[8] | self.bitboards[9] | self.bitboards[10] | self.bitboards[11],
                white_occupancy == 0 | self.bitboards[0] | self.bitboards[1] | self.bitboards[2] | self.bitboards[3] | self.bitboards[4] | self.bitboards[5],
            decreases 12 - piece,
        {
            black_occupancy = black_occupancy | self.bitboards[piece];
            piece = piece + 1;
        }
        proof {
            crate::board::attacks::lemma_or_facts(self.bitboards[0], 0, 0);
            crate::board::attacks::lemma_or_facts(self.bitboards[6], 0, 0);
        }
        white_occupancy | black_occupancy
    }

    /// Returns the piece on `square` (the empty piece when the square is empty).
    pub fn get_piece_at_square(&self, square: u8) -> (r: Piece)
        requires
            square < 64,
        ensures
            r == piece_on(self.bitboards@, self.occupancies[0], square as u64),
    {
        let start: usize = if get_bit(self.occupancies[0], square) != 0 {
            0
        } else {
            6
        };
        let mut piece: usize = start;
        while piece < start + 6
            invariant
                start == (if bit(self.occupancies[0], square as u64) { 0usize } else { 6usize }),
                start <= piece <= start + 6,
                first_piece_on(self.bitboards@, square as u64, start as int, start as int + 6)
                    == first_piece_on(self.bitboards@, square as u64, piece as int, start as int + 6),
                square < 64,
            decreases start + 6 - piece,
        {
            if get_bit(self.bitboards[piece], square) != 0 {
                assert(first_piece_on(self.bitboards@, square as u64, piece as int, start as int + 6)
                    == piece_of_index(piece as int));
                return Piece::from_index(piece);
            }
            piece = piece + 1;
        }
        Piece::Empty
    }

    /// The part of the position saved before a move.
    pub fn to_history_entry(&self) -> (r: HistoryEntry)
        ensures
            r.bitboards == self.bitboards,
            r.turn == self.turn,
            r.enpassant == self.enpassant,
            r.castling == self.castling,
            r.halfmove_clock == self.halfmove_clock,
            r.fullmove_number == self.fullmove_number,
            r.occupancies == self.occupancies,
            r.material == self.material,
            r.hash == self.hash,
    {
        HistoryEntry {
            bitboards: self.bitboards,
            turn: self.turn,
            enpassant: self.enpassant,
            castling: self.castling,
            halfmove_clock: self.halfmove_clock,
            fullmove_number: self.fullmove_number,
            occupancies: self.occupancies,
            material: self.material,
            hash: self.hash,
        }
    }

    /// Restores the saved part of the position from a history entry.
    pub fn apply_history_entry(&mut self, entry: HistoryEntry)
        ensures
            final(self).bitboards == entry.bitboards,
            final(self).turn == entry.turn,
            final(self).enpassant == entry.enpassant,
            final(self).castling == entry.castling,
            final(self).halfmove_clock == entry.halfmove_clock,
            final(self).fullmove_number == entry.fullmove_number,
            final(self).occupancies == entry.occupancies,
            final(self).material == entry.material,
            final(self).hash == entry.hash,
            final(self).position_stack == old(self).position_stack,
            final(self).move_list_stack == old(self).move_list_stack,
            final(self).depth == old(self).depth,
            final(self).rand_seed == old(self).rand_seed,
            final(self).zobrist_piece_keys == old(self).zobrist_piece_keys,
            final(self).zobrist_castling_keys == old(self).zobrist_castling_keys,
            final(self).zobrist_enpassant_keys == old(self).zobrist_enpassant_keys,
            final(self).zobrist_turn_key == old(self).zobrist_turn_key,
            final(self).opponent_attack_map == old(self).opponent_attack_map,
    {
        self.bitboards = entry.bitboards;
        self.turn = entry.turn;
        self.enpassant = entry.enpassant;
        self.castling = entry.castling;
        self.halfmove_clock = entry.halfmove_clock;
        self.fullmove_number = entry.fullmove_number;
        self.occupancies = entry.occupancies;
        self.material = entry.material;
        self.hash = entry.hash;
    }

    /// Recomputes the Zobrist hash of the position from scratch.
    pub fn update_hash(&mut self)
        requires
            old(self).enpassant matches Some(s) ==> s < 64,
            old(self).castling@ < 16,
        ensures
            final(self).hash == old(self).zobrist_hash(),
            final(self).bitboards == old(self).bitboards,
            final(self).turn == old(self).turn,
            final(self).enpassant == old(self).enpassant,
            final(self).castling == old(self).castling,
            final(self).halfmove_clock == old(self).halfmove_clock,
            final(self).fullmove_number == old(self).fullmove_number,
            final(self).position_stack == old(self).position_stack,
            final(self).occupancies == old(self).occupancies,
            final(self).material == old(self).material,
            final(self).move_list_stack == old(self).move_list_stack,
            final(self).depth == old(self).depth,
            final(self).rand_seed == old(self).rand_seed,
            final(self).zobrist_piece_keys == old(self).zobrist_piece_keys,
            final(self).zobrist_castling_keys == old(self).zobrist_castling_keys,
            final(self).zobrist_enpassant_keys == old(self).zobrist_enpassant_keys,
            final(self).zobrist_turn_key == old(self).zobrist_turn_key,
            final(self).opponent_attack_map == old(self).opponent_attack_map,
    {
        let mut hash: u64 = 0;
        let mut piece: usize = 0;
        while piece < 12
            invariant
                piece <= 12,
                hash == pieces_hash(self.bitboards, self.zobrist_piece_keys, piece as nat),
            decreases 12 - piece,
        {
            let mut bb = self.bitboards[piece];
            let ghost base = hash;
            let ghost keys = self.zobrist_piece_keys[piece as int];
            proof {
                lemma_xor_facts(base, 0, 0);
                lemma_xor_facts(base, piece_square_hash(bb, keys, 64), 0);
            }
            while bb != 0
                invariant
                    piece < 12,
                    keys == self.zobrist_piece_keys[piece as int],
                    hash ^ piece_square_hash(bb, keys, 64) == base ^ piece_square_hash(
                        self.bitboards[piece as int],
                        keys,
                        64,
                    ),
                decreases bb,
            {
                let ghost old_bb = bb;
                let ghost old_hash = hash;
                let square = pop_lsb(&mut bb);
                proof {
                    lemma_psh_pop(old_bb, keys, square as u64, 64);
                    let k = keys[square as int];
                    let rest = piece_square_hash(bb, keys, 64);
                    lemma_xor_facts(old_hash, k, rest);
                    lemma_xor_facts(k, rest, 0);
                }
                hash = hash ^ self.zobrist_piece_keys[piece][square as usize];
            }
            proof {
                lemma_psh_zero(keys, 64);
                lemma_xor_facts(hash, 0, 0);
            }
            piece = piece + 1;
        }
        if let Some(ep) = self.enpassant {
            hash = hash ^ self.zobrist_enpassant_keys[ep as usize];
        } else {
            proof {
                lemma_xor_facts(hash, 0, 0);
            }
        }
        hash = hash ^ self.zobrist_castling_keys[self.castling.get_rights_u8() as usize];
        if self.turn == Color::Black {
            hash = hash ^ self.zobrist_turn_key;
        } else {
            proof {
                lemma_xor_facts(hash, 0, 0);
            }
        }
        self.hash = hash;
    }

    /// The weighted number of bishops, knights, rooks and queens on the board, which tells how
    /// far the game is from its opening.
    pub fn get_game_phase_score(&self) -> (r: i32)
        ensures
            r == game_phase_score(self.bitboards),
    {
        let bishops = count_bits(self.bitboards[8] | self.bitboards[2]) as i32;
        let knights = count_bits(self.bitboards[7] | self.bitboards[1]) as i32;
        let rooks = count_bits(self.bitboards[9] | self.bitboards[3]) as i32;
        let queens = count_bits(self.bitboards[4] | self.bitboards[10]) as i32;
        bishops * 365 + knights * 337 + rooks * 477 + queens * 1025
    }
}

/// The game phase score: 365 per bishop, 337 per knight, 477 per rook and 1025 per queen
/// (counting each square once per kind).
pub open spec fn game_phase_score(bb: [u64; 12]) -> int {
    (popcount(bb[8] | bb[2]) * 365 + popcount(bb[7] | bb[1]) * 337 + popcount(bb[9] | bb[3])
        * 477 + popcount(bb[4] | bb[10]) * 1025) as int
}

/// Removing a set square from a piece's bitboard takes its key out of the hash.
pub proof fn lemma_psh_pop(x: u64, keys: [u64; 64], s: u64, n: nat)
    requires
        s < 64,
        n <= 64,
        bit(x, s),
    ensures
        piece_square_hash(x, keys, n) == (if s < n { keys[s as int] } else { 0u64 })
            ^ piece_square_hash(x & !(1u64 << s), keys, n),
    decreases n,
{
    let y = x & !(1u64 << s);
    if n == 0 {
        lemma_xor_facts(0, 0, 0);
    } else {
        let m = (n - 1) as nat;
        lemma_psh_pop(x, keys, s, m);
        lemma_bit_ops(x, !(1u64 << s), m as u64);
        lemma_bit_ops(1u64 << s, 0, m as u64);
        lemma_bit_single(m as u64, s);
        let a = piece_square_hash(y, keys, m);
        let kx = if bit(x, m as u64) { keys[m as int] } else { 0u64 };
        let ky = if bit(y, m as u64) { keys[m as int] } else { 0u64 };
        let ks_m = if s < m { keys[s as int] } else { 0u64 };
        lemma_xor_facts(ks_m, a, kx);
        lemma_xor_facts(0, a, kx);
        lemma_xor_facts(a, kx, 0);
        lemma_xor_facts(keys[s as int], a, 0);
        lemma_xor_facts(a, keys[s as int], 0);
    }
}

/// The empty bitboard contributes nothing to the hash.
pub proof fn lemma_psh_zero(keys: [u64; 64], n: nat)
    requires
        n <= 64,
    ensures
        piece_square_hash(0u64, keys, n) == 0,
    decreases n,
{
    if n > 0 {
        lemma_psh_zero(keys, (n - 1) as nat);
        lemma_bit_ops(0u64, 0u64, (n - 1) as u64);
        lemma_xor_facts(0, 0, 0);
    }
}

pub const OPENING_GAME_PHASE_SCORE: i32 = 6192;
pub const ENDGAME_PHASE_SCORE: i32 = 518;

/// Simple material values by piece index.
pub const SIMPLE_PIECE_SCORES: [i32; 12] = [100, 320, 330, 500, 900, 20000, 100, 320, 330, 500, 900, 20000];

/// Material values in the opening, by piece index.
pub const OPENING_PIECE_SCORES: [i32; 12] = [82, 337, 365, 477, 1025, 12000, 82, 337, 365, 477, 1025, 12000];

/// Material values in the endgame, by piece index.
pub const ENDING_PIECE_SCORES: [i32; 12] = [82, 337, 365, 477, 1025, 12000, 82, 337, 365, 477, 1025, 12000];

/// The positional score of a piece of the given index on a square (seen from white's side).
pub open spec fn pst_score(piece: int, sq: int) -> int {
    let kind = piece % 6;
    if kind == 0 {
        crate::pst::PAWN_POSITIONAL_SCORE[sq] as int
    } else if kind == 1 {
        crate::pst::KNIGHT_POSITIONAL_SCORE[sq] as int
    } else if kind == 2 {
        crate::pst::BISHOP_POSITIONAL_SCORE[sq] as int
    } else if kind == 3 {
        crate::pst::ROOK_POSITIONAL_SCORE[sq] as int
    } else if kind == 4 {
        0
    } else {
        crate::pst::KING_POSITIONAL_SCORE[sq] as int
    }
}

/// The positional score of a piece in the opening.
fn opening_pst(piece: usize, sq: usize) -> (r: i32)
    requires
        piece < 12,
        sq < 64,
    ensures
        r == pst_score(piece as int, sq as int),
        -15 <= r <= 90,
{
    let kind = piece % 6;
    proof {
        assert(forall|i: int| 0 <= i < 64 ==> -15 <= #[trigger] crate::pst::PAWN_POSITIONAL_SCORE[i] <= 90);
        assert(forall|i: int| 0 <= i < 64 ==> -15 <= #[trigger] crate::pst::KNIGHT_POSITIONAL_SCORE[i] <= 90);
        assert(forall|i: int| 0 <= i < 64 ==> -15 <= #[trigger] crate::pst::BISHOP_POSITIONAL_SCORE[i] <= 90);
        assert(forall|i: int| 0 <= i < 64 ==> -15 <= #[trigger] crate::pst::ROOK_POSITIONAL_SCORE[i] <= 90);
        assert(forall|i: int| 0 <= i < 64 ==> -15 <= #[trigger] crate::pst::KING_POSITIONAL_SCORE[i] <= 90);
    }
    if kind == 0 {
        crate::pst::PAWN_POSITIONAL_SCORE[sq]
    } else if kind == 1 {
        crate::pst::KNIGHT_POSITIONAL_SCORE[sq]
    } else if kind == 2 {
        crate::pst::BISHOP_POSITIONAL_SCORE[sq]
    } else if kind == 3 {
        crate::pst::ROOK_POSITIONAL_SCORE[sq]
    } else if kind == 4 {
        0
    } else {
        crate::pst::KING_POSITIONAL_SCORE[sq]
    }
}

/// The positional score of a piece in the endgame.
fn ending_pst(piece: usize, sq: usize) -> (r: i32)
    requires
        piece < 12,
        sq < 64,
    ensures
        r == pst_score(piece as int, sq as int),
        -15 <= r <= 90,
{
    opening_pst(piece, sq)
}

/// The square a piece's positional score is read from: black pieces read the mirrored square.
pub open spec fn pst_square(piece: int, square: int) -> int {
    if piece >= 6 {
        crate::pst::mirror_square(square)
    } else {
        square
    }
}

/// The value of a piece on a square: its material value plus its positional score, tapered
/// between the opening and endgame tables by the game phase score. The opening and endgame
/// tables agree, so every phase gives the same value.
pub open spec fn piece_square_value(piece: int, square: int) -> int {
    OPENING_PIECE_SCORES[piece] + pst_score(piece, pst_square(piece, square))
}

/// Black and white pieces are valued alike, each from its own side: a black piece on the
/// square with the rank flipped is worth what the white piece of the same kind is worth.
pub proof fn law_piece_value_color_symmetric(piece: int, sq: u64)
    requires
        0 <= piece < 6,
        sq < 64,
    ensures
        piece_square_value(piece, sq as int) == piece_square_value(piece + 6, crate::utils::flip_square(sq) as int),
{
    crate::utils::lemma_flip_square(sq);
    let m = crate::utils::flip_square(sq) as int;
    assert(crate::pst::mirror_square(m) == sq as int);
    assert(OPENING_PIECE_SCORES[piece + 6] == OPENING_PIECE_SCORES[piece]);
    assert((piece + 6) % 6 == piece % 6);
}

/// The value of `piece` on `square` for the given game phase score.
pub fn _get_piece_value_bl(piece: usize, square: usize, game_phase_score: i32) -> (r: i32)
    requires
        piece < 12,
        square < 64,
        0 <= game_phase_score <= 141056,
    ensures
        r == piece_square_value(piece as int, square as int),
{
    let is_opening: i32 = if game_phase_score > OPENING_GAME_PHASE_SCORE { 1 } else { 0 };
    let is_endgame: i32 = if game_phase_score < ENDGAME_PHASE_SCORE { 1 } else { 0 };
    let is_middlegame: i32 = if is_opening == 0 && is_endgame == 0 { 1 } else { 0 };

    let adjusted_square: usize = if piece >= 6 {
        (7 - square / 8) * 8 + square % 8
    } else {
        square
    };

    let open_score = OPENING_PIECE_SCORES[piece];
    let end_score = ENDING_PIECE_SCORES[piece];
    proof {
        assert(forall|i: int| 0 <= i < 12 ==> 82 <= #[trigger] OPENING_PIECE_SCORES[i] <= 12000);
        assert(forall|i: int| 0 <= i < 12 ==> #[trigger] ENDING_PIECE_SCORES[i] == OPENING_PIECE_SCORES[i]);
    }
    let open_pst = opening_pst(piece, adjusted_square);
    let end_pst = ending_pst(piece, adjusted_square);

    let opening_value = open_score + open_pst;
    let ending_value = end_score + end_pst;

    let g = game_phase_score;
    let rest = OPENING_GAME_PHASE_SCORE - g;
    proof {
        lemma_taper_bounds(open_score as int, g as int);
        lemma_taper_bounds(open_pst as int, g as int);
    }
    let material_mid = (open_score * g + end_score * rest) / OPENING_GAME_PHASE_SCORE;
    let pst_mid = (open_pst * g + end_pst * rest) / OPENING_GAME_PHASE_SCORE;
    let middlegame_value = material_mid + pst_mid;

    is_opening * opening_value + is_endgame * ending_value + is_middlegame * middlegame_value
}

proof fn lemma_taper_bounds(v: int, g: int)
    requires
        -15 <= v <= 12000,
        0 <= g <= 141056,
    ensures
        -2147483648 <= v * g <= 2147483647,
        -2147483648 <= v * (6192 - g) <= 2147483647,
        v * g + v * (6192 - g) == v * 6192,
        (v * 6192) / 6192 == v,
{
    assert(-2147483648 <= v * g <= 2147483647) by (nonlinear_arith)
        requires
            -15 <= v <= 12000,
            0 <= g <= 141056,
    ;
    assert(-2147483648 <= v * (6192 - g) <= 2147483647) by (nonlinear_arith)
        requires
            -15 <= v <= 12000,
            0 <= g <= 141056,
    ;
    assert(v * g + v * (6192 - g) == v * 6192) by (nonlinear_arith);
    assert((v * 6192) / 6192 == v) by (nonlinear_arith);
}

/// The material counted for `color` (0 white, 1 black) over the squares below `n`: the value of

/// The material term of square `j` for `color`: the value of the piece found there when it is
/// of that color.
pub open spec fn material_term(bb: Seq<u64>, white: u64, color: int, j: u64) -> int {
    let p = piece_on(bb, white, j);
    if p != Piece::Empty && ((p@ >= 6) == (color == 1)) {
        piece_square_value(p@ as int, j as int)
    } else {
        0
    }
}

proof fn lemma_material_upto_sum(bb: Seq<u64>, white: u64, color: int, n: nat)
    requires
        n <= 64,
    ensures
        material_upto(bb, white, color, n) == crate::utils::square_sum(|j: u64| material_term(bb, white, color, j), n),
    decreases n,
{
    if n > 0 {
        lemma_material_upto_sum(bb, white, color, (n - 1) as nat);
    }
}

/// The occupancy of a color holds a square when one of its six boards does.
proof fn lemma_side_occupancy_bits(bb: Seq<u64>, j: u64)
    requires
        bb.len() == 12,
        j < 64,
    ensures
        bit(white_occupancy(bb), j) == (bit(bb[0], j) || bit(bb[1], j) || bit(bb[2], j) || bit(bb[3], j)
            || bit(bb[4], j) || bit(bb[5], j)),
        bit(black_occupancy(bb), j) == (bit(bb[6], j) || bit(bb[7], j) || bit(bb[8], j) || bit(bb[9], j)
            || bit(bb[10], j) || bit(bb[11], j)),
{
    lemma_bit_ops(bb[0], bb[1], j);
    lemma_bit_ops(bb[0] | bb[1], bb[2], j);
    lemma_bit_ops(bb[0] | bb[1] | bb[2], bb[3], j);
    lemma_bit_ops(bb[0] | bb[1] | bb[2] | bb[3], bb[4], j);
    lemma_bit_ops(bb[0] | bb[1] | bb[2] | bb[3] | bb[4], bb[5], j);
    lemma_bit_ops(bb[6], bb[7], j);
    lemma_bit_ops(bb[6] | bb[7], bb[8], j);
    lemma_bit_ops(bb[6] | bb[7] | bb[8], bb[9], j);
    lemma_bit_ops(bb[6] | bb[7] | bb[8] | bb[9], bb[10], j);
    lemma_bit_ops(bb[6] | bb[7] | bb[8] | bb[9] | bb[10], bb[11], j);
}

/// Looking for a piece on boards that hold the same squares `d` places further on finds the
/// piece `d` places further on.
proof fn lemma_first_piece_shift(bb: Seq<u64>, j: u64, cc: Seq<u64>, m: u64, start: int, end: int, d: int)
    requires
        0 <= start <= end <= 12,
        0 <= start + d,
        end + d <= 12,
        forall|k: int| start <= k < end ==> #[trigger] bit(bb[k], j) == bit(cc[k + d], m),
    ensures
        first_piece_on(bb, j, start, end) == Piece::Empty ==> first_piece_on(cc, m, start + d, end + d) == Piece::Empty,
        first_piece_on(bb, j, start, end) != Piece::Empty ==>
            first_piece_on(cc, m, start + d, end + d)@ == first_piece_on(bb, j, start, end)@ + d,
        first_piece_on(bb, j, start, end) != Piece::Empty ==> start <= first_piece_on(bb, j, start, end)@ < end,
    decreases end - start,
{
    if start < end {
        lemma_first_piece_shift(bb, j, cc, m, start + 1, end, d);
        assert(bit(bb[start], j) == bit(cc[start + d], m));
    }
}

/// The material of a color is the material of the other color on the board with the colors
/// swapped and the ranks flipped, each counted with its board's own white occupancy, when no
/// square holds pieces of both colors.
pub proof fn law_material_color_symmetric(bb: Seq<u64>, cc: Seq<u64>)
    requires
        bb.len() == 12,
        cc.len() == 12,
        forall|k: int, j: u64| 0 <= k < 6 && j < 64 ==> #[trigger] bit(cc[k], j) == bit(bb[k + 6], crate::utils::flip_square(j)),
        forall|k: int, j: u64| 0 <= k < 6 && j < 64 ==> #[trigger] bit(cc[k + 6], j) == bit(bb[k], crate::utils::flip_square(j)),
        forall|j: u64| j < 64 ==> !(#[trigger] bit(white_occupancy(bb), j) && bit(black_occupancy(bb), j)),
    ensures
        material_upto(bb, white_occupancy(bb), 0, 64) == material_upto(cc, white_occupancy(cc), 1, 64),
{
    let wb = white_occupancy(bb);
    let wc = white_occupancy(cc);
    let f = |j: u64| material_term(bb, wb, 0, j);
    let g = |j: u64| material_term(cc, wc, 1, j);
    assert forall|j: u64| j < 64 implies #[trigger] f(j) == g(crate::utils::flip_square(j)) by {
        crate::utils::lemma_flip_square(j);
        let m = crate::utils::flip_square(j);
        lemma_side_occupancy_bits(bb, j);
        lemma_side_occupancy_bits(cc, m);
        assert forall|k: int| 0 <= k < 6 implies #[trigger] bit(bb[k], j) == bit(cc[k + 6], m) by {
            assert(bit(cc[k + 6], m) == bit(bb[k], crate::utils::flip_square(m)));
        }
        assert forall|k: int| 6 <= k < 12 implies #[trigger] bit(bb[k], j) == bit(cc[k - 6], m) by {
            assert(bit(cc[k - 6], m) == bit(bb[k - 6 + 6], crate::utils::flip_square(m)));
        }
        assert(bit(cc[0], m) == bit(bb[6], j));
        assert(bit(cc[1], m) == bit(bb[7], j));
        assert(bit(cc[2], m) == bit(bb[8], j));
        assert(bit(cc[3], m) == bit(bb[9], j));
        assert(bit(cc[4], m) == bit(bb[10], j));
        assert(bit(cc[5], m) == bit(bb[11], j));
        assert(bit(wc, m) == bit(black_occupancy(bb), j));
        lemma_first_piece_shift(bb, j, cc, m, 0, 6, 6);
        lemma_first_piece_shift(bb, j, cc, m, 6, 12, -6);
        assert(!(bit(white_occupancy(bb), j) && bit(black_occupancy(bb), j)));
        let p = piece_on(bb, wb, j);
        if bit(wb, j) {
            assert(!bit(wc, m));
            if p != Piece::Empty {
                law_piece_value_color_symmetric(p@ as int, j);
            }
        } else {
            if !bit(wc, m) {
                assert(first_piece_on(bb, j, 0, 6) == Piece::Empty) by {
                    if first_piece_on(bb, j, 0, 6) != Piece::Empty {
                        lemma_first_piece_found(bb, j, 0, 6);
                    }
                }
            }
        }
    }
    crate::utils::lemma_square_sum_flip(f, g);
    lemma_material_upto_sum(bb, wb, 0, 64);
    lemma_material_upto_sum(cc, wc, 1, 64);
}

/// A piece found among the boards `start..end` stands on one of them.
proof fn lemma_first_piece_found(bb: Seq<u64>, sq: u64, start: int, end: int)
    requires
        0 <= start <= end <= 12,
        first_piece_on(bb, sq, start, end) != Piece::Empty,
    ensures
        exists|k: int| start <= k < end && #[trigger] bit(bb[k], sq),
    decreases end - start,
{
    if start < end && !bit(bb[start], sq) {
        lemma_first_piece_found(bb, sq, start + 1, end);
        let k = choose|k: int| start + 1 <= k < end && #[trigger] bit(bb[k], sq);
        assert(bit(bb[k], sq));
    }
}

/// every piece found on a square (as `piece_on` finds it with the occupancy `white`).
pub open spec fn material_upto(bb: Seq<u64>, white: u64, color: int, n: nat) -> int
    decreases n,
{
    if n == 0 {
        0
    } else {
        let p = piece_on(bb, white, (n - 1) as u64);
        material_upto(bb, white, color, (n - 1) as nat) + if p != Piece::Empty && ((p@ >= 6)
            == (color == 1)) {
            piece_square_value(p@ as int, n - 1)
        } else {
            0
        }
    }
}

proof fn lemma_material_upto_bounds(bb: Seq<u64>, white: u64, color: int, n: nat)
    requires
        n <= 64,
    ensures
        0 <= material_upto(bb, white, color, n) <= 12090 * n,
    decreases n,
{
    if n > 0 {
        lemma_material_upto_bounds(bb, white, color, (n - 1) as nat);
        let p = piece_on(bb, white, (n - 1) as u64);
        if p != Piece::Empty {
            lemma_piece_square_value_bounds(p@ as int, n - 1);
        }
    }
}

proof fn lemma_piece_square_value_bounds(piece: int, sq: int)
    requires
        0 <= piece < 12,
        0 <= sq < 64,
    ensures
        67 <= piece_square_value(piece, sq) <= 12090,
{
    assert(forall|i: int| 0 <= i < 64 ==> -15 <= #[trigger] crate::pst::PAWN_POSITIONAL_SCORE[i] <= 90);
    assert(forall|i: int| 0 <= i < 64 ==> -15 <= #[trigger] crate::pst::KNIGHT_POSITIONAL_SCORE[i] <= 90);
    assert(forall|i: int| 0 <= i < 64 ==> -15 <= #[trigger] crate::pst::BISHOP_POSITIONAL_SCORE[i] <= 90);
    assert(forall|i: int| 0 <= i < 64 ==> -15 <= #[trigger] crate::pst::ROOK_POSITIONAL_SCORE[i] <= 90);
    assert(forall|i: int| 0 <= i < 64 ==> -15 <= #[trigger] crate::pst::KING_POSITIONAL_SCORE[i] <= 90);
    assert(forall|i: int| 0 <= i < 12 ==> 82 <= #[trigger] OPENING_PIECE_SCORES[i] <= 12000);
    assert(0 <= pst_square(piece, sq) < 64);
}

proof fn lemma_game_phase_bounds(bb: [u64; 12])
    ensures
        0 <= game_phase_score(bb) <= 141056,
{
    crate::utils::lemma_popcount_below_bound(bb[8] | bb[2], 64);
    crate::utils::lemma_popcount_below_bound(bb[7] | bb[1], 64);
    crate::utils::lemma_popcount_below_bound(bb[9] | bb[3], 64);
    crate::utils::lemma_popcount_below_bound(bb[4] | bb[10], 64);
}

/// The largest magnitude of material a position can hold before reading a new FEN string.
pub const MATERIAL_LIMIT: i32 = 2000000000;

impl Position {
    /// The pieces, side to move, castling rights, en passant square and clocks are those the
    /// FEN string describes.
    pub open spec fn holds_fen(&self, fen: Seq<u8>) -> bool {
        let f = split_spaces(fen);
        &&& self.bitboards@ == placement(f[0], f[0].len()).boards
        &&& self.turn == (if f[1][0] == 119u8 { Color::White } else { Color::Black })
        &&& self.castling@ == crate::board::fen::castling_parse(f[2], f[2].len()).rights
        &&& self.enpassant == (if f[3] == seq![45u8] { None } else { Some(
            crate::chess::square::square_of_name(f[3]) as u8,
        ) })
        &&& self.halfmove_clock == crate::board::fen::digits_value(
            crate::board::fen::number_digits(f[4]),
        )
        &&& self.fullmove_number == crate::board::fen::digits_value(
            crate::board::fen::number_digits(f[5]),
        )
    }

    /// A new position: the empty board with white to move and every castling right, or the
    /// position of the given FEN string. The Zobrist keys are drawn, the hash computed, and
    /// the history and move-list stacks are empty at depth 0.
    pub fn new(fen: Option<&str>) -> (pos: Position)
        requires
            fen matches Some(f) ==> fen_valid(f.spec_bytes()),
        ensures
            pos.wf(),
            pos.keys_initialized(),
            pos.hash == pos.zobrist_hash(),
            pos.depth == 0,
            pos.rand_seed == rand_state(ZOBRIST_SEED, 849),
            pos.opponent_attack_map == 0,
            forall|k: int| 0 <= k < pos.position_stack@.len() ==> #[trigger] pos.position_stack@[k].fullmove_number == 1,
            fen is None ==> {
                &&& forall|i: int| 0 <= i < 12 ==> pos.bitboards[i] == 0
                &&& pos.turn == Color::White
                &&& pos.enpassant is None
                &&& pos.castling@ == 0b1111u8
                &&& pos.halfmove_clock == 0
                &&& pos.fullmove_number == 1
                &&& pos.material[0] == 0 && pos.material[1] == 0
            },
            fen matches Some(f) ==> {
                &&& pos.holds_fen(f.spec_bytes())
                &&& pos.material[0] == material_upto(pos.bitboards@, 0, 0, 64)
                &&& pos.material[1] == material_upto(pos.bitboards@, 0, 1, 64)
            },
    {
        let mut move_list_stack: Vec<Vec<BitPackedMove>> = Vec::new();
        let mut k: usize = 0;
        while k < STACK_SIZE
            invariant
                k <= STACK_SIZE,
                move_list_stack@.len() == k,
            decreases STACK_SIZE - k,
        {
            move_list_stack.push(Vec::new());
            k = k + 1;
        }
        let mut pos = Position {
            bitboards: [0; 12],
            turn: Color::White,
            enpassant: None,
            castling: CastlingRights::new(),
            halfmove_clock: 0,
            fullmove_number: 1,
            rand_seed: ZOBRIST_SEED,
            position_stack: vec![HistoryEntry::default(); STACK_SIZE],
            occupancies: [0; 3],
            zobrist_piece_keys: [[0; 64]; 12],
            zobrist_castling_keys: [0; 16],
            zobrist_enpassant_keys: [0; 64],
            zobrist_turn_key: 0,
            hash: 0,
            material: [0, 0],
            opponent_attack_map: 0,
            move_list_stack,
            depth: 0,
        };
        pos.init_zorbrist_keys();
        pos.update_occupancies();
        pos.update_hash();
        match fen {
            Some(p) => {
                proof {
                    assert(pos.occupancies[0] == 0) by {
                        assert((0u64 | 0u64 | 0u64 | 0u64 | 0u64 | 0u64) == 0u64) by (bit_vector);
                    }
                }
                pos.set_fen(p);
            },
            None => {},
        }
        pos
    }

    /// Sets the board to the given FEN string.
    ///
    /// The material of each side grows by the value of its pieces found on the new board; a
    /// piece is found when its color agrees with the occupancy the position held before.
    pub fn set_fen(&mut self, fen: &str)
        requires
            fen_valid(fen.spec_bytes()),
            old(self).position_stack@.len() >= STACK_SIZE,
            old(self).move_list_stack@.len() == STACK_SIZE,
            -MATERIAL_LIMIT <= old(self).material[0] <= MATERIAL_LIMIT,
            -MATERIAL_LIMIT <= old(self).material[1] <= MATERIAL_LIMIT,
        ensures
            final(self).wf(),
            final(self).holds_fen(fen.spec_bytes()),
            final(self).hash == final(self).zobrist_hash(),
            final(self).material[0] == old(self).material[0] + material_upto(final(self).bitboards@, old(self).occupancies[0], 0, 64),
            final(self).material[1] == old(self).material[1] + material_upto(final(self).bitboards@, old(self).occupancies[0], 1, 64),
            final(self).position_stack == old(self).position_stack,
            final(self).move_list_stack == old(self).move_list_stack,
            final(self).depth == old(self).depth,
            final(self).rand_seed == old(self).rand_seed,
            final(self).zobrist_piece_keys == old(self).zobrist_piece_keys,
            final(self).zobrist_castling_keys == old(self).zobrist_castling_keys,
            final(self).zobrist_enpassant_keys == old(self).zobrist_enpassant_keys,
            final(self).zobrist_turn_key == old(self).zobrist_turn_key,
            final(self).opponent_attack_map == old(self).opponent_attack_map,
    {
        let fields = match parse_fen(fen.as_bytes()) {
            Some(f) => f,
            None => {
                return;
            },
        };
        self.bitboards = fields.bitboards;

        let phase = self.get_game_phase_score();
        proof {
            lemma_game_phase_bounds(self.bitboards);
        }
        let ghost white = self.occupancies[0];
        let ghost m0 = self.material[0];
        let ghost m1 = self.material[1];
        let mut material = self.material;
        let mut i: u8 = 0;
        while i < 64
            invariant
                i <= 64,
                white == self.occupancies[0],
                phase == game_phase_score(self.bitboards),
                0 <= phase <= 141056,
                material[0] == m0 + material_upto(self.bitboards@, white, 0, i as nat),
                material[1] == m1 + material_upto(self.bitboards@, white, 1, i as nat),
                -MATERIAL_LIMIT <= m0 <= MATERIAL_LIMIT,
                -MATERIAL_LIMIT <= m1 <= MATERIAL_LIMIT,
            decreases 64 - i,
        {
            proof {
                lemma_material_upto_bounds(self.bitboards@, white, 0, (i + 1) as nat);
                lemma_material_upto_bounds(self.bitboards@, white, 1, (i + 1) as nat);
            }
            let piece = self.get_piece_at_square(i);
            if piece != Piece::Empty {
                let v = _get_piece_value_bl(piece.to_index(), i as usize, phase);
                if piece.to_index() >= 6 {
                    material[1] = material[1] + v;
                } else {
                    material[0] = material[0] + v;
                }
            }
            i = i + 1;
        }
        self.material = material;

        self.turn = fields.turn;
        let mut castling = CastlingRights::new_empty();
        castling.add_right(fields.castling);
        proof {
            assert((0u8 | fields.castling) == fields.castling) by (bit_vector);
            lemma_castling_parse_small(split_spaces(fen.spec_bytes())[2], split_spaces(fen.spec_bytes())[2].len());
        }
        self.castling = castling;
        self.enpassant = fields.enpassant;
        self.halfmove_clock = fields.halfmove_clock;
        self.fullmove_number = fields.fullmove_number;
        proof {
            crate::board::fen::lemma_split_nonempty(fen.spec_bytes());
        }

        self.update_occupancies();
        self.update_hash();
    }
}

/// The castling rights read from a FEN string fit in four bits.
proof fn lemma_castling_parse_small(sec: Seq<u8>, n: nat)
    requires
        n <= sec.len(),
    ensures
        crate::board::fen::castling_parse(sec, n).rights < 16,
    decreases n,
{
    if n > 0 {
        lemma_castling_parse_small(sec, (n - 1) as nat);
        let r = crate::board::fen::castling_parse(sec, (n - 1) as nat).rights;
        assert(r < 16 ==> (r | 1u8) < 16 && (r | 2u8) < 16 && (r | 4u8) < 16 && (r | 8u8) < 16) by (bit_vector);
    }
}

} // verus!
