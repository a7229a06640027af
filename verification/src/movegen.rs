pub mod pseudo;

use vstd::prelude::*;

verus! {

use crate::board::{Position, white_occupancy, black_occupancy, piece_on};
use crate::board::attacks::{
    pawn_attacks, knight_attacks, king_attacks, bishop_attacks, rook_attacks, mask_pawn_attacks,
    mask_knight_attacks, mask_king_attacks, union_over, lemma_union_pop, lemma_union_zero,
    lemma_or_facts,
};
use crate::board::constants::{between, squares_between};
use crate::board::query::attackers;
use crate::movegen::pseudo::{extends_with, is_plain_move, has_plain_move, capture_at, lemma_has_plain_push, is_piece_move, is_pawn_move, kind_reach, pseudo_targets, is_promotion_of, grows, piece_move_for, has_move, move_is, lemma_has_move_grow, step, promotes_from, on_start_rank, pawn_ep_complete, distinct_after};
use crate::chess::color::{Color, opposite};
use crate::chess::piece::Piece;
use crate::chess::square::Square;
use crate::chess::constants::{FULL_BOARD, RANK_8, RANK_1};
use crate::utils::{bit, get_lsb, get_bit, pop_lsb, count_bits, popcount, lemma_bit_ops, lemma_bit_single};
use crate::chess::_move::{BitPackedMove, lemma_move_eq_by_fields};
use crate::board::make::{enpassant_exposes_king, move_playable, ep_victim_square, moves_pawn, make_move_post, unmake_move_post, same_board_state, same_keys_and_lists, law_unmake_undoes_make, moved_bitboards, moved_enpassant, moved_castling};
use crate::board::STACK_SIZE;
use crate::board::constants::{WHITE_KING_SIDE_CASTLE, WHITE_QUEEN_SIDE_CASTLE, BLACK_KING_SIDE_CASTLE, BLACK_QUEEN_SIDE_CASTLE};
use crate::chess::castling_rights::{WHITE_KINGSIDE, WHITE_QUEENSIDE, BLACK_KINGSIDE, BLACK_QUEENSIDE, castling_of, lemma_castling_of};

/// The union of the attacks of the opponent's pieces of one kind standing on the squares of
/// `x`, each attack computed by `f`.
pub open spec fn kind_attacks(x: u64, f: spec_fn(u64) -> u64) -> u64 {
    union_over(x, f, 64)
}

/// The attack function of the pieces of kind `kind` (pawn 0 .. king 5) of `color`.
pub open spec fn attack_fn(kind: int, color: Color, occ: u64) -> spec_fn(u64) -> u64 {
    if kind == 0 {
        |s: u64| pawn_attacks(color, s)
    } else if kind == 1 {
        |s: u64| knight_attacks(s)
    } else if kind == 2 {
        |s: u64| bishop_attacks(s as int, occ)
    } else if kind == 3 {
        |s: u64| rook_attacks(s as int, occ)
    } else if kind == 4 {
        |s: u64| bishop_attacks(s as int, occ) | rook_attacks(s as int, occ)
    } else {
        |s: u64| king_attacks(s)
    }
}

/// The squares attacked by the opponent's pieces of kind `kind`.
pub open spec fn opponent_kind_attacks(pos: Position, kind: int, occ: u64) -> u64 {
    let c = opposite(pos.turn);
    kind_attacks(pos.bitboards@[kind + 6 * c@ as int], attack_fn(kind, c, occ))
}

/// The squares attacked by the opponent's pieces (its king included) when the king of the side
/// to move is lifted from `king_square`.
pub open spec fn attacked_without_king(pos: Position, king_square: int) -> u64 {
    let occ = (white_occupancy(pos.bitboards@) | black_occupancy(pos.bitboards@)) ^ (1u64 << (king_square as u64));
    opponent_kind_attacks(pos, 2, occ) | opponent_kind_attacks(pos, 3, occ) | opponent_kind_attacks(pos, 4, occ)
        | opponent_kind_attacks(pos, 1, occ) | opponent_kind_attacks(pos, 0, occ) | opponent_kind_attacks(pos, 5, occ)
}

/// The pawns, knights, bishops, rooks and queens of `color` attacking `sq` (kings are not
/// counted), with the occupancy computed from the piece bitboards.
pub open spec fn square_attackers(pos: Position, sq: u64, color: Color) -> u64 {
    let bb = pos.bitboards@;
    let o = 6 * color@ as int;
    let occ = white_occupancy(bb) | black_occupancy(bb);
    (pawn_attacks(opposite(color), sq) & bb[o]) | (knight_attacks(sq) & bb[o + 1]) | (bishop_attacks(sq as int, occ) & (bb[o + 2] | bb[o + 4])) | (rook_attacks(sq as int, occ) & (bb[o + 3] | bb[o + 4]))
}

impl Position {
    /// The union of the attack sets of the opponent's pieces of one kind.
    fn get_kind_attacks(&self, kind: usize, occupancy: u64) -> (r: u64)
        requires
            kind <= 5,
        ensures
            r == opponent_kind_attacks(*self, kind as int, occupancy),
    {
        let c = self.turn.opponent();
        let mut pieces = self.bitboards[kind + 6 * c.to_index()];
        let ghost f = attack_fn(kind as int, c, occupancy);
        let ghost total = kind_attacks(pieces, f);
        let mut attacks: u64 = 0;
        proof {
            lemma_or_facts(total, 0, 0);
        }
        while pieces != 0
            invariant
                kind <= 5,
                c == opposite(self.turn),
                f == attack_fn(kind as int, c, occupancy),
                attacks | union_over(pieces, f, 64) == total,
            decreases pieces,
        {
            let ghost old_pieces = pieces;
            let ghost old_attacks = attacks;
            let i = pop_lsb(&mut pieces);
            let a = if kind == 0 {
                mask_pawn_attacks(i, c)
            } else if kind == 1 {
                mask_knight_attacks(i)
            } else if kind == 2 {
                self.get_bishop_magic_attacks(i, occupancy)
            } else if kind == 3 {
                self.get_rook_magic_attacks(i, occupancy)
            } else if kind == 4 {
                self.get_queen_magic_attacks(i, occupancy)
            } else {
                mask_king_attacks(i)
            };
            proof {
                assert(a == f(i as u64));
                lemma_union_pop(old_pieces, f, i as u64, 64);
                lemma_or_facts(old_attacks, a, union_over(pieces, f, 64));
            }
            attacks = attacks | a;
        }
        proof {
            lemma_union_zero(f, 64);
            lemma_or_facts(attacks, 0, 0);
        }
        attacks
    }

    /// The squares attacked by the opponent's pawns.
    pub fn get_pawn_attacks(&self) -> (r: u64)
        ensures
            r == opponent_kind_attacks(*self, 0, 0),
    {
        self.get_kind_attacks(0, 0)
    }

    /// The squares attacked by the opponent's knights.
    pub fn get_knight_attacks(&self) -> (r: u64)
        ensures
            r == opponent_kind_attacks(*self, 1, 0),
    {
        self.get_kind_attacks(1, 0)
    }

    /// The squares attacked by the opponent's bishops given the occupancy.
    pub fn get_bishop_attacks(&self, occupancy: u64) -> (r: u64)
        ensures
            r == opponent_kind_attacks(*self, 2, occupancy),
    {
        self.get_kind_attacks(2, occupancy)
    }

    /// The squares attacked by the opponent's rooks given the occupancy.
    pub fn get_rook_attacks(&self, occupancy: u64) -> (r: u64)
        ensures
            r == opponent_kind_attacks(*self, 3, occupancy),
    {
        self.get_kind_attacks(3, occupancy)
    }

    /// The squares attacked by the opponent's queens given the occupancy.
    pub fn get_queen_attacks(&self, occupancy: u64) -> (r: u64)
        ensures
            r == opponent_kind_attacks(*self, 4, occupancy),
    {
        self.get_kind_attacks(4, occupancy)
    }

    /// The squares the opponent attacks (kings aside) once the king is lifted from its square,
    /// so that the king cannot step along the line of a slider checking it.
    pub fn get_attacked_squares_without_king(&self, king_square: Square) -> (r: u64)
        requires
            king_square < 64,
        ensures
            r == attacked_without_king(*self, king_square as int),
    {
        let occupancy_wo_king = self.get_both_occupancy() ^ (1u64 << king_square);
        self.get_bishop_attacks(occupancy_wo_king) | self.get_rook_attacks(occupancy_wo_king)
            | self.get_queen_attacks(occupancy_wo_king) | self.get_knight_attacks()
            | self.get_pawn_attacks() | self.get_kind_attacks(5, 0)
    }

    /// The pieces of `color` (kings aside) attacking `square`.
    pub fn get_square_attackers(&self, square: Square, color: Color) -> (r: u64)
        requires
            square < 64,
        ensures
            r == square_attackers(*self, square as u64, color),
    {
        let o = 6 * color.to_index();
        let mut attackers: u64 = 0;
        attackers = attackers | (mask_pawn_attacks(square, color.opponent()) & self.bitboards[o]);
        attackers = attackers | (mask_knight_attacks(square) & self.bitboards[o + 1]);
        attackers = attackers | (self.get_bishop_magic_attacks(square, self.get_both_occupancy())
            & (self.bitboards[o + 2] | self.bitboards[o + 4]));
        attackers = attackers | (self.get_rook_magic_attacks(square, self.get_both_occupancy())
            & (self.bitboards[o + 3] | self.bitboards[o + 4]));
        proof {
            lemma_or_facts(pawn_attacks(opposite(color), square as u64) & self.bitboards@[o as int], 0, 0);
        }
        attackers
    }

    /// The squares strictly between two squares that share a line.
    pub fn get_between_squares(&self, source: Square, target: Square) -> (r: u64)
        requires
            source < 64,
            target < 64,
        ensures
            r == between(source as int, target as int),
    {
        squares_between(source as usize, target as usize)
    }

    /// From the checkers of the king: whether the king is in check, whether in double check,
    /// the squares a piece may capture on and the squares a piece may move to in order to
    /// answer the check.
    pub fn compute_check_masks(&self, king_square: Square, checkers: u64) -> (r: (bool, bool, u64, u64))
        requires
            king_square < 64,
            self.occupancies_consistent(),
        ensures
            r == check_masks(*self, king_square as int, checkers),
    {
        let n = count_bits(checkers);
        if n == 1 {
            let checker_square = get_lsb(checkers);
            proof {
                if checkers == 0 {
                    crate::utils::lemma_popcount_zero();
                }
            }
            let push_mask = if self.get_piece_at_square(checker_square).is_slider() {
                self.get_between_squares(king_square, checker_square)
            } else {
                0
            };
            (true, false, checkers, push_mask)
        } else if n > 1 {
            (true, true, FULL_BOARD, FULL_BOARD)
        } else {
            (false, false, FULL_BOARD, FULL_BOARD)
        }
    }
}

/// The check masks: with one checker, the capture mask is the checker and the push mask the
/// squares between the king and a sliding checker; with two or more, both masks are full and
/// the king is in double check; with none, both masks are full.
pub open spec fn check_masks(pos: Position, king_square: int, checkers: u64) -> (bool, bool, u64, u64) {
    let n = popcount(checkers);
    if n == 1 {
        let cs = vstd::std_specs::bits::u64_trailing_zeros(checkers) as int;
        let slider = piece_on(pos.bitboards@, pos.occupancies[0], cs as u64);
        let push = if slider@ == 2 || slider@ == 3 || slider@ == 4 || slider@ == 8 || slider@ == 9 || slider@ == 10 {
            between(king_square, cs)
        } else {
            0
        };
        (true, false, checkers, push)
    } else if n > 1 {
        (true, true, FULL_BOARD, FULL_BOARD)
    } else {
        (false, false, FULL_BOARD, FULL_BOARD)
    }
}

// ------------------------------------------------------------------ generated moves

/// What every generated move satisfies: `make_move` accepts it; it moves a piece of the side
/// to move, from a square that piece stands on (castling aside); and, en passant aside, it
/// either captures the opponent's piece on its target square, recording that piece, or goes
/// to an empty square.
pub open spec fn generated_move_ok(pos: Position, m: BitPackedMove) -> bool {
    let opp = 1 - pos.turn@ as int;
    &&& move_playable(pos, m)
    &&& m.piece_idx() / 6 == pos.turn@
    &&& (!m.castle_flag() ==> bit(pos.bitboards@[m.piece_idx() as int], m.from_sq() as u64))
    &&& (!m.enpassant_flag() ==> (if m.capture_idx() != 12 {
        bit(pos.occupancies[opp], m.to_sq() as u64) && m.capture_idx() == piece_on(pos.bitboards@, pos.occupancies[0], m.to_sq() as u64)@
    } else {
        !bit(pos.occupancies[2], m.to_sq() as u64)
    }))
}

/// The castling of `side` (0 white kingside, 1 white queenside, 2 black kingside, 3 black
/// queenside) as the king's squares and the rook's corner.
pub open spec fn castle_squares(side: int) -> (u64, u64, u64, u64, u64) {
    // (king from, king to, square crossed, third square checked, rook corner)
    if side == 0 {
        (60, 62, 61, 62, 63)
    } else if side == 1 {
        (60, 58, 59, 58, 56)
    } else if side == 2 {
        (4, 6, 5, 6, 7)
    } else {
        (4, 2, 3, 2, 0)
    }
}

/// The squares that must be empty for the castling of `side`.
pub open spec fn castle_path(side: int) -> u64 {
    if side == 0 {
        WHITE_KING_SIDE_CASTLE
    } else if side == 1 {
        WHITE_QUEEN_SIDE_CASTLE
    } else if side == 2 {
        BLACK_KING_SIDE_CASTLE
    } else {
        BLACK_QUEEN_SIDE_CASTLE
    }
}

/// The castling right of `side`.
pub open spec fn castle_right(side: int) -> u8 {
    if side == 0 {
        WHITE_KINGSIDE
    } else if side == 1 {
        WHITE_QUEENSIDE
    } else if side == 2 {
        BLACK_KINGSIDE
    } else {
        BLACK_QUEENSIDE
    }
}

/// A castling path that holds no piece leaves the king's target square empty.
proof fn lemma_castle_target_empty(o: u64)
    by (bit_vector)
    ensures
        o & 0x6000000000000000u64 == 0 ==> !((o >> 62u64) & 1u64 == 1u64),
        o & 0x0E00000000000000u64 == 0 ==> !((o >> 58u64) & 1u64 == 1u64),
        o & 0x60u64 == 0 ==> !((o >> 6u64) & 1u64 == 1u64),
        o & 0x0Eu64 == 0 ==> !((o >> 2u64) & 1u64 == 1u64),
{
}

/// Whether the side to move may castle on `side`: it is that side's color, the path between
/// king and rook is empty, the right is held, the king's square and the two squares next to it
/// on its way are not attacked, and the rook stands in its corner.
pub open spec fn castle_allowed(pos: Position, side: int) -> bool {
    let (from, to, crossed, _third, corner) = castle_squares(side);
    let opp = opposite(pos.turn);
    let rook = if side < 2 { 3int } else { 9int };
    &&& pos.turn@ == side / 2
    &&& pos.occupancies[2] & castle_path(side) == 0
    &&& pos.castling@ & castle_right(side) != 0
    &&& attackers(pos.bitboards@, from, opp, pos.occupancies[2]) == 0
    &&& attackers(pos.bitboards@, crossed, opp, pos.occupancies[2]) == 0
    &&& attackers(pos.bitboards@, to, opp, pos.occupancies[2]) == 0
    &&& bit(pos.bitboards@[rook], corner)
}

/// Whether `m` is the castling move of `side`: the king goes two squares toward the rook with
/// the castle flag set, taking nothing.
pub open spec fn is_castle_move(m: BitPackedMove, side: int) -> bool {
    let (from, to, _crossed, _third, _corner) = castle_squares(side);
    &&& m.from_sq() == from
    &&& m.to_sq() == to
    &&& m.piece_idx() == if side < 2 { 5u32 } else { 11u32 }
    &&& m.capture_idx() == 12
    &&& m.promotion_idx() == 12
    &&& m.castle_flag()
    &&& !m.enpassant_flag()
}

/// Whether `m` is one of the castling moves the side to move may make.
pub open spec fn is_allowed_castle(pos: Position, m: BitPackedMove) -> bool {
    exists|side: int| 0 <= side < 4 && castle_allowed(pos, side) && #[trigger] is_castle_move(m, side)
}

/// Whether the list holds the castling move of `side`.
pub open spec fn has_castle(v: Seq<BitPackedMove>, side: int) -> bool {
    exists|i: int| 0 <= i < v.len() && #[trigger] is_castle_move(v[i], side)
}

/// Every move of the list is a generated move of the position.
pub open spec fn moves_ok(pos: Position, v: Seq<BitPackedMove>) -> bool {
    forall|i: int| 0 <= i < v.len() ==> generated_move_ok(pos, #[trigger] v[i])
}

/// The squares of the opponent's pieces.
pub open spec fn enemy_occ(pos: Position) -> u64 {
    pos.occupancies[1 - pos.turn@ as int]
}

/// The squares of the side to move's pieces.
pub open spec fn friendly_occ(pos: Position) -> u64 {
    pos.occupancies[pos.turn@ as int]
}

/// A square outside both sides' pieces is empty.
proof fn lemma_outside_both_empty(pos: Position, j: u64)
    requires
        pos.occupancies_consistent(),
        j < 64,
        !bit(friendly_occ(pos), j),
        !bit(enemy_occ(pos), j),
    ensures
        !bit(pos.occupancies[2], j),
{
    lemma_bit_ops(pos.occupancies[0], pos.occupancies[1], j);
}

/// Whether `m` moves `piece` from `source` onto a square of `targets`, recording the piece
/// standing there (the empty piece on an empty square).
pub open spec fn is_target_move(pos: Position, targets: u64, piece: u32, source: u64, m: BitPackedMove) -> bool {
    &&& m.to_sq() < 64
    &&& bit(targets, m.to_sq() as u64)
    &&& is_plain_move(m, source, m.to_sq() as u64, piece, capture_at(pos, m.to_sq() as u64))
}

/// `v` is `old` followed by one move of `piece` from `source` onto each square of `targets`,
/// in increasing order of target square.
pub open spec fn appends_targets(pos: Position, old: Seq<BitPackedMove>, v: Seq<BitPackedMove>, targets: u64, piece: u32, source: u64) -> bool {
    &&& extends_with(old, v, |m: BitPackedMove| is_target_move(pos, targets, piece, source, m))
    &&& forall|t: u64| t < 64 && bit(targets, t)
        ==> #[trigger] has_plain_move(v.subrange(old.len() as int, v.len() as int), source, t, piece, capture_at(pos, t))
    &&& forall|i: int, j: int| old.len() <= i < j < v.len() ==> v[i].to_sq() < v[j].to_sq()
}

/// Appending one move to a list keeps the moves of the part after `o` and adds it there.
proof fn lemma_tail_push(v: Seq<BitPackedMove>, m: BitPackedMove, o: int, from: u64, to: u64, piece: u32, capture: u32)
    requires
        0 <= o <= v.len(),
        has_plain_move(v.subrange(o, v.len() as int), from, to, piece, capture) || is_plain_move(m, from, to, piece, capture),
    ensures
        has_plain_move(v.push(m).subrange(o, v.len() + 1int), from, to, piece, capture),
{
    let w = v.push(m).subrange(o, v.len() + 1int);
    assert(w =~= v.subrange(o, v.len() as int).push(m));
    if has_plain_move(v.subrange(o, v.len() as int), from, to, piece, capture) {
        lemma_has_plain_push(v.subrange(o, v.len() as int), m, from, to, piece, capture);
    } else {
        assert(w[w.len() - 1] == m);
    }
}

impl Position {
    /// Appends a capture of `piece` from `source` to every square of `targets`, lowest target
    /// first, recording the piece standing there.
    pub fn append_bb_movelist_captures(&self, moves: &mut Vec<BitPackedMove>, source_move_list: u64, piece: Piece, source: Square)
        requires
            self.wf(),
            source < 64,
            piece@ < 12,
            piece@ / 6 == self.turn@,
            bit(self.bitboards@[piece@ as int], source as u64),
            forall|j: u64| j < 64 && #[trigger] bit(source_move_list, j) ==> bit(enemy_occ(*self), j),
            moves_ok(*self, old(moves)@),
        ensures
            moves_ok(*self, final(moves)@),
            appends_targets(*self, old(moves)@, final(moves)@, source_move_list, piece@ as u32, source as u64),
    {
        let ghost o = moves@.len() as int;
        let ghost old_moves = moves@;
        let ghost p = |m: BitPackedMove| is_target_move(*self, source_move_list, piece@ as u32, source as u64, m);
        let mut move_list = source_move_list;
        let mut m = BitPackedMove::new(source, 56, piece);
        while move_list != 0
            invariant
                self.wf(),
                source < 64,
                piece@ < 12,
                piece@ / 6 == self.turn@,
                bit(self.bitboards@[piece@ as int], source as u64),
                forall|j: u64| j < 64 && #[trigger] bit(source_move_list, j) ==> bit(enemy_occ(*self), j),
                forall|j: u64| j < 64 && #[trigger] bit(move_list, j) ==> bit(source_move_list, j),
                moves_ok(*self, moves@),
                o == old_moves.len(),
                p == (|m: BitPackedMove| is_target_move(*self, source_move_list, piece@ as u32, source as u64, m)),
                extends_with(old_moves, moves@, p),
                forall|t: u64| t < 64 && bit(source_move_list, t) && !bit(move_list, t)
                    ==> #[trigger] has_plain_move(moves@.subrange(o, moves@.len() as int), source as u64, t, piece@ as u32, capture_at(*self, t)),
                forall|i: int, j: int| o <= i < j < moves@.len() ==> moves@[i].to_sq() < moves@[j].to_sq(),
                forall|i: int, j: u64| o <= i < moves@.len() && j < 64 && bit(move_list, j) ==> moves@[i].to_sq() < j,
                m.from_sq() == source,
                m.piece_idx() == piece@,
                m.capture_idx() == 12,
                m.promotion_idx() == 12,
                !m.castle_flag(),
                !m.enpassant_flag(),
            decreases move_list,
        {
            let ghost old_list = move_list;
            let ghost before = moves@;
            let target = pop_lsb(&mut move_list);
            proof {
                assert forall|j: u64| j < 64 implies #[trigger] bit(move_list, j) == (bit(old_list, j) && j != target as u64) by {
                    lemma_mask_bits(old_list, 1u64 << target, j);
                    lemma_bit_single(j, target as u64);
                }
                assert(bit(old_list, target as u64));
            }
            m.set_to(target);
            let captured = self.get_piece_at_square(target);
            m.set_capture(captured);
            proof {
                lemma_bit_ops(self.occupancies[0], self.occupancies[1], target as u64);
                if captured == Piece::Empty {
                    lemma_occupied_has_piece(*self, target as u64);
                }
                assert(is_plain_move(m, source as u64, target as u64, piece@ as u32, capture_at(*self, target as u64)));
                assert(p(m));
            }
            moves.push(m);
            proof {
                assert forall|t: u64| t < 64 && bit(source_move_list, t) && !bit(move_list, t)
                    implies #[trigger] has_plain_move(moves@.subrange(o, moves@.len() as int), source as u64, t, piece@ as u32, capture_at(*self, t)) by {
                    lemma_tail_push(before, m, o, source as u64, t, piece@ as u32, capture_at(*self, t));
                }
                assert forall|i: int, j: u64| o <= i < moves@.len() && j < 64 && bit(move_list, j) implies moves@[i].to_sq() < j by {
                    if i < before.len() {
                        assert(bit(old_list, j));
                    } else {
                        assert(!(j < target) ==> j != target as u64 || !bit(move_list, j));
                    }
                }
            }
            m.set_capture(Piece::Empty);
        }
        proof {
            assert forall|t: u64| t < 64 && bit(source_move_list, t)
                implies #[trigger] has_plain_move(moves@.subrange(o, moves@.len() as int), source as u64, t, piece@ as u32, capture_at(*self, t)) by {
                lemma_bit_ops(0u64, 0u64, t);
            }
        }
    }

    /// Appends a quiet move of `piece` from `source` to every square of `targets`, lowest target
    /// first.
    pub fn append_bb_movelist(&self, moves: &mut Vec<BitPackedMove>, source_move_list: u64, piece: Piece, source: Square)
        requires
            self.wf(),
            source < 64,
            piece@ < 12,
            piece@ / 6 == self.turn@,
            bit(self.bitboards@[piece@ as int], source as u64),
            forall|j: u64| j < 64 && #[trigger] bit(source_move_list, j) ==> !bit(self.occupancies[2], j),
            moves_ok(*self, old(moves)@),
        ensures
            moves_ok(*self, final(moves)@),
            appends_targets(*self, old(moves)@, final(moves)@, source_move_list, piece@ as u32, source as u64),
    {
        let ghost o = moves@.len() as int;
        let ghost old_moves = moves@;
        let ghost p = |m: BitPackedMove| is_target_move(*self, source_move_list, piece@ as u32, source as u64, m);
        let mut move_list = source_move_list;
        let mut m = BitPackedMove::new(source, 56, piece);
        while move_list != 0
            invariant
                self.wf(),
                source < 64,
                piece@ < 12,
                piece@ / 6 == self.turn@,
                bit(self.bitboards@[piece@ as int], source as u64),
                forall|j: u64| j < 64 && #[trigger] bit(source_move_list, j) ==> !bit(self.occupancies[2], j),
                forall|j: u64| j < 64 && #[trigger] bit(move_list, j) ==> bit(source_move_list, j),
                moves_ok(*self, moves@),
                o == old_moves.len(),
                p == (|m: BitPackedMove| is_target_move(*self, source_move_list, piece@ as u32, source as u64, m)),
                extends_with(old_moves, moves@, p),
                forall|t: u64| t < 64 && bit(source_move_list, t) && !bit(move_list, t)
                    ==> #[trigger] has_plain_move(moves@.subrange(o, moves@.len() as int), source as u64, t, piece@ as u32, capture_at(*self, t)),
                forall|i: int, j: int| o <= i < j < moves@.len() ==> moves@[i].to_sq() < moves@[j].to_sq(),
                forall|i: int, j: u64| o <= i < moves@.len() && j < 64 && bit(move_list, j) ==> moves@[i].to_sq() < j,
                m.from_sq() == source,
                m.piece_idx() == piece@,
                m.capture_idx() == 12,
                m.promotion_idx() == 12,
                !m.castle_flag(),
                !m.enpassant_flag(),
            decreases move_list,
        {
            let ghost old_list = move_list;
            let ghost before = moves@;
            let target = pop_lsb(&mut move_list);
            proof {
                assert forall|j: u64| j < 64 implies #[trigger] bit(move_list, j) == (bit(old_list, j) && j != target as u64) by {
                    lemma_mask_bits(old_list, 1u64 << target, j);
                    lemma_bit_single(j, target as u64);
                }
                assert(bit(old_list, target as u64));
            }
            m.set_to(target);
            proof {
                assert(is_plain_move(m, source as u64, target as u64, piece@ as u32, capture_at(*self, target as u64)));
                assert(p(m));
            }
            moves.push(m);
            proof {
                assert forall|t: u64| t < 64 && bit(source_move_list, t) && !bit(move_list, t)
                    implies #[trigger] has_plain_move(moves@.subrange(o, moves@.len() as int), source as u64, t, piece@ as u32, capture_at(*self, t)) by {
                    lemma_tail_push(before, m, o, source as u64, t, piece@ as u32, capture_at(*self, t));
                }
                assert forall|i: int, j: u64| o <= i < moves@.len() && j < 64 && bit(move_list, j) implies moves@[i].to_sq() < j by {
                    if i < before.len() {
                        assert(bit(old_list, j));
                    } else {
                        assert(!(j < target) ==> j != target as u64 || !bit(move_list, j));
                    }
                }
            }
        }
        proof {
            assert forall|t: u64| t < 64 && bit(source_move_list, t)
                implies #[trigger] has_plain_move(moves@.subrange(o, moves@.len() as int), source as u64, t, piece@ as u32, capture_at(*self, t)) by {
                lemma_bit_ops(0u64, 0u64, t);
            }
        }
    }
}

/// A square held by the opponent's occupancy holds some piece.
pub proof fn lemma_occupied_has_piece(pos: Position, j: u64)
    requires
        pos.occupancies_consistent(),
        j < 64,
        bit(pos.occupancies[0], j) || bit(pos.occupancies[1], j),
    ensures
        piece_on(pos.bitboards@, pos.occupancies[0], j) != Piece::Empty,
{
    let bb = pos.bitboards@;
    lemma_bit_ops(bb[0] | bb[1] | bb[2] | bb[3] | bb[4], bb[5], j);
    lemma_bit_ops(bb[0] | bb[1] | bb[2] | bb[3], bb[4], j);
    lemma_bit_ops(bb[0] | bb[1] | bb[2], bb[3], j);
    lemma_bit_ops(bb[0] | bb[1], bb[2], j);
    lemma_bit_ops(bb[0], bb[1], j);
    lemma_bit_ops(bb[6] | bb[7] | bb[8] | bb[9] | bb[10], bb[11], j);
    lemma_bit_ops(bb[6] | bb[7] | bb[8] | bb[9], bb[10], j);
    lemma_bit_ops(bb[6] | bb[7] | bb[8], bb[9], j);
    lemma_bit_ops(bb[6] | bb[7], bb[8], j);
    lemma_bit_ops(bb[6], bb[7], j);
    reveal_with_fuel(crate::board::first_piece_on, 7);
}

/// A bit of `a & !f` is a bit of `a` outside `f`; a bit of `a & b` is a bit of both.
pub proof fn lemma_mask_bits(a: u64, b: u64, j: u64)
    requires
        j < 64,
    ensures
        bit(a & !b, j) == (bit(a, j) && !bit(b, j)),
        bit(a & b, j) == (bit(a, j) && bit(b, j)),
        bit(a | b, j) == (bit(a, j) || bit(b, j)),
{
    lemma_bit_ops(a, !b, j);
    lemma_bit_ops(b, b, j);
    lemma_bit_ops(a, b, j);
}

impl Position {
    /// Appends the castling moves the side to move may make: the squares between king and rook
    /// are empty, the right is held, the king's square and the squares it crosses are not
    /// attacked, and the rook stands in its corner.
    pub fn push_castle_moves(&self, moves: &mut Vec<BitPackedMove>)
        requires
            self.wf(),
        ensures
            moves_ok(*self, old(moves)@) ==> moves_ok(*self, final(moves)@),
            extends_with(old(moves)@, final(moves)@, |m: BitPackedMove| is_allowed_castle(*self, m)),
            forall|side: int| 0 <= side < 4 && castle_allowed(*self, side) ==> #[trigger] has_castle(final(moves)@, side),
            distinct_after(final(moves)@, old(moves)@.len() as int),
            forall|i: int| old(moves)@.len() <= i < final(moves)@.len() ==> (#[trigger] final(moves)@[i]).castle_flag()
                && final(moves)@[i].piece_idx() == 5 + 6 * self.turn@,
    {
        let ghost old_moves = moves@;
        if self.turn == Color::White {
            let is_king_side_empty = self.occupancies[2] & WHITE_KING_SIDE_CASTLE == 0;
            if is_king_side_empty && self.castling.can_castle(WHITE_KINGSIDE) {
                if !self.is_square_attacked(60, Color::Black) && !self.is_square_attacked(61, Color::Black)
                    && !self.is_square_attacked(62, Color::Black) && get_bit(self.bitboards[3], 63) != 0 {
                    let mut m = BitPackedMove::new(60, 62, Piece::WhiteKing);
                    m.set_castle();
                    proof {
                        let o = self.occupancies[2];
                        lemma_castle_target_empty(o);
                    }
                    moves.push(m);
                    proof {
                        assert(is_castle_move(m, 0));
                        assert(moves@[moves@.len() - 1] == m);
                    }
                }
            }
            let is_queen_side_empty = self.occupancies[2] & WHITE_QUEEN_SIDE_CASTLE == 0;
            if is_queen_side_empty && self.castling.can_castle(WHITE_QUEENSIDE) {
                if !self.is_square_attacked(60, Color::Black) && !self.is_square_attacked(59, Color::Black)
                    && !self.is_square_attacked(58, Color::Black) && get_bit(self.bitboards[3], 56) != 0 {
                    let mut m = BitPackedMove::new(60, 58, Piece::WhiteKing);
                    m.set_castle();
                    proof {
                        let o = self.occupancies[2];
                        lemma_castle_target_empty(o);
                    }
                    let ghost before = moves@;
                    moves.push(m);
                    proof {
                        if has_castle(before, 0) {
                            let i = choose|i: int| 0 <= i < before.len() && #[trigger] is_castle_move(before[i], 0);
                            assert(moves@[i] == before[i]);
                        }
                        assert(is_castle_move(m, 1));
                        assert(moves@[moves@.len() - 1] == m);
                    }
                }
            }
        } else {
            let is_king_side_empty = self.occupancies[2] & BLACK_KING_SIDE_CASTLE == 0;
            if is_king_side_empty && self.castling.can_castle(BLACK_KINGSIDE) {
                if !self.is_square_attacked(4, Color::White) && !self.is_square_attacked(5, Color::White)
                    && !self.is_square_attacked(6, Color::White) && get_bit(self.bitboards[9], 7) != 0 {
                    let mut m = BitPackedMove::new(4, 6, Piece::BlackKing);
                    m.set_castle();
                    proof {
                        let o = self.occupancies[2];
                        lemma_castle_target_empty(o);
                    }
                    moves.push(m);
                    proof {
                        assert(is_castle_move(m, 2));
                        assert(moves@[moves@.len() - 1] == m);
                    }
                }
            }
            let is_queen_side_empty = self.occupancies[2] & BLACK_QUEEN_SIDE_CASTLE == 0;
            if is_queen_side_empty && self.castling.can_castle(BLACK_QUEENSIDE) {
                if !self.is_square_attacked(4, Color::White) && !self.is_square_attacked(3, Color::White)
                    && !self.is_square_attacked(2, Color::White) && get_bit(self.bitboards[9], 0) != 0 {
                    let mut m = BitPackedMove::new(4, 2, Piece::BlackKing);
                    m.set_castle();
                    proof {
                        let o = self.occupancies[2];
                        lemma_castle_target_empty(o);
                    }
                    let ghost before = moves@;
                    moves.push(m);
                    proof {
                        if has_castle(before, 2) {
                            let i = choose|i: int| 0 <= i < before.len() && #[trigger] is_castle_move(before[i], 2);
                            assert(moves@[i] == before[i]);
                        }
                        assert(is_castle_move(m, 3));
                        assert(moves@[moves@.len() - 1] == m);
                    }
                }
            }
        }
    }

    /// The pieces of the side to move pinned to their king, and for each pinned square the
    /// squares its piece may still move to (the line between king and pinner, and the pinner).
    /// See `pinned_set` for the pinned pieces.
    fn compute_pins(&self, king_square: Square, friendly_pieces: u64, enemy_pieces: u64) -> (r: (u64, [u64; 64]))
        requires
            self.wf(),
            king_square < 64,
        ensures
            forall|j: u64| j < 64 && #[trigger] bit(r.0, j) ==> bit(friendly_pieces, j),
            r.0 == pinned_set(*self, king_square as u64, friendly_pieces, enemy_pieces),
            forall|sq: int| 0 <= sq < 64 ==> #[trigger] r.1[sq] == pin_ray(*self, king_square as u64, friendly_pieces, enemy_pieces, sq as u64),
    {
        let mut pinned_pieces: u64 = 0;
        let mut pin_rays: [u64; 64] = [0u64; 64];
        let o = 6 * self.turn.opponent().to_index();
        let king_bb = self.bitboards[5 + 6 * self.turn.to_index()];
        let opponent_sliders_mask = self.bitboards[4 + o] | self.bitboards[3 + o] | self.bitboards[2 + o];
        let mut possible_pinner_squares = self.get_queen_magic_attacks(king_square, 0)
            & !mask_king_attacks(king_square) & opponent_sliders_mask;
        let ghost f = pin_term(*self, king_square as u64, friendly_pieces, enemy_pieces);
        let ghost total = pinned_set(*self, king_square as u64, friendly_pieces, enemy_pieces);
        let ghost cands = possible_pinner_squares;
        let ghost mut lo: u64 = 0;
        proof {
            assert(possible_pinner_squares == pinner_candidates(*self, king_square as u64));
            assert forall|j: u64| j < 64 && #[trigger] bit(0u64, j) implies bit(friendly_pieces, j) by {
                lemma_bit_ops(0u64, 0u64, j);
            }
            lemma_or_facts(total, 0, 0);
        }
        while possible_pinner_squares != 0
            invariant
                self.wf(),
                king_square < 64,
                king_bb == self.bitboards@[5 + 6 * self.turn@ as int],
                f == pin_term(*self, king_square as u64, friendly_pieces, enemy_pieces),
                pinned_pieces | union_over(possible_pinner_squares, f, 64) == total,
                forall|j: u64| j < 64 && #[trigger] bit(pinned_pieces, j) ==> bit(friendly_pieces, j),
                cands == pinner_candidates(*self, king_square as u64),
                lo <= 64,
                forall|j: u64| j < lo ==> !#[trigger] bit(possible_pinner_squares, j),
                forall|j: u64| lo <= j < 64 ==> #[trigger] bit(possible_pinner_squares, j) == bit(cands, j),
                forall|sq: int| 0 <= sq < 64 ==> #[trigger] pin_rays[sq] == ray_of(king_square as u64, last_pinner(cands, f, sq as u64, lo as nat)),
            decreases possible_pinner_squares,
        {
            let ghost old_squares = possible_pinner_squares;
            let ghost old_pinned = pinned_pieces;
            let ghost old_rays = pin_rays;
            let ghost old_lo = lo;
            let pinner_square = pop_lsb(&mut possible_pinner_squares);
            proof {
                lemma_union_pop(old_squares, f, pinner_square as u64, 64);
                let r = pinner_square as u64;
                assert(r >= old_lo) by {
                    if r < old_lo {
                        assert(!bit(old_squares, r));
                    }
                }
                assert forall|j: u64| old_lo <= j < r implies !#[trigger] bit(cands, j) by {
                    assert(!bit(old_squares, j));
                }
                lemma_last_pinner_skip(cands, f, old_lo as nat, r as nat);
                lo = (r + 1) as u64;
                assert forall|j: u64| j < 64 implies #[trigger] bit(possible_pinner_squares, j) == (bit(old_squares, j) && j != r) by {
                    lemma_mask_bits(old_squares, 1u64 << r, j);
                    lemma_bit_single(j, r);
                }
                assert(bit(cands, r));
            }
            let pinner_piece = self.get_piece_at_square(pinner_square);
            let is_potential_rook_pinner = (pinner_piece.is_rook() || pinner_piece.is_queen())
                && (self.get_rook_magic_attacks(pinner_square, enemy_pieces | (1u64 << king_square)) & king_bb) != 0;
            let is_potential_bishop_pinner = (pinner_piece.is_bishop() || pinner_piece.is_queen())
                && (self.get_bishop_magic_attacks(pinner_square, enemy_pieces | (1u64 << king_square)) & king_bb) != 0;
            if !is_potential_bishop_pinner && !is_potential_rook_pinner {
                proof {
                    assert(f(pinner_square as u64) == 0);
                    assert forall|sq: int| 0 <= sq < 64 implies #[trigger] pin_rays[sq] == ray_of(king_square as u64, last_pinner(cands, f, sq as u64, lo as nat)) by {
                        assert(last_pinner(cands, f, sq as u64, lo as nat) == last_pinner(cands, f, sq as u64, pinner_square as nat));
                    }
                    lemma_or_facts(old_pinned, 0, union_over(possible_pinner_squares, f, 64));
                    lemma_or_facts(0, union_over(possible_pinner_squares, f, 64), 0);
                }
                continue;
            }
            let pieces_between = self.get_between_squares(king_square, pinner_square);
            let friendly_between = pieces_between & friendly_pieces;
            if count_bits(friendly_between) == 1 {
                let pinned_square = get_lsb(friendly_between);
                proof {
                    if friendly_between == 0 {
                        crate::utils::lemma_popcount_zero();
                    }
                }
                pin_rays[pinned_square as usize] = pieces_between | (1u64 << pinner_square);
                pinned_pieces = pinned_pieces | friendly_between;
                proof {
                    assert(f(pinner_square as u64) == friendly_between);
                    assert forall|sq: int| 0 <= sq < 64 implies #[trigger] pin_rays[sq] == ray_of(king_square as u64, last_pinner(cands, f, sq as u64, lo as nat)) by {
                        if sq != pinned_square as int {
                            assert(pin_rays[sq] == old_rays[sq]);
                            assert(last_pinner(cands, f, sq as u64, lo as nat) == last_pinner(cands, f, sq as u64, pinner_square as nat));
                        } else {
                            assert(last_pinner(cands, f, sq as u64, lo as nat) == Some(pinner_square as u64));
                        }
                    }
                    lemma_or_facts(old_pinned, friendly_between, union_over(possible_pinner_squares, f, 64));
                    assert forall|j: u64| j < 64 && #[trigger] bit(pinned_pieces, j) implies bit(friendly_pieces, j) by {
                        lemma_mask_bits(old_pinned, friendly_between, j);
                        lemma_mask_bits(pieces_between, friendly_pieces, j);
                    }
                }
            } else {
                proof {
                    assert(f(pinner_square as u64) == 0);
                    assert forall|sq: int| 0 <= sq < 64 implies #[trigger] pin_rays[sq] == ray_of(king_square as u64, last_pinner(cands, f, sq as u64, lo as nat)) by {
                        assert(last_pinner(cands, f, sq as u64, lo as nat) == last_pinner(cands, f, sq as u64, pinner_square as nat));
                    }
                    lemma_or_facts(old_pinned, 0, union_over(possible_pinner_squares, f, 64));
                    lemma_or_facts(0, union_over(possible_pinner_squares, f, 64), 0);
                }
            }
        }
        proof {
            lemma_union_zero(f, 64);
            lemma_or_facts(pinned_pieces, 0, 0);
            assert forall|j: u64| lo <= j < 64 implies !#[trigger] bit(cands, j) by {
                lemma_bit_ops(0u64, 0u64, j);
                assert(bit(possible_pinner_squares, j) == bit(cands, j));
            }
            lemma_last_pinner_skip(cands, f, lo as nat, 64);
        }
        (pinned_pieces, pin_rays)
    }
}

/// The highest square below `n` holding a pinner (a square of `cands` with a nonzero term
/// of `f`) whose pinned piece stands on `sq`.
pub open spec fn last_pinner(cands: u64, f: spec_fn(u64) -> u64, sq: u64, n: nat) -> Option<u64>
    decreases n,
{
    if n == 0 {
        None
    } else {
        let p = (n - 1) as u64;
        if bit(cands, p) && f(p) != 0 && vstd::std_specs::bits::u64_trailing_zeros(f(p)) == sq {
            Some(p)
        } else {
            last_pinner(cands, f, sq, (n - 1) as nat)
        }
    }
}

/// The squares a piece pinned by the pinner on `p` may still move to: those between the king
/// on `k` and the pinner, and the pinner's square; none without a pinner.
pub open spec fn ray_of(k: u64, p: Option<u64>) -> u64 {
    match p {
        Some(q) => between(k as int, q as int) | (1u64 << q),
        None => 0,
    }
}

/// The pin ray of the piece on `sq`: the ray of the last of its pinners.
pub open spec fn pin_ray(pos: Position, k: u64, friendly: u64, enemy: u64, sq: u64) -> u64 {
    ray_of(k, last_pinner(pinner_candidates(pos, k), pin_term(pos, k, friendly, enemy), sq, 64))
}

/// Squares without a pinner change nothing of the last pinner.
proof fn lemma_last_pinner_skip(cands: u64, f: spec_fn(u64) -> u64, a: nat, b: nat)
    requires
        a <= b <= 64,
        forall|j: u64| a <= j < b ==> !#[trigger] bit(cands, j),
    ensures
        forall|sq: u64| #[trigger] last_pinner(cands, f, sq, b) == last_pinner(cands, f, sq, a),
    decreases b,
{
    if b > a {
        lemma_last_pinner_skip(cands, f, a, (b - 1) as nat);
        assert(!bit(cands, (b - 1) as u64));
        assert forall|sq: u64| #[trigger] last_pinner(cands, f, sq, b) == last_pinner(cands, f, sq, a) by {
            assert(last_pinner(cands, f, sq, b) == last_pinner(cands, f, sq, (b - 1) as nat));
        }
    }
}

/// The opponent's sliders on a line or diagonal through the king, not next to it: the pieces
/// that may pin.
pub open spec fn pinner_candidates(pos: Position, k: u64) -> u64 {
    let o = 6 * (1 - pos.turn@) as int;
    (bishop_attacks(k as int, 0) | rook_attacks(k as int, 0)) & !king_attacks(k)
        & (pos.bitboards@[4 + o] | pos.bitboards@[3 + o] | pos.bitboards@[2 + o])
}

/// The piece the pinner on `p` pins to the king on `k`: when a rook or queen on `p` sees the
/// king along a line, or a bishop or queen along a diagonal, through the opponent's pieces,
/// and exactly one piece of the side to move stands between them, that piece's square; else
/// nothing.
pub open spec fn pin_term(pos: Position, k: u64, friendly: u64, enemy: u64) -> spec_fn(u64) -> u64 {
    |p: u64| {
        let piece = piece_on(pos.bitboards@, pos.occupancies[0], p)@;
        let king_bb = pos.bitboards@[5 + 6 * pos.turn@ as int];
        let occ = enemy | (1u64 << k);
        let rook_pinner = (piece == 3 || piece == 9 || piece == 4 || piece == 10) && rook_attacks(p as int, occ) & king_bb != 0;
        let bishop_pinner = (piece == 2 || piece == 8 || piece == 4 || piece == 10) && bishop_attacks(p as int, occ) & king_bb != 0;
        let fb = between(k as int, p as int) & friendly;
        if (rook_pinner || bishop_pinner) && popcount(fb) == 1 { fb } else { 0u64 }
    }
}

/// The pieces of the side to move pinned to its king on `k`.
pub open spec fn pinned_set(pos: Position, k: u64, friendly: u64, enemy: u64) -> u64 {
    union_over(pinner_candidates(pos, k), pin_term(pos, k, friendly, enemy), 64)
}

/// The promotion pieces of white, in the order they are generated.
pub const WHITE_PROMOTIONS: [Piece; 4] = [Piece::WhiteQueen, Piece::WhiteRook, Piece::WhiteBishop, Piece::WhiteKnight];

/// The promotion pieces of black, in the order they are generated.
pub const BLACK_PROMOTIONS: [Piece; 4] = [Piece::BlackQueen, Piece::BlackRook, Piece::BlackBishop, Piece::BlackKnight];

/// A pawn of `turn` on `s` attacks only squares whose en passant victim square (the square
/// behind, seen from the attacker) lies on the board.
proof fn lemma_pawn_attack_victim_on_board(turn: Color, s: u64, j: u64)
    requires
        s < 64,
        j < 64,
        bit(pawn_attacks(turn, s), j),
    ensures
        0 <= ep_victim_square(j as int, turn) < 64,
{
    crate::board::attacks::lemma_pawn_attacks_geom(turn, s, j);
}

/// A list that extends `a` with moves satisfying `p`, then extended with moves satisfying `q`,
/// each of which satisfies `p`, extends `a` with moves satisfying `p`.
pub proof fn lemma_extends_chain(a: Seq<BitPackedMove>, b: Seq<BitPackedMove>, c: Seq<BitPackedMove>,
    p: spec_fn(BitPackedMove) -> bool, q: spec_fn(BitPackedMove) -> bool)
    requires
        extends_with(a, b, p),
        extends_with(b, c, q),
        forall|m: BitPackedMove| #[trigger] q(m) ==> p(m),
    ensures
        extends_with(a, c, p),
{
    assert forall|i: int| a.len() <= i < c.len() implies p(#[trigger] c[i]) by {
        if i < b.len() {
            assert(c[i] == b[i]);
        } else {
            assert(q(c[i]));
        }
    }
}

/// A square of a piece's targets that lies among the squares it attacks given the board's
/// occupancy, and holds no piece of its side, is a pseudo-legal target of that piece.
proof fn lemma_piece_target(pos: Position, kind: int, s: u64, t: u64, targets: u64)
    requires
        pos.wf(),
        1 <= kind <= 4,
        s < 64,
        t < 64,
        forall|j: u64| j < 64 && #[trigger] bit(targets, j) ==> bit(kind_reach(kind, s, pos.occupancies[2]), j) && !bit(friendly_occ(pos), j),
        bit(targets, t),
    ensures
        bit(pseudo_targets(pos, kind, s, false), t),
{
    lemma_or_facts(pos.occupancies[0], pos.occupancies[1], 0u64);
    assert(friendly_occ(pos) | enemy_occ(pos) == pos.occupancies[2]);
    lemma_mask_bits(kind_reach(kind, s, pos.occupancies[2]), friendly_occ(pos), t);
}

/// Whether the legal generator keeps the pseudo-legal move of a piece of kind `kind` (1 to
/// 4) from `s` to `t`: its target lies within the check masks, a pinned knight does not move,
/// and a pinned slider stays on its pin ray.
pub open spec fn piece_kept(pos: Position, kind: int, pinned: u64, rays: [u64; 64], masks: u64, s: u64, t: u64) -> bool {
    &&& piece_move_for(pos, kind, false, s, t)
    &&& bit(masks, t)
    &&& (kind == 1 ==> !bit(pinned, s))
    &&& (kind != 1 && bit(pinned, s) ==> bit(rays[s as int], t))
}

/// A bitboard holds a square exactly when masking it with that square gives a nonzero value.
proof fn lemma_bit_mask_single(x: u64, s: u64)
    requires
        s < 64,
    ensures
        (x & (1u64 << s) != 0) == bit(x, s),
{
    if !bit(x, s) {
        assert forall|j: u64| j < 64 implies bit(x & (1u64 << s), j) == bit(0u64, j) by {
            lemma_mask_bits(x, 1u64 << s, j);
            lemma_bit_single(j, s);
            lemma_bit_ops(0u64, 0u64, j);
        }
        crate::utils::lemma_bits_ext(x & (1u64 << s), 0u64);
    } else {
        lemma_mask_bits(x, 1u64 << s, s);
        lemma_bit_single(s, s);
        lemma_bit_ops(0u64, 0u64, s);
    }
}

impl Position {
    /// Appends the legal moves of the knights, bishops, rooks or queens (`kind` 1 to 4) of the
    /// side to move: pinned knights stay, pinned sliders move only along their pin.
    fn legal_piece_moves(&self, moves: &mut Vec<BitPackedMove>, kind: usize, pinned_pieces: u64, pin_rays: &[u64; 64], push_mask: u64, capture_mask: u64)
        requires
            self.wf(),
            1 <= kind <= 4,
            moves_ok(*self, old(moves)@),
        ensures
            moves_ok(*self, final(moves)@),
            extends_with(old(moves)@, final(moves)@, |m: BitPackedMove| is_piece_move(*self, kind as int, false, m)
                && piece_kept(*self, kind as int, pinned_pieces, *pin_rays, push_mask | capture_mask, m.from_sq() as u64, m.to_sq() as u64)),
            forall|s: u64, t: u64| piece_kept(*self, kind as int, pinned_pieces, *pin_rays, push_mask | capture_mask, s, t)
                ==> #[trigger] has_plain_move(final(moves)@, s, t, (kind + 6 * self.turn@) as u32, capture_at(*self, t)),
            distinct_after(final(moves)@, old(moves)@.len() as int),
    {
        let ghost old_moves = moves@;
        let ghost pm = |m: BitPackedMove| is_piece_move(*self, kind as int, false, m)
            && piece_kept(*self, kind as int, pinned_pieces, *pin_rays, push_mask | capture_mask, m.from_sq() as u64, m.to_sq() as u64);
        let piece = Piece::from_index(kind + 6 * self.turn.to_index());
        let friendly_pieces = self.occupancies[self.turn.to_index()];
        let enemy_pieces = self.occupancies[self.turn.opponent().to_index()];
        let all = self.bitboards[piece.to_index()];
        let mut pieces = if kind == 1 { all & !pinned_pieces } else { all };
        let ghost masks = push_mask | capture_mask;
        let ghost kp = (kind + 6 * self.turn@) as u32;
        proof {
            assert forall|j: u64| j < 64 && #[trigger] bit(pieces, j) implies bit(all, j)
                && (kind == 1 ==> !bit(pinned_pieces, j)) by {
                lemma_mask_bits(all, pinned_pieces, j);
            }
            assert forall|s: u64, t: u64| #[trigger] piece_kept(*self, kind as int, pinned_pieces, *pin_rays, masks, s, t)
                implies bit(pieces, s) by {
                lemma_mask_bits(all, pinned_pieces, s);
            }
        }
        while pieces != 0
            invariant
                self.wf(),
                1 <= kind <= 4,
                piece@ == kind + 6 * self.turn@,
                kp == piece@,
                masks == push_mask | capture_mask,
                all == self.bitboards@[piece@ as int],
                friendly_pieces == friendly_occ(*self),
                enemy_pieces == enemy_occ(*self),
                forall|j: u64| j < 64 && #[trigger] bit(pieces, j) ==> bit(all, j) && (kind == 1 ==> !bit(pinned_pieces, j)),
                forall|s: u64, t: u64| piece_kept(*self, kind as int, pinned_pieces, *pin_rays, masks, s, t) && !bit(pieces, s)
                    ==> #[trigger] has_plain_move(moves@, s, t, kp, capture_at(*self, t)),
                moves_ok(*self, moves@),
                pm == (|m: BitPackedMove| is_piece_move(*self, kind as int, false, m)
                    && piece_kept(*self, kind as int, pinned_pieces, *pin_rays, push_mask | capture_mask, m.from_sq() as u64, m.to_sq() as u64)),
                extends_with(old_moves, moves@, pm),
                distinct_after(moves@, old_moves.len() as int),
                forall|i: int| old_moves.len() <= i < moves@.len() ==> !bit(pieces, (#[trigger] moves@[i]).from_sq() as u64),
            decreases pieces,
        {
            let ghost old_pieces = pieces;
            let source = pop_lsb(&mut pieces);
            proof {
                assert forall|j: u64| j < 64 implies #[trigger] bit(pieces, j) == (bit(old_pieces, j) && j != source as u64) by {
                    lemma_mask_bits(old_pieces, 1u64 << source, j);
                    lemma_bit_single(j, source as u64);
                }
            }
            let attacks = if kind == 1 {
                mask_knight_attacks(source)
            } else if kind == 2 {
                self.get_bishop_magic_attacks(source, self.occupancies[2])
            } else if kind == 3 {
                self.get_rook_magic_attacks(source, self.occupancies[2])
            } else {
                self.get_queen_magic_attacks(source, self.occupancies[2])
            };
            let mut targets = attacks & !friendly_pieces & (push_mask | capture_mask);
            if kind != 1 && pinned_pieces & (1u64 << source) != 0 {
                targets = targets & pin_rays[source as usize];
            }
            proof {
                assert forall|j: u64| j < 64 && #[trigger] bit(targets, j) implies !bit(friendly_pieces, j) by {
                    lemma_mask_bits(attacks, friendly_pieces, j);
                    lemma_mask_bits(attacks & !friendly_pieces, push_mask | capture_mask, j);
                    lemma_mask_bits(attacks & !friendly_pieces & (push_mask | capture_mask), pin_rays[source as int], j);
                }
                assert forall|j: u64| j < 64 && #[trigger] bit(targets & enemy_pieces, j) implies bit(enemy_occ(*self), j) by {
                    lemma_mask_bits(targets, enemy_pieces, j);
                }
                assert forall|j: u64| j < 64 && #[trigger] bit(targets & !enemy_pieces, j) implies !bit(self.occupancies[2], j) by {
                    lemma_mask_bits(targets, enemy_pieces, j);
                    if bit(targets & !enemy_pieces, j) {
                        lemma_outside_both_empty(*self, j);
                    }
                }
            }
            proof {
                assert(bit(old_pieces, source as u64));
                assert forall|j: u64| j < 64 && #[trigger] bit(targets, j)
                    implies bit(kind_reach(kind as int, source as u64, self.occupancies[2]), j) && !bit(friendly_occ(*self), j)
                    && bit(masks, j) && (kind != 1 && bit(pinned_pieces, source as u64) ==> bit(pin_rays[source as int], j)) by {
                    lemma_bit_mask_single(pinned_pieces, source as u64);
                    lemma_mask_bits(attacks, friendly_pieces, j);
                    lemma_mask_bits(attacks & !friendly_pieces, push_mask | capture_mask, j);
                    lemma_mask_bits(attacks & !friendly_pieces & (push_mask | capture_mask), pin_rays[source as int], j);
                }
            }
            proof {
                lemma_bit_mask_single(pinned_pieces, source as u64);
                lemma_or_facts(self.occupancies[0], self.occupancies[1], 0u64);
                assert(friendly_occ(*self) | enemy_occ(*self) == self.occupancies[2]);
                assert forall|t: u64| piece_kept(*self, kind as int, pinned_pieces, *pin_rays, masks, source as u64, t)
                    implies #[trigger] bit(targets, t) by {
                    lemma_mask_bits(attacks, friendly_pieces, t);
                    lemma_mask_bits(attacks & !friendly_pieces, push_mask | capture_mask, t);
                    lemma_mask_bits(attacks & !friendly_pieces & (push_mask | capture_mask), pin_rays[source as int], t);
                }
            }
            let ghost v0 = moves@;
            self.append_bb_movelist_captures(moves, targets & enemy_pieces, piece, source);
            let ghost v1 = moves@;
            proof {
                assert forall|i: int| old_moves.len() <= i < v0.len() implies (#[trigger] v0[i]).from_sq() != source by {
                    assert(!bit(old_pieces, v0[i].from_sq() as u64));
                }
                let q = |m: BitPackedMove| is_target_move(*self, targets & enemy_pieces, piece@ as u32, source as u64, m);
                assert forall|m: BitPackedMove| #[trigger] q(m) implies pm(m) by {
                    let t = m.to_sq() as u64;
                    lemma_mask_bits(targets, enemy_pieces, t);
                    lemma_piece_target(*self, kind as int, source as u64, t, targets);
                }
                lemma_extends_chain(old_moves, v0, v1, pm, q);
            }
            self.append_bb_movelist(moves, targets & !enemy_pieces, piece, source);
            proof {
                let q = |m: BitPackedMove| is_target_move(*self, targets & !enemy_pieces, piece@ as u32, source as u64, m);
                assert forall|m: BitPackedMove| #[trigger] q(m) implies pm(m) by {
                    let t = m.to_sq() as u64;
                    lemma_mask_bits(targets, enemy_pieces, t);
                    lemma_piece_target(*self, kind as int, source as u64, t, targets);
                }
                lemma_extends_chain(old_moves, v1, moves@, pm, q);
                let v2 = moves@;
                let q1 = |m: BitPackedMove| is_target_move(*self, targets & enemy_pieces, piece@ as u32, source as u64, m);
                assert forall|i: int, j: int| old_moves.len() <= i < j < v2.len() implies v2[i] != v2[j] by {
                    if j >= v1.len() {
                        assert(q(v2[j]));
                        lemma_mask_bits(targets, enemy_pieces, v2[j].to_sq() as u64);
                        if i >= v1.len() {
                            assert(v2[i].to_sq() < v2[j].to_sq());
                        } else if i >= v0.len() {
                            assert(v2[i] == v1[i]);
                            assert(q1(v1[i]));
                            lemma_mask_bits(targets, enemy_pieces, v1[i].to_sq() as u64);
                            assert(v2[i].to_sq() != v2[j].to_sq());
                        } else {
                            assert(v2[i] == v0[i]);
                            assert(v2[i].from_sq() != v2[j].from_sq());
                        }
                    } else if j >= v0.len() {
                        assert(v2[i] == v1[i] && v2[j] == v1[j]);
                        assert(q1(v1[j]));
                        if i >= v0.len() {
                            assert(v1[i].to_sq() < v1[j].to_sq());
                        } else {
                            assert(v1[i] == v0[i]);
                            assert(v1[i].from_sq() != v1[j].from_sq());
                        }
                    } else {
                        assert(v2[i] == v0[i] && v2[j] == v0[j]);
                    }
                }
                assert forall|i: int| old_moves.len() <= i < v2.len() implies !bit(pieces, (#[trigger] v2[i]).from_sq() as u64) by {
                    if i < v0.len() {
                        assert(v2[i] == v0[i]);
                    } else if i < v1.len() {
                        assert(v2[i] == v1[i]);
                        assert(q1(v1[i]));
                    } else {
                        assert(q(v2[i]));
                    }
                }
                assert forall|s: u64, t: u64| piece_kept(*self, kind as int, pinned_pieces, *pin_rays, masks, s, t) && !bit(pieces, s)
                    implies #[trigger] has_plain_move(v2, s, t, kp, capture_at(*self, t)) by {
                    if s != source as u64 {
                        assert(!bit(old_pieces, s));
                        assert(has_plain_move(v0, s, t, kp, capture_at(*self, t)));
                        lemma_has_plain_grow(v0, v2, s, t, kp, capture_at(*self, t));
                    } else {
                        assert(bit(targets, t));
                        lemma_mask_bits(targets, enemy_pieces, t);
                        if bit(targets & enemy_pieces, t) {
                            lemma_has_plain_sub(v1, v0.len() as int, v1.len() as int, s, t, kp, capture_at(*self, t));
                            lemma_has_plain_grow(v1, v2, s, t, kp, capture_at(*self, t));
                        } else {
                            lemma_has_plain_sub(v2, v1.len() as int, v2.len() as int, s, t, kp, capture_at(*self, t));
                        }
                    }
                }
            }
        }
        proof {
            assert forall|s: u64, t: u64| piece_kept(*self, kind as int, pinned_pieces, *pin_rays, masks, s, t)
                implies #[trigger] has_plain_move(moves@, s, t, kp, capture_at(*self, t)) by {
                lemma_bit_ops(0u64, 0u64, s);
            }
        }
    }
}

/// No white pawn stands on the eighth rank and no black pawn on the first.
pub open spec fn pawns_on_inner_ranks(pos: Position) -> bool {
    &&& pos.bitboards@[0] & 0xFFu64 == 0
    &&& pos.bitboards@[6] & 0xFF00000000000000u64 == 0
}

/// A square of a bitboard without its lowest eight bits is at least 8; one without its highest
/// eight bits is below 56.
proof fn lemma_rank_bounds(b: u64, s: u64)
    by (bit_vector)
    requires
        s < 64,
        bit(b, s),
    ensures
        b & 0xFFu64 == 0 ==> s >= 8,
        b & 0xFF00000000000000u64 == 0 ==> s < 56,
{
}

/// A pawn move within the legal generator's masks: an en passant capture, or a move onto a
/// square of `push` (a push) or of `both` (a capture), on the pawn's pin ray too when it is
/// pinned.
pub open spec fn pawn_within(pinned: u64, rays: [u64; 64], push: u64, both: u64, m: BitPackedMove) -> bool {
    m.enpassant_flag() || bit(pawn_push_mask(pinned, rays, if m.capture_idx() == 12 { push } else { both }, m.from_sq() as u64),
        m.to_sq() as u64)
}

/// Whether `n` is `m`, or, when `promotes`, `m` promoting to a queen, rook, bishop or knight of
/// `c`.
pub open spec fn pawn_variant(m: BitPackedMove, promotes: bool, c: Color, n: BitPackedMove) -> bool {
    &&& n.from_sq() == m.from_sq()
    &&& n.to_sq() == m.to_sq()
    &&& n.piece_idx() == m.piece_idx()
    &&& n.capture_idx() == m.capture_idx()
    &&& n.castle_flag() == m.castle_flag()
    &&& n.enpassant_flag() == m.enpassant_flag()
    &&& if promotes { is_promotion_of(c, n.promotion_idx()) } else { n.promotion_idx() == m.promotion_idx() }
}

/// The moves of the pawn of `c` on `s` that the legal generator gives when the pawn is not
/// pinned: one step forward onto an empty square of `push` (promoting on the last rank), two
/// steps from the starting rank over an empty square onto an empty square of `push`, captures
/// of the opponent's pieces it attacks on squares of `both` (promoting on the last rank), and
/// the en passant capture.
pub open spec fn legal_pawn_complete(pos: Position, c: Color, push: u64, both: u64, v: Seq<BitPackedMove>, s: u64) -> bool {
    let t = step(c, s);
    let occ = pos.occupancies[2];
    let pawn = (6 * c@) as u32;
    let targets = pawn_attacks(c, s) & pos.occupancies[1 - c@ as int];
    &&& (!bit(occ, t) && bit(push, t) && !promotes_from(c, s) ==> has_move(v, s, t, pawn, 12, 12, false))
    &&& (forall|p: u32| !bit(occ, t) && bit(push, t) && promotes_from(c, s) && is_promotion_of(c, p)
        ==> #[trigger] has_move(v, s, t, pawn, 12, p, false))
    &&& (!bit(occ, t) && on_start_rank(c, s) && !bit(occ, step(c, t)) && bit(push, step(c, t))
        ==> has_move(v, s, step(c, t), pawn, 12, 12, false))
    &&& (forall|u: u64| u < 64 && bit(targets, u) && bit(both, u) && !promotes_from(c, s)
        ==> #[trigger] has_move(v, s, u, pawn, capture_at(pos, u), 12, false))
    &&& (forall|u: u64, p: u32| u < 64 && bit(targets, u) && bit(both, u) && promotes_from(c, s) && is_promotion_of(c, p)
        ==> #[trigger] has_move(v, s, u, pawn, capture_at(pos, u), p, false))
    &&& pawn_ep_complete(pos, c, v, s)
}

/// The mask a pawn on `s` moves within: `mask`, and also its pin ray when it is pinned.
pub open spec fn pawn_push_mask(pinned: u64, rays: [u64; 64], mask: u64, s: u64) -> u64 {
    if bit(pinned, s) { mask & rays[s as int] } else { mask }
}

/// What the legal generator holds for a pawn stays in a list that begins with it.
proof fn lemma_legal_pawn_complete_grow(pos: Position, c: Color, push: u64, both: u64, v: Seq<BitPackedMove>, w: Seq<BitPackedMove>, s: u64)
    requires
        grows(v, w),
        legal_pawn_complete(pos, c, push, both, v, s),
    ensures
        legal_pawn_complete(pos, c, push, both, w, s),
{
    let pawn = (6 * c@) as u32;
    let t = step(c, s);
    let occ = pos.occupancies[2];
    let targets = pawn_attacks(c, s) & pos.occupancies[1 - c@ as int];
    if !bit(occ, t) && bit(push, t) && !promotes_from(c, s) {
        lemma_has_move_grow(v, w, s, t, pawn, 12, 12, false);
    }
    assert forall|p: u32| !bit(occ, t) && bit(push, t) && promotes_from(c, s) && is_promotion_of(c, p)
        implies #[trigger] has_move(w, s, t, pawn, 12, p, false) by {
        lemma_has_move_grow(v, w, s, t, pawn, 12, p, false);
    }
    if !bit(occ, t) && on_start_rank(c, s) && !bit(occ, step(c, t)) && bit(push, step(c, t)) {
        lemma_has_move_grow(v, w, s, step(c, t), pawn, 12, 12, false);
    }
    assert forall|u: u64| u < 64 && bit(targets, u) && bit(both, u) && !promotes_from(c, s)
        implies #[trigger] has_move(w, s, u, pawn, capture_at(pos, u), 12, false) by {
        lemma_has_move_grow(v, w, s, u, pawn, capture_at(pos, u), 12, false);
    }
    assert forall|u: u64, p: u32| u < 64 && bit(targets, u) && bit(both, u) && promotes_from(c, s) && is_promotion_of(c, p)
        implies #[trigger] has_move(w, s, u, pawn, capture_at(pos, u), p, false) by {
        lemma_has_move_grow(v, w, s, u, pawn, capture_at(pos, u), p, false);
    }
    assert forall|e: u8| pos.enpassant == Some(e) && e < 64 && bit(pawn_attacks(c, s), e as u64)
        implies #[trigger] has_move(w, s, e as u64, pawn, 12, 12, true) by {
        lemma_has_move_grow(v, w, s, e as u64, pawn, 12, 12, true);
    }
}

/// Whether the pushes of the pawn on `s` to `j` are in the list: the four promotions on a
/// single step to the last rank, else the plain push.
pub open spec fn push_listed(c: Color, v: Seq<BitPackedMove>, s: u64, j: u64) -> bool {
    if promotes_from(c, s) && j == step(c, s) {
        forall|p: u32| is_promotion_of(c, p) ==> #[trigger] has_move(v, s, j, (6 * c@) as u32, 12, p, false)
    } else {
        has_move(v, s, j, (6 * c@) as u32, 12, 12, false)
    }
}

/// Listed pushes stay listed in a list that begins with it.
proof fn lemma_push_listed_grow(c: Color, v: Seq<BitPackedMove>, w: Seq<BitPackedMove>, s: u64, j: u64)
    requires
        grows(v, w),
        push_listed(c, v, s, j),
    ensures
        push_listed(c, w, s, j),
{
    if promotes_from(c, s) && j == step(c, s) {
        assert forall|p: u32| is_promotion_of(c, p) implies #[trigger] has_move(w, s, j, (6 * c@) as u32, 12, p, false) by {
            lemma_has_move_grow(v, w, s, j, (6 * c@) as u32, 12, p, false);
        }
    } else {
        lemma_has_move_grow(v, w, s, j, (6 * c@) as u32, 12, 12, false);
    }
}

/// The moves a pawn gets from the legal generator: its single and double pushes within the
/// push mask, its captures within the masks, and its en passant capture; a pinned pawn's
/// pushes and captures also stay on its pin ray `ray`.
proof fn lemma_pawn_source_complete(pos: Position, c: Color, push: u64, capture: u64, s: u64, one: u64, empty: u64,
    enemy: u64, friendly: u64, attacks: u64, cap_all: u64, push_all: u64, pinned: bool, ray: u64,
    after_ep: Seq<BitPackedMove>, after_caps: Seq<BitPackedMove>, v: Seq<BitPackedMove>)
    requires
        pos.wf(),
        c == pos.turn,
        s < 64,
        c == Color::White ==> 8 <= s,
        c == Color::Black ==> s < 56,
        one == 1u64 << step(c, s),
        enemy == enemy_occ(pos),
        friendly == friendly_occ(pos),
        empty == !(enemy | friendly),
        attacks == pawn_attacks(c, s),
        !pinned ==> cap_all == attacks & enemy & (push | capture),
        pinned ==> cap_all == attacks & enemy & (push | capture) & ray,
        ({
            let base = if c == Color::White {
                (one & empty & push) | (((one & empty) >> 8u64) & push & empty & 0x000000FF00000000u64)
            } else {
                (one & empty & push) | (((one & empty) << 8u64) & push & empty & 0x00000000FF000000u64)
            };
            push_all == if pinned { base & ray } else { base }
        }),
        pawn_ep_complete(pos, c, after_ep, s),
        grows(after_ep, after_caps),
        grows(after_caps, v),
        forall|u: u64| u < 64 && bit(cap_all, u) && !promotes_from(c, s)
            ==> #[trigger] has_move(after_caps, s, u, (6 * c@) as u32, capture_at(pos, u), 12, false),
        forall|u: u64, p: u32| u < 64 && bit(cap_all, u) && promotes_from(c, s) && is_promotion_of(c, p)
            ==> #[trigger] has_move(after_caps, s, u, (6 * c@) as u32, capture_at(pos, u), p, false),
        forall|j: u64| j < 64 && bit(push_all, j) ==> #[trigger] push_listed(c, v, s, j),
    ensures
        legal_pawn_complete(pos, c, if pinned { push & ray } else { push }, if pinned { (push | capture) & ray } else { push | capture }, v, s),
{
    let t = step(c, s);
    let occ = pos.occupancies[2];
    let pawn = (6 * c@) as u32;
    let both = push | capture;
    let push_e = if pinned { push & ray } else { push };
    let both_e = if pinned { both & ray } else { both };
    let targets = pawn_attacks(c, s) & pos.occupancies[1 - c@ as int];
    let rank = if c == Color::White { 0x000000FF00000000u64 } else { 0x00000000FF000000u64 };
    let sh = if c == Color::White { (one & empty) >> 8u64 } else { (one & empty) << 8u64 };
    let base = (one & empty & push) | (sh & push & empty & rank);
    assert(push_all == if pinned { base & ray } else { base });
    // Emptiness of a square, seen through `empty`.
    assert forall|j: u64| j < 64 implies #[trigger] bit(empty, j) == !bit(occ, j) by {
        lemma_bit_ops(enemy | friendly, 0, j);
        lemma_mask_bits(enemy, friendly, j);
        lemma_bit_ops(pos.occupancies[0], pos.occupancies[1], j);
    }
    // The single push.
    if !bit(occ, t) && bit(push_e, t) {
        lemma_mask_bits(push, ray, t);
        lemma_bit_single(t, t);
        lemma_mask_bits(one, empty, t);
        lemma_mask_bits(one & empty, push, t);
        lemma_mask_bits(one & empty & push, sh & push & empty & rank, t);
        lemma_mask_bits(base, ray, t);
        assert(bit(push_all, t));
        assert(push_listed(c, v, s, t));
    }
    // The double push.
    let t2 = step(c, t);
    if !bit(occ, t) && on_start_rank(c, s) && !bit(occ, t2) && bit(push_e, t2) {
        lemma_mask_bits(push, ray, t2);
        lemma_bit_single(t, t);
        lemma_mask_bits(one, empty, t);
        lemma_pawn_step_bits(one & empty, t2);
        lemma_pawn_step_bits(0u64, t2);
        lemma_mask_bits(sh, push, t2);
        lemma_mask_bits(sh & push, empty, t2);
        lemma_mask_bits(sh & push & empty, rank, t2);
        lemma_mask_bits(one & empty & push, sh & push & empty & rank, t2);
        lemma_mask_bits(base, ray, t2);
        assert(bit(push_all, t2));
        assert(push_listed(c, v, s, t2));
        assert(t2 != t);
    }
    // The captures.
    assert forall|u: u64| u < 64 && bit(targets, u) && bit(both_e, u) && !promotes_from(c, s)
        implies #[trigger] has_move(v, s, u, pawn, capture_at(pos, u), 12, false) by {
        lemma_mask_bits(both, ray, u);
        lemma_mask_bits(attacks, enemy, u);
        lemma_mask_bits(attacks & enemy, both, u);
        lemma_mask_bits(attacks & enemy & both, ray, u);
        lemma_has_move_grow(after_caps, v, s, u, pawn, capture_at(pos, u), 12, false);
    }
    assert forall|u: u64, p: u32| u < 64 && bit(targets, u) && bit(both_e, u) && promotes_from(c, s) && is_promotion_of(c, p)
        implies #[trigger] has_move(v, s, u, pawn, capture_at(pos, u), p, false) by {
        lemma_mask_bits(both, ray, u);
        lemma_mask_bits(attacks, enemy, u);
        lemma_mask_bits(attacks & enemy, both, u);
        lemma_mask_bits(attacks & enemy & both, ray, u);
        lemma_has_move_grow(after_caps, v, s, u, pawn, capture_at(pos, u), p, false);
    }
    // The en passant capture.
    assert forall|e: u8| pos.enpassant == Some(e) && e < 64 && bit(pawn_attacks(c, s), e as u64)
        implies #[trigger] has_move(v, s, e as u64, pawn, 12, 12, true) by {
        lemma_has_move_grow(after_ep, after_caps, s, e as u64, pawn, 12, 12, true);
        lemma_has_move_grow(after_caps, v, s, e as u64, pawn, 12, 12, true);
    }
}

/// Bits of a pawn step: shifting by a rank, the fourth and fifth ranks, the first and last
/// ranks.
proof fn lemma_pawn_step_bits(x: u64, t: u64)
    by (bit_vector)
    requires
        t < 64,
    ensures
        ((x >> 8u64) >> t) & 1u64 == 1u64 <==> (t < 56 && (x >> ((t + 8) as u64)) & 1u64 == 1u64),
        ((x << 8u64) >> t) & 1u64 == 1u64 <==> (t >= 8 && (x >> ((t - 8) as u64)) & 1u64 == 1u64),
        (0x000000FF00000000u64 >> t) & 1u64 == 1u64 <==> (32 <= t < 40),
        (0x00000000FF000000u64 >> t) & 1u64 == 1u64 <==> (24 <= t < 32),
        (0x00000000000000FFu64 >> t) & 1u64 == 1u64 <==> t < 8,
        (0xFF00000000000000u64 >> t) & 1u64 == 1u64 <==> t >= 56,
{
}

impl Position {
    /// Appends a pawn move, or its four promotions when it reaches the last rank.
    fn push_pawn_move(&self, moves: &mut Vec<BitPackedMove>, m: BitPackedMove, promotes: bool)
        requires
            generated_move_ok(*self, m),
            m.promotion_idx() == 12,
            !m.castle_flag(),
            moves_ok(*self, old(moves)@),
        ensures
            moves_ok(*self, final(moves)@),
            extends_with(old(moves)@, final(moves)@, |n: BitPackedMove| pawn_variant(m, promotes, self.turn, n)),
            grows(old(moves)@, final(moves)@),
            !promotes ==> has_move(final(moves)@, m.from_sq() as u64, m.to_sq() as u64, m.piece_idx(), m.capture_idx(), 12, m.enpassant_flag()),
            promotes ==> forall|p: u32| is_promotion_of(self.turn, p) ==> #[trigger] has_move(final(moves)@, m.from_sq() as u64,
                m.to_sq() as u64, m.piece_idx(), m.capture_idx(), p, m.enpassant_flag()),
            distinct_after(final(moves)@, old(moves)@.len() as int),
    {
        if promotes {
            self.push_promotions(moves, m, self.turn);
        } else {
            moves.push(m);
            proof {
                assert(move_is(moves@[moves@.len() - 1], m.from_sq() as u64, m.to_sq() as u64, m.piece_idx(), m.capture_idx(), 12, m.enpassant_flag()));
            }
        }
    }

    /// Appends the legal pawn moves of the side to move: en passant captures (left for
    /// `make_move` to refuse when they expose the king), captures and pushes within the check
    /// masks and pins, with promotions on the last rank.
    #[verifier::rlimit(60)]
    fn legal_pawn_moves(&self, moves: &mut Vec<BitPackedMove>, pinned_pieces: u64, pin_rays: &[u64; 64], push_mask: u64, capture_mask: u64)
        requires
            self.wf(),
            pawns_on_inner_ranks(*self),
            moves_ok(*self, old(moves)@),
        ensures
            moves_ok(*self, final(moves)@),
            extends_with(old(moves)@, final(moves)@, |m: BitPackedMove| is_pawn_move(*self, self.turn, false, m)
                && pawn_within(pinned_pieces, *pin_rays, push_mask, push_mask | capture_mask, m)),
            forall|s: u64| s < 64 && bit(self.bitboards@[6 * self.turn@ as int], s)
                ==> #[trigger] legal_pawn_complete(*self, self.turn, pawn_push_mask(pinned_pieces, *pin_rays, push_mask, s),
                    pawn_push_mask(pinned_pieces, *pin_rays, push_mask | capture_mask, s), final(moves)@, s),
            distinct_after(final(moves)@, old(moves)@.len() as int),
    {
        let ghost old_moves = moves@;
        let ghost pp = |m: BitPackedMove| is_pawn_move(*self, self.turn, false, m)
            && pawn_within(pinned_pieces, *pin_rays, push_mask, push_mask | capture_mask, m);
        let turn = self.turn;
        let pawn_piece = Piece::pawn(turn);
        let friendly_pieces = self.occupancies[turn.to_index()];
        let enemy_pieces = self.occupancies[turn.opponent().to_index()];
        let all = self.bitboards[pawn_piece.to_index()];
        let mut pawns = all;
        while pawns != 0
            invariant
                self.wf(),
                pawns_on_inner_ranks(*self),
                turn == self.turn,
                pawn_piece@ == 6 * turn@,
                all == self.bitboards@[pawn_piece@ as int],
                friendly_pieces == friendly_occ(*self),
                enemy_pieces == enemy_occ(*self),
                forall|j: u64| j < 64 && #[trigger] bit(pawns, j) ==> bit(all, j),
                moves_ok(*self, moves@),
                pp == (|m: BitPackedMove| is_pawn_move(*self, self.turn, false, m)
                    && pawn_within(pinned_pieces, *pin_rays, push_mask, push_mask | capture_mask, m)),
                extends_with(old_moves, moves@, pp),
                forall|s: u64| s < 64 && bit(all, s) && !bit(pawns, s)
                    ==> #[trigger] legal_pawn_complete(*self, turn, pawn_push_mask(pinned_pieces, *pin_rays, push_mask, s),
                        pawn_push_mask(pinned_pieces, *pin_rays, push_mask | capture_mask, s), moves@, s),
                distinct_after(moves@, old_moves.len() as int),
                forall|i: int| old_moves.len() <= i < moves@.len() ==> !bit(pawns, (#[trigger] moves@[i]).from_sq() as u64),
            decreases pawns,
        {
            let ghost old_pawns = pawns;
            let source = pop_lsb(&mut pawns);
            let ghost iter_start = moves@;
            let ghost unpinned = !bit(pinned_pieces, source as u64);
            proof {
                assert forall|i: int| old_moves.len() <= i < iter_start.len() implies (#[trigger] iter_start[i]).from_sq() != source by {
                    assert(!bit(old_pawns, iter_start[i].from_sq() as u64));
                }
                assert forall|j: u64| j < 64 implies #[trigger] bit(pawns, j) == (bit(old_pawns, j) && j != source as u64) by {
                    lemma_mask_bits(old_pawns, 1u64 << source, j);
                    lemma_bit_single(j, source as u64);
                }
                lemma_bit_mask_single(pinned_pieces, source as u64);
                lemma_rank_bounds(all, source as u64);
                lemma_mask_bits(self.bitboards@[0], RANK_8, source as u64);
                lemma_mask_bits(self.bitboards@[6], RANK_1, source as u64);
                lemma_pawn_step_bits(0u64, source as u64);
                assert(bit(crate::movegen::pseudo::pawn_sources(*self, turn), source as u64));
            }
            let attacks = mask_pawn_attacks(source, turn);

            // Enpassant captures
            if let Some(enpassant_square) = self.enpassant {
                let enpassant_attacks = attacks & (1u64 << enpassant_square);
                if enpassant_attacks != 0 {
                    let target_enpassant = get_lsb(enpassant_attacks);
                    proof {
                        lemma_mask_bits(attacks, 1u64 << enpassant_square, target_enpassant as u64);
                        lemma_bit_single(target_enpassant as u64, enpassant_square as u64);
                        lemma_pawn_attack_victim_on_board(turn, source as u64, target_enpassant as u64);
                    }
                    let mut m = BitPackedMove::new(source, target_enpassant, pawn_piece);
                    m.set_enpassant();
                    let ghost before = moves@;
                    moves.push(m);
                    proof {
                        assert forall|i: int, j: int| old_moves.len() <= i < j < moves@.len() implies moves@[i] != moves@[j] by {
                            if j == before.len() {
                                assert(moves@[i] == iter_start[i]);
                            } else {
                                assert(moves@[i] == before[i] && moves@[j] == before[j]);
                            }
                        }
                        assert(pp(m));
                        assert forall|i: int| old_moves.len() <= i < moves@.len() implies #[trigger] pp(moves@[i]) by {
                            if i < before.len() {
                                assert(moves@[i] == before[i]);
                            }
                        }
                        assert(move_is(moves@[moves@.len() - 1], source as u64, enpassant_square as u64, pawn_piece@ as u32, 12, 12, true));
                    }
                } else {
                    proof {
                        lemma_bit_mask_single(attacks, enpassant_square as u64);
                    }
                }
            }
            let ghost after_ep = moves@;
            proof {
                assert(grows(iter_start, after_ep));
                assert forall|i: int| iter_start.len() <= i < after_ep.len() implies (#[trigger] after_ep[i]).from_sq() == source
                    && after_ep[i].enpassant_flag() by {
                }
                assert(pawn_ep_complete(*self, turn, after_ep, source as u64));
            }

            // Captures
            let mut pawn_captures = attacks & enemy_pieces & (push_mask | capture_mask);
            if pinned_pieces & (1u64 << source) != 0 {
                pawn_captures = pawn_captures & pin_rays[source as usize];
            }
            proof {
                lemma_bit_mask_single(pinned_pieces, source as u64);
                assert forall|j: u64| j < 64 && #[trigger] bit(pawn_captures, j) implies bit(attacks & enemy_pieces, j)
                    && bit(pawn_push_mask(pinned_pieces, *pin_rays, push_mask | capture_mask, source as u64), j) by {
                    lemma_mask_bits(attacks, enemy_pieces, j);
                    lemma_mask_bits(attacks & enemy_pieces, push_mask | capture_mask, j);
                    lemma_mask_bits(attacks & enemy_pieces & (push_mask | capture_mask), pin_rays[source as int], j);
                    lemma_mask_bits(push_mask | capture_mask, pin_rays[source as int], j);
                }
            }

            // Pushes
            let empty = !(enemy_pieces | friendly_pieces);
            let one = if turn == Color::White { 1u64 << (source - 8) } else { 1u64 << (source + 8) };
            let mut pawn_pushes = if turn == Color::White {
                let single_push = one & empty & push_mask;
                let double_push = ((one & empty) >> 8u64) & push_mask & empty & 0x000000FF00000000u64;
                single_push | double_push
            } else {
                let single_push = one & empty & push_mask;
                let double_push = ((one & empty) << 8u64) & push_mask & empty & 0x00000000FF000000u64;
                single_push | double_push
            };
            if pinned_pieces & (1u64 << source) != 0 {
                pawn_pushes = pawn_pushes & pin_rays[source as usize];
            }
            let ghost fwd = crate::movegen::pseudo::step(turn, source as u64);
            proof {
                lemma_bit_mask_single(pinned_pieces, source as u64);
                assert forall|j: u64| j < 64 && #[trigger] bit(pawn_pushes, j) implies !bit(self.occupancies[2], j)
                    && ((j == fwd) || (j == crate::movegen::pseudo::step(turn, fwd) && !bit(self.occupancies[2], fwd)
                        && crate::movegen::pseudo::on_start_rank(turn, source as u64)))
                    && bit(pawn_push_mask(pinned_pieces, *pin_rays, push_mask, source as u64), j) by {
                    lemma_mask_bits(push_mask, pin_rays[source as int], j);
                    let sh = if turn == Color::White { (one & empty) >> 8u64 } else { (one & empty) << 8u64 };
                    let rank = if turn == Color::White { 0x000000FF00000000u64 } else { 0x00000000FF000000u64 };
                    lemma_mask_bits(one & empty, push_mask, j);
                    lemma_mask_bits(one, empty, j);
                    lemma_mask_bits(sh, push_mask, j);
                    lemma_mask_bits(sh & push_mask, empty, j);
                    lemma_mask_bits(sh & push_mask & empty, rank, j);
                    lemma_mask_bits((one & empty) & push_mask, (sh & push_mask & empty) & rank, j);
                    lemma_mask_bits(((one & empty) & push_mask) | ((sh & push_mask & empty) & rank), pin_rays[source as int], j);
                    lemma_bit_ops(enemy_pieces | friendly_pieces, 0, j);
                    lemma_mask_bits(enemy_pieces, friendly_pieces, j);
                    lemma_pawn_step_bits(one & empty, j);
                    lemma_bit_single(j, fwd);
                    if j + 8 < 64 {
                        lemma_mask_bits(one, empty, (j + 8) as u64);
                        lemma_bit_single((j + 8) as u64, fwd);
                        lemma_bit_ops(enemy_pieces | friendly_pieces, 0, (j + 8) as u64);
                        lemma_mask_bits(enemy_pieces, friendly_pieces, (j + 8) as u64);
                        lemma_bit_ops(self.occupancies[0], self.occupancies[1], (j + 8) as u64);
                    }
                    if j >= 8 {
                        lemma_mask_bits(one, empty, (j - 8) as u64);
                        lemma_bit_single((j - 8) as u64, fwd);
                        lemma_bit_ops(enemy_pieces | friendly_pieces, 0, (j - 8) as u64);
                        lemma_mask_bits(enemy_pieces, friendly_pieces, (j - 8) as u64);
                        lemma_bit_ops(self.occupancies[0], self.occupancies[1], (j - 8) as u64);
                    }
                    lemma_bit_ops(self.occupancies[0], self.occupancies[1], j);
                    if bit(pawn_pushes, j) {
                        lemma_outside_both_empty(*self, j);
                    }
                }
            }

            let ghost cap_all = pawn_captures;
            let ghost both = push_mask | capture_mask;
            proof {
                if unpinned {
                    assert(cap_all == attacks & enemy_pieces & both);
                }
            }
            while pawn_captures != 0
                invariant
                    grows(after_ep, moves@),
                    forall|j: u64| j < 64 && #[trigger] bit(pawn_captures, j) ==> bit(cap_all, j),
                    forall|u: u64| u < 64 && bit(cap_all, u) && !bit(pawn_captures, u) && !promotes_from(turn, source as u64)
                        ==> #[trigger] has_move(moves@, source as u64, u, pawn_piece@ as u32, capture_at(*self, u), 12, false),
                    forall|u: u64, p: u32| u < 64 && bit(cap_all, u) && !bit(pawn_captures, u) && promotes_from(turn, source as u64)
                        && is_promotion_of(turn, p)
                        ==> #[trigger] has_move(moves@, source as u64, u, pawn_piece@ as u32, capture_at(*self, u), p, false),
                    self.wf(),
                    turn == self.turn,
                    pawn_piece@ == 6 * turn@,
                    source < 64,
                    bit(self.bitboards@[pawn_piece@ as int], source as u64),
                    bit(crate::movegen::pseudo::pawn_sources(*self, turn), source as u64),
                    enemy_pieces == enemy_occ(*self),
                    attacks == pawn_attacks(turn, source as u64),
                    forall|j: u64| j < 64 && #[trigger] bit(pawn_captures, j) ==> bit(attacks & enemy_pieces, j)
                        && bit(pawn_push_mask(pinned_pieces, *pin_rays, push_mask | capture_mask, source as u64), j),
                    moves_ok(*self, moves@),
                    pp == (|m: BitPackedMove| is_pawn_move(*self, self.turn, false, m)
                    && pawn_within(pinned_pieces, *pin_rays, push_mask, push_mask | capture_mask, m)),
                    extends_with(old_moves, moves@, pp),
                    distinct_after(moves@, old_moves.len() as int),
                    old_moves.len() <= iter_start.len() <= after_ep.len(),
                    forall|i: int| old_moves.len() <= i < iter_start.len() ==> (#[trigger] moves@[i]).from_sq() != source,
                    forall|i: int| iter_start.len() <= i < after_ep.len() ==> (#[trigger] moves@[i]).from_sq() == source
                        && moves@[i].enpassant_flag(),
                    forall|i: int| after_ep.len() <= i < moves@.len() ==> (#[trigger] moves@[i]).from_sq() == source
                        && !moves@[i].enpassant_flag() && moves@[i].capture_idx() != 12 && !bit(pawn_captures, moves@[i].to_sq() as u64),
                    forall|i: int| old_moves.len() <= i < moves@.len() ==> !bit(pawns, (#[trigger] moves@[i]).from_sq() as u64),
                    !bit(pawns, source as u64),
                decreases pawn_captures,
            {
                let ghost old_caps = pawn_captures;
                let target = pop_lsb(&mut pawn_captures);
                proof {
                    assert forall|j: u64| j < 64 implies #[trigger] bit(pawn_captures, j) == (bit(old_caps, j) && j != target as u64) by {
                        lemma_mask_bits(old_caps, 1u64 << target, j);
                        lemma_bit_single(j, target as u64);
                    }
                    assert forall|j: u64| j < 64 && #[trigger] bit(pawn_captures, j) implies bit(attacks & enemy_pieces, j)
                        && bit(pawn_push_mask(pinned_pieces, *pin_rays, push_mask | capture_mask, source as u64), j) by {
                        lemma_mask_bits(old_caps, 1u64 << target, j);
                    }
                    assert(bit(old_caps, target as u64));
                    lemma_mask_bits(attacks, enemy_pieces, target as u64);
                }
                let mut m = BitPackedMove::new(source, target, pawn_piece);
                let captured = self.get_piece_at_square(target);
                proof {
                    lemma_bit_ops(self.occupancies[0], self.occupancies[1], target as u64);
                    if captured == Piece::Empty {
                        lemma_occupied_has_piece(*self, target as u64);
                    }
                    crate::board::attacks::lemma_pawn_attacks_geom(turn, source as u64, target as u64);
                }
                m.set_capture(captured);
                let promotes = if turn == Color::White { target <= 7 } else { target >= 56 };
                let ghost before = moves@;
                self.push_pawn_move(moves, m, promotes);
                proof {
                    let q = |n: BitPackedMove| pawn_variant(m, promotes, self.turn, n);
                    assert(m.capture_idx() != 12);
                    assert forall|i: int| old_moves.len() <= i < moves@.len() implies {
                        &&& (i < iter_start.len() ==> (#[trigger] moves@[i]).from_sq() != source)
                        &&& (iter_start.len() <= i < after_ep.len() ==> moves@[i].from_sq() == source && moves@[i].enpassant_flag())
                        &&& (after_ep.len() <= i ==> moves@[i].from_sq() == source && !moves@[i].enpassant_flag()
                            && moves@[i].capture_idx() != 12 && !bit(pawn_captures, moves@[i].to_sq() as u64))
                        &&& !bit(pawns, moves@[i].from_sq() as u64)
                    } by {
                        if i < before.len() {
                            assert(moves@[i] == before[i]);
                        } else {
                            assert(q(moves@[i]));
                        }
                    }
                    assert forall|i: int, j: int| old_moves.len() <= i < j < moves@.len() implies moves@[i] != moves@[j] by {
                        if j >= before.len() {
                            assert(q(moves@[j]));
                            if i < before.len() {
                                assert(moves@[i] == before[i]);
                                if i >= after_ep.len() {
                                    assert(bit(old_caps, target as u64));
                                    assert(moves@[i].to_sq() != moves@[j].to_sq());
                                }
                            }
                        } else {
                            assert(moves@[i] == before[i] && moves@[j] == before[j]);
                        }
                    }
                    assert(promotes == crate::movegen::pseudo::promotes_from(turn, source as u64));
                    assert forall|n: BitPackedMove| #[trigger] q(n) implies pp(n) by {
                        assert(bit(attacks & enemy_pieces, target as u64));
                    }
                    lemma_extends_chain(old_moves, before, moves@, pp, q);
                    let cap = capture_at(*self, target as u64);
                    assert(m.capture_idx() == cap);
                    assert forall|u: u64| u < 64 && bit(cap_all, u) && !bit(pawn_captures, u) && !promotes_from(turn, source as u64)
                        implies #[trigger] has_move(moves@, source as u64, u, pawn_piece@ as u32, capture_at(*self, u), 12, false) by {
                        if u != target as u64 {
                            lemma_has_move_grow(before, moves@, source as u64, u, pawn_piece@ as u32, capture_at(*self, u), 12, false);
                        }
                    }
                    assert forall|u: u64, p: u32| u < 64 && bit(cap_all, u) && !bit(pawn_captures, u) && promotes_from(turn, source as u64)
                        && is_promotion_of(turn, p)
                        implies #[trigger] has_move(moves@, source as u64, u, pawn_piece@ as u32, capture_at(*self, u), p, false) by {
                        if u != target as u64 {
                            lemma_has_move_grow(before, moves@, source as u64, u, pawn_piece@ as u32, capture_at(*self, u), p, false);
                        }
                    }
                }
            }
            let ghost after_caps = moves@;

            let ghost push_all = pawn_pushes;
            while pawn_pushes != 0
                invariant
                    grows(after_caps, moves@),
                    forall|j: u64| j < 64 && #[trigger] bit(pawn_pushes, j) ==> bit(push_all, j),
                    forall|j: u64| j < 64 && bit(push_all, j) && !bit(pawn_pushes, j) ==> #[trigger] push_listed(turn, moves@, source as u64, j),
                    self.wf(),
                    turn == self.turn,
                    pawn_piece@ == 6 * turn@,
                    source < 64,
                    bit(self.bitboards@[pawn_piece@ as int], source as u64),
                    bit(crate::movegen::pseudo::pawn_sources(*self, turn), source as u64),
                    fwd == crate::movegen::pseudo::step(turn, source as u64),
                    turn == Color::White ==> 8 <= source,
                    turn == Color::Black ==> source < 56,
                    forall|j: u64| j < 64 && #[trigger] bit(pawn_pushes, j) ==> !bit(self.occupancies[2], j)
                        && ((j == fwd) || (j == crate::movegen::pseudo::step(turn, fwd) && !bit(self.occupancies[2], fwd)
                            && crate::movegen::pseudo::on_start_rank(turn, source as u64)))
                        && bit(pawn_push_mask(pinned_pieces, *pin_rays, push_mask, source as u64), j),
                    moves_ok(*self, moves@),
                    pp == (|m: BitPackedMove| is_pawn_move(*self, self.turn, false, m)
                    && pawn_within(pinned_pieces, *pin_rays, push_mask, push_mask | capture_mask, m)),
                    extends_with(old_moves, moves@, pp),
                    distinct_after(moves@, old_moves.len() as int),
                    old_moves.len() <= iter_start.len() <= after_ep.len() <= after_caps.len(),
                    forall|i: int| old_moves.len() <= i < iter_start.len() ==> (#[trigger] moves@[i]).from_sq() != source,
                    forall|i: int| iter_start.len() <= i < after_ep.len() ==> (#[trigger] moves@[i]).from_sq() == source
                        && moves@[i].enpassant_flag(),
                    forall|i: int| after_ep.len() <= i < after_caps.len() ==> (#[trigger] moves@[i]).from_sq() == source
                        && !moves@[i].enpassant_flag() && moves@[i].capture_idx() != 12,
                    forall|i: int| after_caps.len() <= i < moves@.len() ==> (#[trigger] moves@[i]).from_sq() == source
                        && !moves@[i].enpassant_flag() && moves@[i].capture_idx() == 12 && !bit(pawn_pushes, moves@[i].to_sq() as u64),
                    forall|i: int| old_moves.len() <= i < moves@.len() ==> !bit(pawns, (#[trigger] moves@[i]).from_sq() as u64),
                    !bit(pawns, source as u64),
                decreases pawn_pushes,
            {
                let ghost old_pushes = pawn_pushes;
                let target = pop_lsb(&mut pawn_pushes);
                proof {
                    assert forall|j: u64| j < 64 implies #[trigger] bit(pawn_pushes, j) == (bit(old_pushes, j) && j != target as u64) by {
                        lemma_mask_bits(old_pushes, 1u64 << target, j);
                        lemma_bit_single(j, target as u64);
                    }
                    assert forall|j: u64| j < 64 && #[trigger] bit(pawn_pushes, j) implies !bit(self.occupancies[2], j)
                        && ((j == fwd) || (j == crate::movegen::pseudo::step(turn, fwd) && !bit(self.occupancies[2], fwd)
                            && crate::movegen::pseudo::on_start_rank(turn, source as u64)))
                        && bit(pawn_push_mask(pinned_pieces, *pin_rays, push_mask, source as u64), j) by {
                        lemma_mask_bits(old_pushes, 1u64 << target, j);
                    }
                    assert(bit(old_pushes, target as u64));
                }
                let m = BitPackedMove::new(source, target, pawn_piece);
                let promotes = if turn == Color::White { target <= 7 } else { target >= 56 };
                let ghost before = moves@;
                self.push_pawn_move(moves, m, promotes);
                proof {
                    let q = |n: BitPackedMove| pawn_variant(m, promotes, self.turn, n);
                    assert forall|i: int| old_moves.len() <= i < moves@.len() implies {
                        &&& (i < iter_start.len() ==> (#[trigger] moves@[i]).from_sq() != source)
                        &&& (iter_start.len() <= i < after_ep.len() ==> moves@[i].from_sq() == source && moves@[i].enpassant_flag())
                        &&& (after_ep.len() <= i < after_caps.len() ==> moves@[i].from_sq() == source && !moves@[i].enpassant_flag()
                            && moves@[i].capture_idx() != 12)
                        &&& (after_caps.len() <= i ==> moves@[i].from_sq() == source && !moves@[i].enpassant_flag()
                            && moves@[i].capture_idx() == 12 && !bit(pawn_pushes, moves@[i].to_sq() as u64))
                        &&& !bit(pawns, moves@[i].from_sq() as u64)
                    } by {
                        if i < before.len() {
                            assert(moves@[i] == before[i]);
                        } else {
                            assert(q(moves@[i]));
                        }
                    }
                    assert forall|i: int, j: int| old_moves.len() <= i < j < moves@.len() implies moves@[i] != moves@[j] by {
                        if j >= before.len() {
                            assert(q(moves@[j]));
                            if i < before.len() {
                                assert(moves@[i] == before[i]);
                                if i >= after_caps.len() {
                                    assert(bit(old_pushes, target as u64));
                                    assert(moves@[i].to_sq() != moves@[j].to_sq());
                                }
                            }
                        } else {
                            assert(moves@[i] == before[i] && moves@[j] == before[j]);
                        }
                    }
                    assert(target as u64 == fwd ==> promotes == crate::movegen::pseudo::promotes_from(turn, source as u64));
                    assert(target as u64 != fwd ==> !promotes && !crate::movegen::pseudo::promotes_from(turn, source as u64));
                    assert forall|n: BitPackedMove| #[trigger] q(n) implies pp(n) by {
                    }
                    lemma_extends_chain(old_moves, before, moves@, pp, q);
                    assert(push_listed(turn, moves@, source as u64, target as u64));
                    assert forall|j: u64| j < 64 && bit(push_all, j) && !bit(pawn_pushes, j)
                        implies #[trigger] push_listed(turn, moves@, source as u64, j) by {
                        if j != target as u64 {
                            lemma_push_listed_grow(turn, before, moves@, source as u64, j);
                        }
                    }
                }
            }
            proof {
                let v = moves@;
                assert forall|j: u64| j < 64 implies !#[trigger] bit(pawn_pushes, j) by {
                    lemma_bit_ops(0u64, 0u64, j);
                }
                assert forall|j: u64| j < 64 implies !#[trigger] bit(pawn_captures, j) by {
                    lemma_bit_ops(0u64, 0u64, j);
                }
                lemma_pawn_source_complete(*self, turn, push_mask, capture_mask, source as u64, one, empty,
                    enemy_pieces, friendly_pieces, attacks, cap_all, push_all, !unpinned, pin_rays[source as int], after_ep, after_caps, v);
                assert forall|s: u64| s < 64 && bit(all, s) && !bit(pawns, s)
                    implies #[trigger] legal_pawn_complete(*self, turn, pawn_push_mask(pinned_pieces, *pin_rays, push_mask, s),
                        pawn_push_mask(pinned_pieces, *pin_rays, push_mask | capture_mask, s), v, s) by {
                    if s != source as u64 {
                        assert(!bit(old_pawns, s));
                        lemma_legal_pawn_complete_grow(*self, turn, pawn_push_mask(pinned_pieces, *pin_rays, push_mask, s),
                            pawn_push_mask(pinned_pieces, *pin_rays, push_mask | capture_mask, s), iter_start, v, s);
                    }
                }
            }
        }
        proof {
            assert forall|s: u64| s < 64 && bit(self.bitboards@[6 * self.turn@ as int], s)
                implies #[trigger] legal_pawn_complete(*self, self.turn, pawn_push_mask(pinned_pieces, *pin_rays, push_mask, s),
                    pawn_push_mask(pinned_pieces, *pin_rays, push_mask | capture_mask, s), moves@, s) by {
                lemma_bit_ops(0u64, 0u64, s);
            }
        }
    }
}

/// A plain move found in a part of a list is found in the list.
proof fn lemma_has_plain_sub(v: Seq<BitPackedMove>, a: int, b: int, from: u64, to: u64, piece: u32, capture: u32)
    requires
        0 <= a <= b <= v.len(),
        has_plain_move(v.subrange(a, b), from, to, piece, capture),
    ensures
        has_plain_move(v, from, to, piece, capture),
{
    let i = choose|i: int| 0 <= i < b - a && is_plain_move(#[trigger] v.subrange(a, b)[i], from, to, piece, capture);
    assert(v.subrange(a, b)[i] == v[a + i]);
}

/// A plain move found in a list is found in every list that begins with it.
proof fn lemma_has_plain_grow(v: Seq<BitPackedMove>, w: Seq<BitPackedMove>, from: u64, to: u64, piece: u32, capture: u32)
    requires
        grows(v, w),
        has_plain_move(v, from, to, piece, capture),
    ensures
        has_plain_move(w, from, to, piece, capture),
{
    let i = choose|i: int| 0 <= i < v.len() && is_plain_move(#[trigger] v[i], from, to, piece, capture);
    assert(w[i] == v[i]);
}

/// A castling found in a list is found in every list that begins with it.
proof fn lemma_has_castle_grow(v: Seq<BitPackedMove>, w: Seq<BitPackedMove>, side: int)
    requires
        grows(v, w),
        has_castle(v, side),
    ensures
        has_castle(w, side),
{
    let i = choose|i: int| 0 <= i < v.len() && #[trigger] is_castle_move(v[i], side);
    assert(w[i] == v[i]);
}

/// The squares the king on `k` may step to: those it attacks that hold no piece of its side
/// and that no piece of the opponent (its king included) attacks once the king has left `k`.
pub open spec fn king_targets(pos: Position, k: u64) -> u64 {
    king_attacks(k) & !friendly_occ(pos) & !attacked_without_king(pos, k as int)
}

/// Whether `m` is a step of the king of the side to move onto one of its king targets.
pub open spec fn king_step(pos: Position, m: BitPackedMove) -> bool {
    let k = vstd::std_specs::bits::u64_trailing_zeros(pos.bitboards@[5 + 6 * pos.turn@ as int]) as u64;
    is_target_move(pos, king_targets(pos, k), (5 + 6 * pos.turn@) as u32, k, m)
}

/// When the king on `k` is not in double check, every pseudo-legal move of a knight, bishop,
/// rook or queen onto a square within the check masks is in the list, when the piece is not
/// pinned to the king, or is a pinned bishop, rook or queen moving along its pin ray.
pub open spec fn pieces_complete(pos: Position, k: u64, v: Seq<BitPackedMove>) -> bool {
    let cm = check_masks(pos, k as int, square_attackers(pos, k, opposite(pos.turn)));
    let pinned = pinned_set(pos, k, friendly_occ(pos), enemy_occ(pos));
    !cm.1 ==> forall|kind: int, s: u64, t: u64| 1 <= kind <= 4 && piece_move_for(pos, kind, false, s, t)
        && bit(cm.3 | cm.2, t)
        && (!bit(pinned, s) || (kind != 1 && bit(pin_ray(pos, k, friendly_occ(pos), enemy_occ(pos), s), t)))
        ==> #[trigger] has_plain_move(v, s, t, (kind + 6 * pos.turn@) as u32, capture_at(pos, t))
}

/// When the king on `k` is not in double check, every pawn of the side to move has its pushes
/// within the push mask, its captures within the masks (a pinned pawn's also on its pin ray),
/// and its en passant capture in the list.
pub open spec fn pawns_complete(pos: Position, k: u64, v: Seq<BitPackedMove>) -> bool {
    let cm = check_masks(pos, k as int, square_attackers(pos, k, opposite(pos.turn)));
    !cm.1 ==> forall|s: u64| s < 64 && bit(pos.bitboards@[6 * pos.turn@ as int], s)
        ==> #[trigger] legal_pawn_complete(pos, pos.turn, pinned_mask(pos, k, cm.3, s), pinned_mask(pos, k, cm.3 | cm.2, s), v, s)
}

/// The mask a piece of the side to move on `s` moves within: `mask`, and also its pin ray when
/// it is pinned to the king on `k`.
pub open spec fn pinned_mask(pos: Position, k: u64, mask: u64, s: u64) -> u64 {
    if bit(pinned_set(pos, k, friendly_occ(pos), enemy_occ(pos)), s) {
        mask & pin_ray(pos, k, friendly_occ(pos), enemy_occ(pos), s)
    } else {
        mask
    }
}

/// What every move the legal generator gives is: a king step onto a king target (a square
/// outside the attacks of the opponent's pieces); an allowed castling when not in check; or,
/// when not in double check, a
/// pseudo-legal move of an unpinned knight, of a bishop, rook or queen (along its pin ray when
/// pinned), or of a pawn, onto a square within the check masks (a pawn's push within the push
/// mask, on its pin ray when pinned), en passant captures aside.
pub open spec fn legal_shape(pos: Position, m: BitPackedMove) -> bool {
    let k = vstd::std_specs::bits::u64_trailing_zeros(pos.bitboards@[5 + 6 * pos.turn@ as int]) as u64;
    let cm = check_masks(pos, k as int, square_attackers(pos, k, opposite(pos.turn)));
    let pinned = pinned_set(pos, k, friendly_occ(pos), enemy_occ(pos));
    let s = m.from_sq() as u64;
    let t = m.to_sq() as u64;
    let on_ray = bit(pin_ray(pos, k, friendly_occ(pos), enemy_occ(pos), s), t);
    ||| king_step(pos, m)
    ||| (!cm.0 && is_allowed_castle(pos, m))
    ||| (!cm.1 && is_piece_move(pos, 1, false, m) && bit(cm.3 | cm.2, t) && !bit(pinned, s))
    ||| (!cm.1 && (is_piece_move(pos, 2, false, m) || is_piece_move(pos, 3, false, m) || is_piece_move(pos, 4, false, m))
        && bit(cm.3 | cm.2, t) && (!bit(pinned, s) || on_ray))
    ||| (!cm.1 && is_pawn_move(pos, pos.turn, false, m)
        && (m.enpassant_flag() || bit(pinned_mask(pos, k, if m.capture_idx() == 12 { cm.3 } else { cm.3 | cm.2 }, s), t)))
}

/// Every move the legal generator gives, other than a move of the king, is a pseudo-legal move
/// (one that `generate_moves` lists).
pub proof fn law_legal_moves_are_pseudo_legal(pos: Position, m: BitPackedMove)
    requires
        pos.wf(),
        legal_shape(pos, m),
        m.piece_idx() != 5 + 6 * pos.turn@,
    ensures
        crate::movegen::pseudo::is_pseudo_move(pos, false, m),
{
    if is_allowed_castle(pos, m) {
        let side = choose|side: int| 0 <= side < 4 && castle_allowed(pos, side) && #[trigger] is_castle_move(m, side);
        assert(is_castle_move(m, side));
    }
}

impl Position {
    /// Generates the legal moves of the side to move into the move list of the current depth:
    /// king moves to squares no piece of the opponent (its king included) attacks, with the
    /// moving king lifted off the board;
    /// when not in double check, castling (when not in check) and the moves of the other pieces
    /// that answer a check and respect pins. En passant captures are left for `make_move` to
    /// refuse when they expose the king.
    pub fn generate_legal_moves(&mut self)
        requires
            old(self).wf(),
            old(self).depth < crate::board::STACK_SIZE,
            old(self).bitboards@[5 + 6 * old(self).turn@ as int] != 0,
            pawns_on_inner_ranks(*old(self)),
        ensures
            final(self).move_list_stack@ == old(self).move_list_stack@.update(old(self).depth as int, final(self).move_list_stack@[old(self).depth as int]),
            moves_ok(*old(self), final(self).move_list_stack@[old(self).depth as int]@),
            forall|i: int| 0 <= i < final(self).move_list_stack@[old(self).depth as int]@.len()
                ==> legal_shape(*old(self), #[trigger] final(self).move_list_stack@[old(self).depth as int]@[i]),
            final(self).move_list_stack@[old(self).depth as int]@.no_duplicates(),
            ({
                let k = vstd::std_specs::bits::u64_trailing_zeros(old(self).bitboards@[5 + 6 * old(self).turn@ as int]) as u64;
                let v = final(self).move_list_stack@[old(self).depth as int]@;
                &&& forall|t: u64| t < 64 && bit(king_targets(*old(self), k), t)
                    ==> #[trigger] has_plain_move(v, k, t, (5 + 6 * old(self).turn@) as u32, capture_at(*old(self), t))
                &&& square_attackers(*old(self), k, opposite(old(self).turn)) == 0
                    ==> forall|side: int| 0 <= side < 4 && castle_allowed(*old(self), side) ==> #[trigger] has_castle(v, side)
                &&& pieces_complete(*old(self), k, v)
                &&& pawns_complete(*old(self), k, v)
            }),
            final(self).bitboards == old(self).bitboards,
            final(self).occupancies == old(self).occupancies,
            final(self).turn == old(self).turn,
            final(self).enpassant == old(self).enpassant,
            final(self).castling == old(self).castling,
            final(self).material == old(self).material,
            final(self).hash == old(self).hash,
            final(self).halfmove_clock == old(self).halfmove_clock,
            final(self).fullmove_number == old(self).fullmove_number,
            final(self).position_stack == old(self).position_stack,
            final(self).depth == old(self).depth,
            final(self).rand_seed == old(self).rand_seed,
            final(self).zobrist_piece_keys == old(self).zobrist_piece_keys,
            final(self).zobrist_castling_keys == old(self).zobrist_castling_keys,
            final(self).zobrist_enpassant_keys == old(self).zobrist_enpassant_keys,
            final(self).zobrist_turn_key == old(self).zobrist_turn_key,
            final(self).opponent_attack_map == old(self).opponent_attack_map,
    {
        let moves = self.legal_moves();
        proof {
            assert forall|i: int, j: int| 0 <= i < moves@.len() && 0 <= j < moves@.len() && i != j implies moves@[i] != moves@[j] by {
                if i > j {
                    assert(moves@[j] != moves@[i]);
                }
            }
        }
        self.move_list_stack.set(self.depth, moves);
    }

    /// The legal moves of the side to move, as `generate_legal_moves` stores them.
    #[verifier::rlimit(60)]
    fn legal_moves(&self) -> (moves: Vec<BitPackedMove>)
        requires
            self.wf(),
            self.bitboards@[5 + 6 * self.turn@ as int] != 0,
            pawns_on_inner_ranks(*self),
        ensures
            moves_ok(*self, moves@),
            forall|i: int| 0 <= i < moves@.len() ==> legal_shape(*self, #[trigger] moves@[i]),
            ({
                let k = vstd::std_specs::bits::u64_trailing_zeros(self.bitboards@[5 + 6 * self.turn@ as int]) as u64;
                &&& forall|t: u64| t < 64 && bit(king_targets(*self, k), t)
                    ==> #[trigger] has_plain_move(moves@, k, t, (5 + 6 * self.turn@) as u32, capture_at(*self, t))
                &&& square_attackers(*self, k, opposite(self.turn)) == 0
                    ==> forall|side: int| 0 <= side < 4 && castle_allowed(*self, side) ==> #[trigger] has_castle(moves@, side)
                &&& pieces_complete(*self, k, moves@)
                &&& pawns_complete(*self, k, moves@)
            }),
            distinct_after(moves@, 0),
    {
        let ghost ls = |m: BitPackedMove| legal_shape(*self, m);
        let mut moves: Vec<BitPackedMove> = Vec::new();
        let turn = self.turn;
        let enemy_pieces = self.occupancies[turn.opponent().to_index()];
        let friendly_pieces = self.occupancies[turn.to_index()];
        let opponent_color = turn.opponent();
        let king_piece = Piece::king(turn);
        let king_bb = self.bitboards[king_piece.to_index()];
        let king_square = get_lsb(king_bb);

        // King moves
        let checkers = self.get_square_attackers(king_square, opponent_color);
        let (is_in_check, is_in_double_check, capture_mask, push_mask) = self.compute_check_masks(king_square, checkers);
        let attacked_squares_wo_king = self.get_attacked_squares_without_king(king_square);
        let king_moves = mask_king_attacks(king_square) & !friendly_pieces & !attacked_squares_wo_king;
        proof {
            assert(king_moves == king_targets(*self, king_square as u64));
            assert forall|j: u64| j < 64 && #[trigger] bit(king_moves & enemy_pieces, j) implies bit(enemy_occ(*self), j) by {
                lemma_mask_bits(king_moves, enemy_pieces, j);
            }
            assert forall|j: u64| j < 64 && #[trigger] bit(king_moves & !enemy_pieces, j) implies !bit(self.occupancies[2], j) by {
                lemma_mask_bits(king_moves, enemy_pieces, j);
                lemma_mask_bits(king_attacks(king_square as u64), friendly_pieces, j);
                lemma_mask_bits(king_attacks(king_square as u64) & !friendly_pieces, attacked_squares_wo_king, j);
                if bit(king_moves & !enemy_pieces, j) {
                    lemma_outside_both_empty(*self, j);
                }
            }
        }
        let ghost v0 = moves@;
        self.append_bb_movelist_captures(&mut moves, king_moves & enemy_pieces, king_piece, king_square);
        let ghost v1 = moves@;
        proof {
            let q = |m: BitPackedMove| is_target_move(*self, king_moves & enemy_pieces, king_piece@ as u32, king_square as u64, m);
            assert forall|m: BitPackedMove| #[trigger] q(m) implies ls(m) by {
                lemma_mask_bits(king_moves, enemy_pieces, m.to_sq() as u64);
                assert(king_step(*self, m));
            }
            assert(extends_with(v0, v0, ls));
            lemma_extends_chain(v0, v0, v1, ls, q);
        }
        self.append_bb_movelist(&mut moves, king_moves & !enemy_pieces, king_piece, king_square);
        proof {
            let q = |m: BitPackedMove| is_target_move(*self, king_moves & !enemy_pieces, king_piece@ as u32, king_square as u64, m);
            assert forall|m: BitPackedMove| #[trigger] q(m) implies ls(m) by {
                lemma_mask_bits(king_moves, enemy_pieces, m.to_sq() as u64);
                assert(king_step(*self, m));
            }
            lemma_extends_chain(v0, v1, moves@, ls, q);
        }
        let ghost v2 = moves@;
        let ghost kp = king_piece@ as u32;
        let ghost ks = king_square as u64;
        proof {
            let q1 = |m: BitPackedMove| is_target_move(*self, king_moves & enemy_pieces, king_piece@ as u32, king_square as u64, m);
            let q2 = |m: BitPackedMove| is_target_move(*self, king_moves & !enemy_pieces, king_piece@ as u32, king_square as u64, m);
            assert forall|i: int| 0 <= i < v2.len() implies (#[trigger] v2[i]).piece_idx() == kp && !v2[i].castle_flag() by {
                if i < v1.len() {
                    assert(v2[i] == v1[i]);
                    assert(q1(v1[i]));
                } else {
                    assert(q2(v2[i]));
                }
            }
            assert forall|i: int, j: int| 0 <= i < j < v2.len() implies v2[i] != v2[j] by {
                if j >= v1.len() {
                    assert(q2(v2[j]));
                    lemma_mask_bits(king_moves, enemy_pieces, v2[j].to_sq() as u64);
                    if i < v1.len() {
                        assert(v2[i] == v1[i]);
                        assert(q1(v1[i]));
                        lemma_mask_bits(king_moves, enemy_pieces, v1[i].to_sq() as u64);
                    } else {
                        assert(v2[i].to_sq() < v2[j].to_sq());
                    }
                } else {
                    assert(v2[i] == v1[i] && v2[j] == v1[j]);
                    assert(v1[i].to_sq() < v1[j].to_sq());
                }
            }
            assert(ks == vstd::std_specs::bits::u64_trailing_zeros(self.bitboards@[5 + 6 * self.turn@ as int]) as u64);
            assert forall|t: u64| t < 64 && bit(king_targets(*self, ks), t)
                implies #[trigger] has_plain_move(v2, ks, t, kp, capture_at(*self, t)) by {
                lemma_mask_bits(king_moves, enemy_pieces, t);
                if bit(king_moves & enemy_pieces, t) {
                    lemma_has_plain_sub(v1, v0.len() as int, v1.len() as int, ks, t, kp, capture_at(*self, t));
                    lemma_has_plain_grow(v1, v2, ks, t, kp, capture_at(*self, t));
                } else {
                    lemma_has_plain_sub(v2, v1.len() as int, v2.len() as int, ks, t, kp, capture_at(*self, t));
                }
            }
            if checkers == 0 {
                crate::utils::lemma_popcount_zero();
            }
        }

        if is_in_double_check {
            return moves;
        }

        // Castling moves
        if !is_in_check {
            let ghost before = moves@;
            self.push_castle_moves(&mut moves);
            proof {
                let q = |m: BitPackedMove| is_allowed_castle(*self, m);
                assert forall|m: BitPackedMove| #[trigger] q(m) implies ls(m) by {
                }
                lemma_extends_chain(v0, before, moves@, ls, q);
            }
        }
        let ghost v3 = moves@;
        proof {
            assert forall|i: int| 0 <= i < v3.len() implies (#[trigger] v3[i]).piece_idx() == kp by {
                if i < v2.len() {
                    assert(v3[i] == v2[i]);
                }
            }
            assert forall|i: int, j: int| 0 <= i < j < v3.len() implies v3[i] != v3[j] by {
                if j >= v2.len() {
                    if i < v2.len() {
                        assert(v3[i] == v2[i]);
                        assert(!v3[i].castle_flag() && v3[j].castle_flag());
                    }
                } else {
                    assert(v3[i] == v2[i] && v3[j] == v2[j]);
                }
            }
            assert forall|t: u64| t < 64 && bit(king_targets(*self, ks), t)
                implies #[trigger] has_plain_move(v3, ks, t, kp, capture_at(*self, t)) by {
                lemma_has_plain_grow(v2, v3, ks, t, kp, capture_at(*self, t));
            }
        }

        // Pinned pieces
        let (pinned_pieces, pin_rays) = self.compute_pins(king_square, friendly_pieces, enemy_pieces);

        // Knight, bishop, rook and queen moves
        let ghost pinned = pinned_set(*self, ks, friendly_occ(*self), enemy_occ(*self));
        let ghost masks = push_mask | capture_mask;
        let mut kind: usize = 1;
        while kind <= 4
            invariant
                1 <= kind <= 5,
                self.wf(),
                moves_ok(*self, moves@),
                ls == (|m: BitPackedMove| legal_shape(*self, m)),
                extends_with(v0, moves@, ls),
                grows(v3, moves@),
                pinned_pieces == pinned,
                pinned == pinned_set(*self, ks, friendly_occ(*self), enemy_occ(*self)),
                masks == push_mask | capture_mask,
                !is_in_double_check,
                (is_in_check, is_in_double_check, capture_mask, push_mask) == check_masks(*self, ks as int, square_attackers(*self, ks, opposite(self.turn))),
                ks == vstd::std_specs::bits::u64_trailing_zeros(self.bitboards@[5 + 6 * self.turn@ as int]) as u64,
                distinct_after(moves@, 0),
                kp == 5 + 6 * self.turn@,
                forall|i: int| 0 <= i < moves@.len() ==> (#[trigger] moves@[i]).piece_idx() == kp
                    || (1 + 6 * self.turn@ <= moves@[i].piece_idx() < kind + 6 * self.turn@),
                forall|sq: int| 0 <= sq < 64 ==> #[trigger] pin_rays[sq] == pin_ray(*self, ks, friendly_occ(*self), enemy_occ(*self), sq as u64),
                forall|kd: int, s: u64, t: u64| 1 <= kd < kind && piece_move_for(*self, kd, false, s, t) && bit(masks, t)
                    && (!bit(pinned, s) || (kd != 1 && bit(pin_ray(*self, ks, friendly_occ(*self), enemy_occ(*self), s), t)))
                    ==> #[trigger] has_plain_move(moves@, s, t, (kd + 6 * self.turn@) as u32, capture_at(*self, t)),
            decreases 5 - kind,
        {
            let ghost before = moves@;
            self.legal_piece_moves(&mut moves, kind, pinned_pieces, &pin_rays, push_mask, capture_mask);
            proof {
                let q = |m: BitPackedMove| is_piece_move(*self, kind as int, false, m)
                    && piece_kept(*self, kind as int, pinned_pieces, pin_rays, push_mask | capture_mask, m.from_sq() as u64, m.to_sq() as u64);
                assert forall|i: int| 0 <= i < moves@.len() implies (#[trigger] moves@[i]).piece_idx() == kp
                    || (1 + 6 * self.turn@ <= moves@[i].piece_idx() < kind + 1 + 6 * self.turn@) by {
                    if i < before.len() {
                        assert(moves@[i] == before[i]);
                    } else {
                        assert(q(moves@[i]));
                    }
                }
                assert forall|i: int, j: int| 0 <= i < j < moves@.len() implies moves@[i] != moves@[j] by {
                    if j >= before.len() {
                        assert(q(moves@[j]));
                        if i < before.len() {
                            assert(moves@[i] == before[i]);
                            assert(moves@[i].piece_idx() != moves@[j].piece_idx());
                        }
                    } else {
                        assert(moves@[i] == before[i] && moves@[j] == before[j]);
                    }
                }
                assert forall|m: BitPackedMove| #[trigger] q(m) implies ls(m) by {
                    let s = m.from_sq() as u64;
                    let t = m.to_sq() as u64;
                    assert(piece_move_for(*self, kind as int, false, s, t));
                    assert(s < 64);
                    assert(pin_rays[s as int] == pin_ray(*self, ks, friendly_occ(*self), enemy_occ(*self), s));
                    assert(bit(push_mask | capture_mask, t));
                    let cm = check_masks(*self, ks as int, square_attackers(*self, ks, opposite(self.turn)));
                    assert(cm.1 == is_in_double_check && cm.2 == capture_mask && cm.3 == push_mask);
                    assert(!cm.1 && bit(cm.3 | cm.2, t));
                    if kind == 1 {
                        assert(!bit(pinned, s));
                        assert(legal_shape(*self, m));
                    } else {
                        assert(!bit(pinned, s) || bit(pin_ray(*self, ks, friendly_occ(*self), enemy_occ(*self), s), t));
                        assert(legal_shape(*self, m));
                    }
                }
                lemma_extends_chain(v0, before, moves@, ls, q);
                assert forall|kd: int, s: u64, t: u64| 1 <= kd < kind + 1 && piece_move_for(*self, kd, false, s, t) && bit(masks, t)
                    && (!bit(pinned, s) || (kd != 1 && bit(pin_ray(*self, ks, friendly_occ(*self), enemy_occ(*self), s), t)))
                    implies #[trigger] has_plain_move(moves@, s, t, (kd + 6 * self.turn@) as u32, capture_at(*self, t)) by {
                    if kd < kind {
                        lemma_has_plain_grow(before, moves@, s, t, (kd + 6 * self.turn@) as u32, capture_at(*self, t));
                    } else {
                        assert(piece_kept(*self, kind as int, pinned_pieces, pin_rays, push_mask | capture_mask, s, t));
                    }
                }
            }
            kind = kind + 1;
        }

        // Pawn moves
        let ghost before = moves@;
        self.legal_pawn_moves(&mut moves, pinned_pieces, &pin_rays, push_mask, capture_mask);
        proof {
            let q = |m: BitPackedMove| is_pawn_move(*self, self.turn, false, m)
                && pawn_within(pinned_pieces, pin_rays, push_mask, push_mask | capture_mask, m);
            assert forall|i: int, j: int| 0 <= i < j < moves@.len() implies moves@[i] != moves@[j] by {
                if j >= before.len() {
                    assert(q(moves@[j]));
                    if i < before.len() {
                        assert(moves@[i] == before[i]);
                        assert(moves@[i].piece_idx() != moves@[j].piece_idx());
                    }
                } else {
                    assert(moves@[i] == before[i] && moves@[j] == before[j]);
                }
            }
            assert forall|m: BitPackedMove| #[trigger] q(m) implies ls(m) by {
                let s = m.from_sq() as u64;
                assert(pin_rays[s as int] == pin_ray(*self, ks, friendly_occ(*self), enemy_occ(*self), s));
            }
            lemma_extends_chain(v0, before, moves@, ls, q);
            assert(grows(v3, moves@));
            assert forall|t: u64| t < 64 && bit(king_targets(*self, ks), t)
                implies #[trigger] has_plain_move(moves@, ks, t, kp, capture_at(*self, t)) by {
                lemma_has_plain_grow(v3, moves@, ks, t, kp, capture_at(*self, t));
            }
            assert forall|side: int| 0 <= side < 4 && castle_allowed(*self, side) && square_attackers(*self, ks, opposite(self.turn)) == 0
                implies #[trigger] has_castle(moves@, side) by {
                lemma_has_castle_grow(v3, moves@, side);
            }
            assert forall|kd: int, s: u64, t: u64| 1 <= kd <= 4 && piece_move_for(*self, kd, false, s, t) && bit(masks, t)
                && (!bit(pinned, s) || (kd != 1 && bit(pin_ray(*self, ks, friendly_occ(*self), enemy_occ(*self), s), t)))
                implies #[trigger] has_plain_move(moves@, s, t, (kd + 6 * self.turn@) as u32, capture_at(*self, t)) by {
                lemma_has_plain_grow(before, moves@, s, t, (kd + 6 * self.turn@) as u32, capture_at(*self, t));
            }
            assert(pieces_complete(*self, ks, moves@));
            assert forall|s: u64| s < 64 && bit(self.bitboards@[6 * self.turn@ as int], s)
                implies #[trigger] legal_pawn_complete(*self, self.turn, pinned_mask(*self, ks, push_mask, s),
                    pinned_mask(*self, ks, push_mask | capture_mask, s), moves@, s) by {
                assert(pinned_mask(*self, ks, push_mask, s) == pawn_push_mask(pinned_pieces, pin_rays, push_mask, s));
                assert(pinned_mask(*self, ks, push_mask | capture_mask, s) == pawn_push_mask(pinned_pieces, pin_rays, push_mask | capture_mask, s));
            }
            assert(pawns_complete(*self, ks, moves@));
        }
        moves
    }
}

/// What `generate_legal_moves` promises of the list it gives for `pos`: distinct generated
/// moves of a legal shape, with every king step onto a king target, every castling
/// allowed when not in check, and every move of the other pieces and pawns it must list.
pub open spec fn legal_list(pos: Position, v: Seq<BitPackedMove>) -> bool {
    let k = vstd::std_specs::bits::u64_trailing_zeros(pos.bitboards@[5 + 6 * pos.turn@ as int]) as u64;
    &&& moves_ok(pos, v)
    &&& v.no_duplicates()
    &&& forall|i: int| 0 <= i < v.len() ==> legal_shape(pos, #[trigger] v[i])
    &&& forall|t: u64| t < 64 && bit(king_targets(pos, k), t)
        ==> #[trigger] has_plain_move(v, k, t, (5 + 6 * pos.turn@) as u32, capture_at(pos, t))
    &&& square_attackers(pos, k, opposite(pos.turn)) == 0
        ==> forall|side: int| 0 <= side < 4 && castle_allowed(pos, side) ==> #[trigger] has_castle(v, side)
    &&& pieces_complete(pos, k, v)
    &&& pawns_complete(pos, k, v)
}

/// A list the legal generator may give holds every move of a legal shape.
pub proof fn lemma_legal_list_exact(pos: Position, v: Seq<BitPackedMove>, m: BitPackedMove)
    requires
        pos.wf(),
        legal_list(pos, v),
        legal_shape(pos, m),
    ensures
        v.contains(m),
{
    let k = vstd::std_specs::bits::u64_trailing_zeros(pos.bitboards@[5 + 6 * pos.turn@ as int]) as u64;
    let cm = check_masks(pos, k as int, square_attackers(pos, k, opposite(pos.turn)));
    let pinned = pinned_set(pos, k, friendly_occ(pos), enemy_occ(pos));
    let s = m.from_sq() as u64;
    let t = m.to_sq() as u64;
    let c = pos.turn;
    if king_step(pos, m) {
        assert(has_plain_move(v, k, t, (5 + 6 * c@) as u32, capture_at(pos, t)));
        let i = choose|i: int| 0 <= i < v.len() && is_plain_move(#[trigger] v[i], k, t, (5 + 6 * c@) as u32, capture_at(pos, t));
        lemma_move_eq_by_fields(v[i], m);
    } else if !cm.0 && is_allowed_castle(pos, m) {
        let side = choose|side: int| 0 <= side < 4 && castle_allowed(pos, side) && #[trigger] is_castle_move(m, side);
        if square_attackers(pos, k, opposite(c)) != 0 {
            if popcount(square_attackers(pos, k, opposite(c))) == 0 {
                crate::utils::lemma_popcount_zero_empty(square_attackers(pos, k, opposite(c)));
            }
        }
        assert(has_castle(v, side));
        let i = choose|i: int| 0 <= i < v.len() && #[trigger] is_castle_move(v[i], side);
        lemma_move_eq_by_fields(v[i], m);
    } else if !cm.1 && is_pawn_move(pos, c, false, m)
        && (m.enpassant_flag() || bit(pinned_mask(pos, k, if m.capture_idx() == 12 { cm.3 } else { cm.3 | cm.2 }, s), t)) {
        let pawn = (6 * c@) as u32;
        let push = pinned_mask(pos, k, cm.3, s);
        let both = pinned_mask(pos, k, cm.3 | cm.2, s);
        lemma_mask_bits(pos.bitboards@[6 * c@ as int], if c == Color::White { RANK_8 } else { RANK_1 }, s);
        assert(bit(pos.bitboards@[6 * c@ as int], s));
        assert(legal_pawn_complete(pos, c, push, both, v, s));
        let occ = pos.occupancies[2];
        let targets = pawn_attacks(c, s) & pos.occupancies[1 - c@ as int];
        if m.enpassant_flag() {
            let e = pos.enpassant->0;
            assert(has_move(v, s, e as u64, pawn, 12, 12, true));
            let i = choose|i: int| 0 <= i < v.len() && #[trigger] move_is(v[i], s, e as u64, pawn, 12, 12, true);
            lemma_move_eq_by_fields(v[i], m);
        } else if bit(targets, t) && m.capture_idx() == capture_at(pos, t) {
            lemma_mask_bits(pawn_attacks(c, s), pos.occupancies[1 - c@ as int], t);
            lemma_bit_ops(pos.occupancies[0], pos.occupancies[1], t);
            lemma_occupied_has_piece(pos, t);
            assert(m.capture_idx() != 12);
            assert(has_move(v, s, t, pawn, capture_at(pos, t), m.promotion_idx(), false));
            let i = choose|i: int| 0 <= i < v.len() && #[trigger] move_is(v[i], s, t, pawn, capture_at(pos, t), m.promotion_idx(), false);
            lemma_move_eq_by_fields(v[i], m);
        } else {
            assert(m.capture_idx() == 12);
            assert(has_move(v, s, t, pawn, 12, m.promotion_idx(), false));
            let i = choose|i: int| 0 <= i < v.len() && #[trigger] move_is(v[i], s, t, pawn, 12, m.promotion_idx(), false);
            lemma_move_eq_by_fields(v[i], m);
        }
    } else {
        let kind: int = if is_piece_move(pos, 1, false, m) { 1 } else if is_piece_move(pos, 2, false, m) { 2 }
            else if is_piece_move(pos, 3, false, m) { 3 } else { 4 };
        assert(piece_move_for(pos, kind, false, s, t));
        assert(has_plain_move(v, s, t, (kind + 6 * c@) as u32, capture_at(pos, t)));
        let i = choose|i: int| 0 <= i < v.len() && is_plain_move(#[trigger] v[i], s, t, (kind + 6 * c@) as u32, capture_at(pos, t));
        lemma_move_eq_by_fields(v[i], m);
    }
}

/// Every castling move a legal list holds takes the king from a square the opponent does not
/// attack to a square the opponent does not attack, across a square the opponent does not
/// attack.
pub proof fn law_castling_king_squares_safe(pos: Position, v: Seq<BitPackedMove>, m: BitPackedMove)
    requires
        pos.wf(),
        legal_list(pos, v),
        v.contains(m),
        m.castle_flag(),
    ensures
        attackers(pos.bitboards@, m.from_sq() as u64, opposite(pos.turn), pos.occupancies[2]) == 0,
        attackers(pos.bitboards@, m.to_sq() as u64, opposite(pos.turn), pos.occupancies[2]) == 0,
        attackers(pos.bitboards@, ((m.from_sq() + m.to_sq()) / 2) as u64, opposite(pos.turn), pos.occupancies[2]) == 0,
{
    let i = choose|i: int| 0 <= i < v.len() && v[i] == m;
    assert(legal_shape(pos, v[i]));
    assert(is_allowed_castle(pos, m));
    let side = choose|side: int| 0 <= side < 4 && castle_allowed(pos, side) && #[trigger] is_castle_move(m, side);
    assert(is_castle_move(m, side));
}

/// The one square set in a bitboard with a single set square is its lowest, and it counts one.
proof fn lemma_single_square(b: u64, c: u64)
    requires
        c < 64,
        forall|j: u64| j < 64 ==> #[trigger] bit(b, j) == (j == c),
    ensures
        popcount(b) == 1,
        vstd::std_specs::bits::u64_trailing_zeros(b) == c,
{
    vstd::std_specs::bits::axiom_u64_trailing_zeros(b);
    if b == 0 {
        lemma_bit_ops(0u64, 0u64, c);
    }
    let tz = vstd::std_specs::bits::u64_trailing_zeros(b);
    assert(bit(b, tz as u64));
    crate::utils::lemma_popcount_clear(b, c);
    assert forall|j: u64| j < 64 implies bit(b & !(1u64 << c), j) == bit(0u64, j) by {
        lemma_bit_ops(b, !(1u64 << c), j);
        lemma_bit_ops(1u64 << c, 0u64, j);
        lemma_bit_single(j, c);
    }
    crate::utils::lemma_bits_ext(b & !(1u64 << c), 0u64);
    crate::utils::lemma_popcount_zero();
}

/// With one checker, a bishop, rook or queen on `c`, every knight, bishop, rook or queen of the
/// side to move that is not pinned to its king and can reach a square strictly between the
/// king and the checker has that block in the legal list.
pub proof fn law_slider_check_can_be_blocked(pos: Position, v: Seq<BitPackedMove>, c: u64, kind: int, s: u64, t: u64)
    requires
        pos.wf(),
        legal_list(pos, v),
        c < 64,
        ({
            let k = vstd::std_specs::bits::u64_trailing_zeros(pos.bitboards@[5 + 6 * pos.turn@ as int]) as u64;
            forall|j: u64| j < 64 ==> #[trigger] bit(square_attackers(pos, k, opposite(pos.turn)), j) == (j == c)
        }),
        ({
            let checker = piece_on(pos.bitboards@, pos.occupancies[0], c)@;
            checker < 12 && 2 <= checker % 6 <= 4
        }),
        1 <= kind <= 4,
        piece_move_for(pos, kind, false, s, t),
        !bit(pinned_set(pos, vstd::std_specs::bits::u64_trailing_zeros(pos.bitboards@[5 + 6 * pos.turn@ as int]) as u64,
            friendly_occ(pos), enemy_occ(pos)), s),
        t < 64,
        bit(between(vstd::std_specs::bits::u64_trailing_zeros(pos.bitboards@[5 + 6 * pos.turn@ as int]) as int, c as int), t),
    ensures
        has_plain_move(v, s, t, (kind + 6 * pos.turn@) as u32, capture_at(pos, t)),
{
    let k = vstd::std_specs::bits::u64_trailing_zeros(pos.bitboards@[5 + 6 * pos.turn@ as int]) as u64;
    let checkers = square_attackers(pos, k, opposite(pos.turn));
    lemma_single_square(checkers, c);
    let cm = check_masks(pos, k as int, checkers);
    assert(cm.3 == between(k as int, c as int));
    lemma_bit_ops(cm.3, cm.2, t);
    assert(pieces_complete(pos, k, v));
}

/// Whether the side to move has a king and no pawn stands on its last rank, so that its legal
/// moves can be generated.
pub open spec fn movegen_ready(pos: Position) -> bool {
    &&& pos.bitboards@[5 + 6 * pos.turn@ as int] != 0
    &&& pawns_on_inner_ranks(pos)
}

/// The stacks below `d` hold the same entries in both positions, and the stacks keep their sizes.
pub open spec fn stacks_kept_below(a: Position, b: Position, d: int) -> bool {
    &&& a.position_stack@.len() == b.position_stack@.len()
    &&& a.move_list_stack@.len() == b.move_list_stack@.len()
    &&& forall|k: int| 0 <= k < d ==> #[trigger] a.position_stack@[k] == b.position_stack@[k]
    &&& forall|k: int| 0 <= k < d ==> #[trigger] a.move_list_stack@[k] == b.move_list_stack@[k]
}

impl Position {
    /// Whether legal moves can be generated for the side to move.
    pub fn is_movegen_ready(&self) -> (r: bool)
        ensures
            r == movegen_ready(*self),
    {
        self.bitboards[5 + 6 * self.turn.to_index()] != 0 && self.bitboards[0] & 0xFF == 0
            && self.bitboards[6] & 0xFF00000000000000 == 0
    }

    /// Counts the leaf nodes of the tree of legal moves `depth` plies deep, and leaves the
    /// position as it found it. A position whose side to move has no king, or that has a pawn
    /// on its last rank, has no moves to count.
    pub fn perft(&mut self, depth: u8) -> (nodes: u64)
        requires
            old(self).wf(),
            depth > 0 ==> old(self).depth + depth <= STACK_SIZE,
        ensures
            nodes == capped(perft_count(*old(self), depth as nat)),
            depth > 0 && old(self).position_stack@[old(self).depth as int].fullmove_number == old(self).fullmove_number
                ==> final(self).fullmove_number == old(self).fullmove_number,
            depth > 0 && movegen_ready(*old(self)) ==> legal_list(*old(self), final(self).move_list_stack@[old(self).depth as int]@)
                && final(self).move_list_stack@[old(self).depth as int]@.no_duplicates(),
            same_board_state(*old(self), *final(self)),
            same_keys_and_lists_but_moves(*old(self), *final(self)),
            final(self).depth == old(self).depth,
            stacks_kept_below(*old(self), *final(self), old(self).depth as int),
            final(self).wf(),
            depth == 0 ==> nodes == 1 && *final(self) == *old(self),
            depth > 0 && !movegen_ready(*old(self)) ==> nodes == 0,
            depth == 1 && movegen_ready(*old(self)) ==> nodes == accepted_count(*old(self), final(self).move_list_stack@[old(self).depth as int]@),
        decreases depth,
    {
        if depth == 0 {
            return 1;
        }
        if !self.is_movegen_ready() {
            return 0;
        }
        let mut nodes: u64 = 0;
        let ghost pre = *self;
        self.generate_legal_moves();
        let d = self.depth;
        let num_moves = self.move_list_stack[d].len();
        let ghost list = self.move_list_stack@[d as int];
        let ghost f = |m: BitPackedMove| child_term(pre, (depth - 1) as nat, m);
        proof {
            assert(legal_list(pre, list@));
        }
        let mut i: usize = 0;
        while i < num_moves
            invariant
                d == pre.depth,
                d + depth <= STACK_SIZE,
                depth >= 1,
                self.depth == d,
                self.wf(),
                same_board_state(pre, *self),
                same_keys_and_lists_but_moves(pre, *self),
                stacks_kept_below(pre, *self, d as int),
                self.move_list_stack@[d as int] == list,
                num_moves == list@.len(),
                moves_ok(pre, list@),
                i <= num_moves,
                depth == 1 ==> nodes == accepted_count(pre, list@.subrange(0, i as int)),
                depth == 1 ==> nodes <= i,
                f == (|m: BitPackedMove| child_term(pre, (depth - 1) as nat, m)),
                nodes == capped(list_sum(list@.subrange(0, i as int), f)),
                legal_list(pre, list@),
                list@.no_duplicates(),
                self.position_stack@[d as int].fullmove_number == pre.position_stack@[d as int].fullmove_number,
                self.fullmove_number == pre.fullmove_number || self.fullmove_number == pre.position_stack@[d as int].fullmove_number,
            decreases num_moves - i,
        {
            let m = self.move_list_stack[d][i];
            proof {
                assert(list@.subrange(0, i + 1).drop_last() =~= list@.subrange(0, i as int));
                assert(list@.subrange(0, i + 1).last() == m);
            }
            let ghost before = *self;
            proof {
                assert(generated_move_ok(pre, list@[i as int]));
            }
            if !self.make_move(&m, false) {
                proof {
                    assert(m.enpassant_flag());
                    assert(enpassant_exposes_king(pre, m));
                    assert(f(m) == 0);
                }
                i = i + 1;
                continue;
            }
            let ghost mid = *self;
            let n = self.perft(depth - 1);
            let ghost after_child = *self;
            proof {
                assert(!enpassant_exposes_king(pre, m));
                let c = child_of(pre, m);
                lemma_bitboards_of(moved_bitboards(pre.bitboards@, pre.occupancies[0], pre.occupancies[2], m, pre.turn));
                lemma_castling_of(moved_castling(pre.castling@, m));
                assert(boards_agree(mid, c));
                lemma_perft_count_agree(mid, c, (depth - 1) as nat);
                assert(f(m) == perft_count(c, (depth - 1) as nat));
            }
            nodes = nodes.saturating_add(n);
            self.unmake_move();
            proof {
                assert(unmake_move_post(after_child, *self));
                assert(self.position_stack@[d as int] == mid.position_stack@[d as int]);
                assert forall|k: int| 0 <= k < d implies #[trigger] self.position_stack@[k]
                    == pre.position_stack@[k] && self.move_list_stack@[k] == pre.move_list_stack@[k] by {
                    assert(mid.position_stack@[k] == before.position_stack@[k]);
                    assert(after_child.position_stack@[k] == mid.position_stack@[k]);
                    assert(after_child.move_list_stack@[k] == mid.move_list_stack@[k]);
                }
            }
            i = i + 1;
        }
        proof {
            assert(list@.subrange(0, i as int) =~= list@);
            assert forall|m: BitPackedMove| #[trigger] list@.contains(m) == legal_shape(pre, m) by {
                if list@.contains(m) {
                    let j = choose|j: int| 0 <= j < list@.len() && list@[j] == m;
                    assert(legal_shape(pre, list@[j]));
                }
                if legal_shape(pre, m) {
                    lemma_legal_list_exact(pre, list@, m);
                }
            }
            assert(lists_legal_moves(pre, list@));
            let lm = legal_moves_of(pre);
            assert(lists_legal_moves(pre, lm));
            assert forall|m: BitPackedMove| #[trigger] lm.contains(m) == list@.contains(m) by {
                assert(lm.contains(m) == legal_shape(pre, m));
            }
            lemma_list_sum_perm(lm, list@, f);
            lemma_children_count_sum(pre, lm, (depth - 1) as nat, f);
        }
        nodes
    }
}

/// A count as a 64-bit number: the count, or `u64::MAX` when it is larger.
pub open spec fn capped(n: nat) -> u64 {
    if n < u64::MAX { n as u64 } else { u64::MAX }
}

/// The twelve piece bitboards of a sequence of them.
pub open spec fn bitboards_of(s: Seq<u64>) -> [u64; 12] {
    [s[0], s[1], s[2], s[3], s[4], s[5], s[6], s[7], s[8], s[9], s[10], s[11]]
}

/// The array built from twelve bitboards views as them.
pub proof fn lemma_bitboards_of(s: Seq<u64>)
    requires
        s.len() == 12,
    ensures
        bitboards_of(s)@ == s,
{
    assert(bitboards_of(s)@ =~= s);
}

/// The board `make_move` leaves after playing `m` in `pos`: the pieces moved, the occupancies
/// they give, the other side to move, the new en passant square and castling rights (the other
/// fields as in `pos`; a count of moves reads only the board).
pub open spec fn child_of(pos: Position, m: BitPackedMove) -> Position {
    let bb = moved_bitboards(pos.bitboards@, pos.occupancies[0], pos.occupancies[2], m, pos.turn);
    Position {
        bitboards: bitboards_of(bb),
        occupancies: [white_occupancy(bb), black_occupancy(bb), white_occupancy(bb) | black_occupancy(bb)],
        turn: opposite(pos.turn),
        enpassant: moved_enpassant(m),
        castling: castling_of(moved_castling(pos.castling@, m)),
        ..pos
    }
}

/// The list holds the legal moves of the position, once each: it has no duplicates and holds
/// exactly the moves of a legal shape.
pub open spec fn lists_legal_moves(pos: Position, v: Seq<BitPackedMove>) -> bool {
    v.no_duplicates() && forall|m: BitPackedMove| #[trigger] v.contains(m) == legal_shape(pos, m)
}

/// A list of the legal moves of the position, once each.
pub open spec fn legal_moves_of(pos: Position) -> Seq<BitPackedMove> {
    choose|v: Seq<BitPackedMove>| lists_legal_moves(pos, v)
}

/// The sum of `f` over the moves of a list.
pub open spec fn list_sum(v: Seq<BitPackedMove>, f: spec_fn(BitPackedMove) -> nat) -> nat
    decreases v.len(),
{
    if v.len() == 0 {
        0
    } else {
        list_sum(v.drop_last(), f) + f(v.last())
    }
}

/// The number of leaves of the tree of legal moves `depth` plies deep: one at depth zero; none
/// when legal moves cannot be generated; else the sum, over the legal moves `make_move`
/// plays, of the count below each.
pub open spec fn perft_count(pos: Position, depth: nat) -> nat
    decreases depth, 0nat,
{
    if depth == 0 {
        1
    } else if !movegen_ready(pos) || !(exists|v: Seq<BitPackedMove>| lists_legal_moves(pos, v)) {
        0
    } else {
        children_count(pos, legal_moves_of(pos), (depth - 1) as nat)
    }
}

/// The sum, over the moves of `v` that `make_move` plays in `pos`, of the count `depth` plies
/// below each.
pub open spec fn children_count(pos: Position, v: Seq<BitPackedMove>, depth: nat) -> nat
    decreases depth, v.len(),
{
    if v.len() == 0 {
        0
    } else {
        children_count(pos, v.drop_last(), depth) + if !enpassant_exposes_king(pos, v.last()) {
            perft_count(child_of(pos, v.last()), depth)
        } else {
            0
        }
    }
}

/// The count below one move.
pub open spec fn child_term(pos: Position, depth: nat, m: BitPackedMove) -> nat {
    if !enpassant_exposes_king(pos, m) { perft_count(child_of(pos, m), depth) } else { 0 }
}

/// The children's count is the sum of their terms.
proof fn lemma_children_count_sum(pos: Position, v: Seq<BitPackedMove>, depth: nat, f: spec_fn(BitPackedMove) -> nat)
    requires
        forall|m: BitPackedMove| #[trigger] f(m) == child_term(pos, depth, m),
    ensures
        children_count(pos, v, depth) == list_sum(v, f),
    decreases v.len(),
{
    if v.len() > 0 {
        lemma_children_count_sum(pos, v.drop_last(), depth, f);
        assert(f(v.last()) == child_term(pos, depth, v.last()));
    }
}

/// The two positions have the same board: pieces, occupancies, side to move, en passant square
/// and castling rights.
pub open spec fn boards_agree(a: Position, b: Position) -> bool {
    &&& a.bitboards@ == b.bitboards@
    &&& a.occupancies[0] == b.occupancies[0]
    &&& a.occupancies[1] == b.occupancies[1]
    &&& a.occupancies[2] == b.occupancies[2]
    &&& a.turn == b.turn
    &&& a.enpassant == b.enpassant
    &&& a.castling@ == b.castling@
}

/// Dropping the `j`th move of a list takes its term out of the sum.
proof fn lemma_list_sum_remove(w: Seq<BitPackedMove>, j: int, f: spec_fn(BitPackedMove) -> nat)
    requires
        0 <= j < w.len(),
    ensures
        list_sum(w, f) == list_sum(w.remove(j), f) + f(w[j]),
    decreases w.len(),
{
    if j == w.len() - 1 {
        assert(w.remove(j) =~= w.drop_last());
    } else {
        lemma_list_sum_remove(w.drop_last(), j, f);
        assert(w.remove(j).drop_last() =~= w.drop_last().remove(j));
        assert(w.remove(j).last() == w.last());
    }
}

/// Two duplicate-free lists of the same moves have the same sum.
proof fn lemma_list_sum_perm(v: Seq<BitPackedMove>, w: Seq<BitPackedMove>, f: spec_fn(BitPackedMove) -> nat)
    requires
        v.no_duplicates(),
        w.no_duplicates(),
        forall|m: BitPackedMove| #[trigger] v.contains(m) == w.contains(m),
    ensures
        list_sum(v, f) == list_sum(w, f),
    decreases v.len(),
{
    if v.len() == 0 {
        if w.len() > 0 {
            assert(w.contains(w[0]));
            assert(v.contains(w[0]));
        }
    } else {
        let x = v.last();
        assert(v.contains(x));
        let j = choose|j: int| 0 <= j < w.len() && w[j] == x;
        let v1 = v.drop_last();
        let w1 = w.remove(j);
        assert forall|m: BitPackedMove| #[trigger] v1.contains(m) == w1.contains(m) by {
            if v1.contains(m) {
                let i = choose|i: int| 0 <= i < v1.len() && v1[i] == m;
                assert(v[i] == m && i != v.len() - 1);
                assert(m != x);
                assert(v.contains(m));
                let k = choose|k: int| 0 <= k < w.len() && w[k] == m;
                assert(k != j);
                if k < j {
                    assert(w1[k] == m);
                } else {
                    assert(w1[k - 1] == m);
                }
            }
            if w1.contains(m) {
                let k = choose|k: int| 0 <= k < w1.len() && w1[k] == m;
                let kk = if k < j { k } else { k + 1 };
                assert(w[kk] == m && kk != j);
                assert(m != x);
                assert(w.contains(m));
                assert(v.contains(m));
                let i = choose|i: int| 0 <= i < v.len() && v[i] == m;
                assert(v.last() == v[v.len() - 1]);
                assert(i != v.len() - 1);
                assert(v1[i] == m);
            }
        }
        lemma_list_sum_perm(v1, w1, f);
        lemma_list_sum_remove(w, j, f);
        assert(list_sum(v, f) == list_sum(v1, f) + f(x));
    }
}

/// Sums of equal functions over a list are equal.
proof fn lemma_list_sum_ext(v: Seq<BitPackedMove>, f: spec_fn(BitPackedMove) -> nat, g: spec_fn(BitPackedMove) -> nat)
    requires
        forall|m: BitPackedMove| #[trigger] f(m) == g(m),
    ensures
        list_sum(v, f) == list_sum(v, g),
    decreases v.len(),
{
    if v.len() > 0 {
        lemma_list_sum_ext(v.drop_last(), f, g);
    }
}

/// Whether a move has a legal shape reads only the board.
#[verifier::spinoff_prover]
#[verifier::rlimit(60)]
proof fn lemma_legal_shape_agree(a: Position, b: Position, m: BitPackedMove)
    requires
        boards_agree(a, b),
    ensures
        legal_shape(a, m) == legal_shape(b, m),
{
}

/// The count of moves reads only the board.
#[verifier::spinoff_prover]
pub proof fn lemma_perft_count_agree(a: Position, b: Position, depth: nat)
    requires
        boards_agree(a, b),
    ensures
        perft_count(a, depth) == perft_count(b, depth),
    decreases depth,
{
    assert forall|v: Seq<BitPackedMove>| lists_legal_moves(a, v) == lists_legal_moves(b, v) by {
        assert forall|m: BitPackedMove| legal_shape(a, m) == legal_shape(b, m) by {
            lemma_legal_shape_agree(a, b, m);
        }
    }
    if depth > 0 && movegen_ready(a) && exists|v: Seq<BitPackedMove>| lists_legal_moves(a, v) {
        let va = legal_moves_of(a);
        let vb = legal_moves_of(b);
        assert(lists_legal_moves(a, va));
        assert(lists_legal_moves(b, vb));
        let fa = |m: BitPackedMove| child_term(a, (depth - 1) as nat, m);
        let fb = |m: BitPackedMove| child_term(b, (depth - 1) as nat, m);
        lemma_children_count_sum(a, va, (depth - 1) as nat, fa);
        lemma_children_count_sum(b, vb, (depth - 1) as nat, fb);
        assert forall|m: BitPackedMove| #[trigger] fa(m) == fb(m) by {
            assert(enpassant_exposes_king(a, m) == enpassant_exposes_king(b, m));
            lemma_castling_of(moved_castling(a.castling@, m));
            lemma_perft_count_agree(child_of(a, m), child_of(b, m), (depth - 1) as nat);
        }
        lemma_list_sum_ext(va, fa, fb);
        assert forall|m: BitPackedMove| #[trigger] va.contains(m) == vb.contains(m) by {
            assert(va.contains(m) == legal_shape(a, m));
            assert(vb.contains(m) == legal_shape(b, m));
        }
        lemma_list_sum_perm(va, vb, fb);
        assert(perft_count(a, depth) == list_sum(va, fa));
        assert(perft_count(b, depth) == list_sum(vb, fb));
    } else {
        assert(movegen_ready(a) == movegen_ready(b));
    }
}

/// How many moves of the list `make_move` plays in the position: all but the en passant
/// captures that leave the mover's king attacked.
pub open spec fn accepted_count(pos: Position, v: Seq<BitPackedMove>) -> nat
    decreases v.len(),
{
    if v.len() == 0 {
        0
    } else {
        accepted_count(pos, v.drop_last()) + (if enpassant_exposes_king(pos, v.last()) { 0nat } else { 1nat })
    }
}

/// The sum of the counts, each addition saturating at `u64::MAX`.
pub open spec fn saturating_total(counts: Seq<(BitPackedMove, u64)>) -> u64
    decreases counts.len(),
{
    if counts.len() == 0 {
        0
    } else {
        let rest = saturating_total(counts.drop_last());
        let n = counts.last().1;
        if rest + n > u64::MAX { u64::MAX } else { (rest + n) as u64 }
    }
}

/// The counts of a perft run by depth: nodes, and the captures, en passant captures, castlings,
/// promotions, checks, discovered checks, double checks and checkmates among them.
#[derive(Debug, Clone, Copy)]
pub struct PerftResult {
    pub depth: u8,
    pub nodes: u64,
    pub captures: u64,
    pub enpassants: u64,
    pub castles: u64,
    pub promotions: u64,
    pub checks: u64,
    pub discovery_checks: u64,
    pub double_checks: u64,
    pub checkmates: u64,
}

impl PerftResult {
    /// The counts of two runs added field by field; the depth is this run's.
    pub fn add(self, other: PerftResult) -> (r: PerftResult)
        requires
            self.nodes + other.nodes <= u64::MAX,
            self.captures + other.captures <= u64::MAX,
            self.enpassants + other.enpassants <= u64::MAX,
            self.castles + other.castles <= u64::MAX,
            self.promotions + other.promotions <= u64::MAX,
            self.checks + other.checks <= u64::MAX,
            self.discovery_checks + other.discovery_checks <= u64::MAX,
            self.double_checks + other.double_checks <= u64::MAX,
            self.checkmates + other.checkmates <= u64::MAX,
        ensures
            r.depth == self.depth,
            r.nodes == self.nodes + other.nodes,
            r.captures == self.captures + other.captures,
            r.enpassants == self.enpassants + other.enpassants,
            r.castles == self.castles + other.castles,
            r.promotions == self.promotions + other.promotions,
            r.checks == self.checks + other.checks,
            r.discovery_checks == self.discovery_checks + other.discovery_checks,
            r.double_checks == self.double_checks + other.double_checks,
            r.checkmates == self.checkmates + other.checkmates,
    {
        PerftResult {
            depth: self.depth,
            nodes: self.nodes + other.nodes,
            captures: self.captures + other.captures,
            enpassants: self.enpassants + other.enpassants,
            castles: self.castles + other.castles,
            promotions: self.promotions + other.promotions,
            checks: self.checks + other.checks,
            discovery_checks: self.discovery_checks + other.discovery_checks,
            double_checks: self.double_checks + other.double_checks,
            checkmates: self.checkmates + other.checkmates,
        }
    }
}

impl Position {
    /// Perft split by root move: the legal moves generated at the root, and for each one
    /// `make_move` accepts, the leaf count of the tree `depth - 1` plies below it. Returns the
    /// total, the number of moves generated at the root, and the count of each move played, in
    /// the order of the list. The position is left as it was found.
    pub fn divide_perft(&mut self, depth: u8) -> (r: (u64, usize, Vec<(BitPackedMove, u64)>))
        requires
            old(self).wf(),
            depth > 0 ==> old(self).depth + depth <= STACK_SIZE,
        ensures
            same_board_state(*old(self), *final(self)),
            same_keys_and_lists_but_moves(*old(self), *final(self)),
            final(self).depth == old(self).depth,
            stacks_kept_below(*old(self), *final(self), old(self).depth as int),
            final(self).wf(),
            depth == 0 ==> r.0 == 1 && r.1 == 0 && r.2@.len() == 0,
            depth > 0 && movegen_ready(*old(self)) ==> {
                &&& r.0 == saturating_total(r.2@)
                &&& r.2@.len() <= r.1
                &&& r.1 == final(self).move_list_stack@[old(self).depth as int]@.len()
                &&& forall|i: int| 0 <= i < r.2@.len() ==> {
                    let (m, n) = #[trigger] r.2@[i];
                    &&& final(self).move_list_stack@[old(self).depth as int]@.contains(m)
                    &&& generated_move_ok(*old(self), m)
                    &&& !enpassant_exposes_king(*old(self), m)
                    &&& n == capped(perft_count(child_of(*old(self), m), (depth - 1) as nat))
                }
                &&& legal_list(*old(self), final(self).move_list_stack@[old(self).depth as int]@)
            },
            r.0 == capped(perft_count(*old(self), depth as nat)),
            depth > 0 && !movegen_ready(*old(self)) ==> r.0 == 0 && r.1 == 0 && r.2@.len() == 0,
    {
        let mut results: Vec<(BitPackedMove, u64)> = Vec::new();
        if depth == 0 {
            return (1, 0, results);
        }
        if !self.is_movegen_ready() {
            return (0, 0, results);
        }
        let mut nodes: u64 = 0;
        let ghost pre = *self;
        self.generate_legal_moves();
        let d = self.depth;
        let num_moves = self.move_list_stack[d].len();
        let ghost list = self.move_list_stack@[d as int];
        let ghost f = |m: BitPackedMove| child_term(pre, (depth - 1) as nat, m);
        proof {
            assert(legal_list(pre, list@));
        }
        let mut i: usize = 0;
        while i < num_moves
            invariant
                d == pre.depth,
                d + depth <= STACK_SIZE,
                depth >= 1,
                i <= num_moves,
                self.depth == d,
                self.wf(),
                same_board_state(pre, *self),
                same_keys_and_lists_but_moves(pre, *self),
                stacks_kept_below(pre, *self, d as int),
                self.move_list_stack@[d as int] == list,
                num_moves == list@.len(),
                moves_ok(pre, list@),
                nodes == saturating_total(results@),
                results@.len() <= i,
                forall|k: int| 0 <= k < results@.len() ==> {
                    let (m, n) = #[trigger] results@[k];
                    &&& list@.contains(m)
                    &&& generated_move_ok(pre, m)
                    &&& !enpassant_exposes_king(pre, m)
                    &&& n == capped(perft_count(child_of(pre, m), (depth - 1) as nat))
                },
                f == (|m: BitPackedMove| child_term(pre, (depth - 1) as nat, m)),
                nodes == capped(list_sum(list@.subrange(0, i as int), f)),
                legal_list(pre, list@),
                list@.no_duplicates(),
            decreases num_moves - i,
        {
            let m = self.move_list_stack[d][i];
            proof {
                assert(list@.subrange(0, i + 1).drop_last() =~= list@.subrange(0, i as int));
                assert(list@.subrange(0, i + 1).last() == m);
            }
            let ghost before = *self;
            proof {
                assert(generated_move_ok(pre, list@[i as int]));
            }
            if !self.make_move(&m, false) {
                proof {
                    assert(enpassant_exposes_king(pre, m));
                    assert(f(m) == 0);
                }
                i = i + 1;
                continue;
            }
            let ghost mid = *self;
            let n = self.perft(depth - 1);
            let ghost after_child = *self;
            proof {
                assert(!enpassant_exposes_king(pre, m));
                let c = child_of(pre, m);
                lemma_bitboards_of(moved_bitboards(pre.bitboards@, pre.occupancies[0], pre.occupancies[2], m, pre.turn));
                lemma_castling_of(moved_castling(pre.castling@, m));
                assert(boards_agree(mid, c));
                lemma_perft_count_agree(mid, c, (depth - 1) as nat);
                assert(f(m) == perft_count(c, (depth - 1) as nat));
            }
            let ghost old_results = results@;
            nodes = nodes.saturating_add(n);
            results.push((m, n));
            self.unmake_move();
            proof {
                assert(unmake_move_post(after_child, *self));
                assert(self.position_stack@[d as int] == mid.position_stack@[d as int]);
                assert forall|k: int| 0 <= k < d implies #[trigger] self.position_stack@[k]
                    == pre.position_stack@[k] && self.move_list_stack@[k] == pre.move_list_stack@[k] by {
                    assert(mid.position_stack@[k] == before.position_stack@[k]);
                    assert(after_child.position_stack@[k] == mid.position_stack@[k]);
                    assert(after_child.move_list_stack@[k] == mid.move_list_stack@[k]);
                }
                assert(results@.drop_last() == old_results);
                assert(list@[i as int] == m);
                assert forall|k: int| 0 <= k < results@.len() implies {
                    let (m2, n2) = #[trigger] results@[k];
                    &&& list@.contains(m2)
                    &&& generated_move_ok(pre, m2)
                    &&& !enpassant_exposes_king(pre, m2)
                    &&& n2 == capped(perft_count(child_of(pre, m2), (depth - 1) as nat))
                } by {
                    if k < old_results.len() {
                        assert(results@[k] == old_results[k]);
                    }
                }
            }
            i = i + 1;
        }
        proof {
            assert(list@.subrange(0, i as int) =~= list@);
            assert forall|m: BitPackedMove| #[trigger] list@.contains(m) == legal_shape(pre, m) by {
                if list@.contains(m) {
                    let j = choose|j: int| 0 <= j < list@.len() && list@[j] == m;
                    assert(legal_shape(pre, list@[j]));
                }
                if legal_shape(pre, m) {
                    lemma_legal_list_exact(pre, list@, m);
                }
            }
            assert(lists_legal_moves(pre, list@));
            let lm = legal_moves_of(pre);
            assert(lists_legal_moves(pre, lm));
            assert forall|m: BitPackedMove| #[trigger] lm.contains(m) == list@.contains(m) by {
                assert(lm.contains(m) == legal_shape(pre, m));
            }
            lemma_list_sum_perm(lm, list@, f);
            lemma_children_count_sum(pre, lm, (depth - 1) as nat, f);
        }
        (nodes, num_moves, results)
    }
}

/// The keys and the fields no move touches agree, the move lists aside.
pub open spec fn same_keys_and_lists_but_moves(a: Position, b: Position) -> bool {
    &&& a.rand_seed == b.rand_seed
    &&& a.zobrist_piece_keys == b.zobrist_piece_keys
    &&& a.zobrist_castling_keys == b.zobrist_castling_keys
    &&& a.zobrist_enpassant_keys == b.zobrist_enpassant_keys
    &&& a.zobrist_turn_key == b.zobrist_turn_key
    &&& a.opponent_attack_map == b.opponent_attack_map
}

} // verus!
