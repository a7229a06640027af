use vstd::prelude::*;

verus! {

use crate::board::{Position, white_occupancy, black_occupancy, piece_on};
use crate::board::attacks::{knight_attacks, king_attacks, bishop_attacks, rook_attacks, pawn_attacks, mask_knight_attacks, mask_king_attacks, mask_pawn_attacks};
use crate::chess::constants::{RANK_8, RANK_1};
use crate::utils::get_lsb;
use crate::board::query::attackers;
use crate::chess::color::{Color, opposite};
use crate::chess::piece::Piece;
use crate::chess::_move::BitPackedMove;
use crate::movegen::{generated_move_ok, moves_ok, friendly_occ, enemy_occ, lemma_mask_bits, lemma_occupied_has_piece, lemma_outside_both_empty, is_allowed_castle, castle_allowed, has_castle, is_castle_move};
use crate::chess::_move::lemma_move_eq_by_fields;
use crate::board::query::in_check;
use crate::board::make::ep_victim_square;
use crate::utils::{bit, get_bit, pop_lsb, lemma_bit_ops, lemma_bit_single};

/// The piece a move onto `sq` records as taken: the piece standing there, or the empty piece
/// (12) when the square is empty.
pub open spec fn capture_at(pos: Position, sq: u64) -> u32 {
    if bit(pos.occupancies[2], sq) {
        piece_on(pos.bitboards@, pos.occupancies[0], sq)@ as u32
    } else {
        12
    }
}

/// Whether `m` moves `piece` from `from` to `to` recording `capture` as taken, with no
/// promotion, castling or en passant.
pub open spec fn is_plain_move(m: BitPackedMove, from: u64, to: u64, piece: u32, capture: u32) -> bool {
    &&& m.from_sq() == from
    &&& m.to_sq() == to
    &&& m.piece_idx() == piece
    &&& m.capture_idx() == capture
    &&& m.promotion_idx() == 12
    &&& !m.castle_flag()
    &&& !m.enpassant_flag()
}

/// Whether the list holds such a plain move.
pub open spec fn has_plain_move(v: Seq<BitPackedMove>, from: u64, to: u64, piece: u32, capture: u32) -> bool {
    exists|i: int| 0 <= i < v.len() && is_plain_move(#[trigger] v[i], from, to, piece, capture)
}

/// The squares a knight (1), bishop (2), rook (3), queen (4) or king (5) on `s` attacks given
/// the occupancy.
pub open spec fn kind_reach(kind: int, s: u64, occ: u64) -> u64 {
    if kind == 1 {
        knight_attacks(s)
    } else if kind == 2 {
        bishop_attacks(s as int, occ)
    } else if kind == 3 {
        rook_attacks(s as int, occ)
    } else if kind == 4 {
        bishop_attacks(s as int, occ) | rook_attacks(s as int, occ)
    } else {
        king_attacks(s)
    }
}

/// The squares a piece of kind `kind` of the side to move on `s` may go to: the squares it
/// attacks that hold no piece of its own side, and only those holding an opponent's piece when
/// only captures are asked for.
pub open spec fn pseudo_targets(pos: Position, kind: int, s: u64, only_captures: bool) -> u64 {
    let friendly = friendly_occ(pos);
    let enemy = enemy_occ(pos);
    let t = kind_reach(kind, s, friendly | enemy) & !friendly;
    if only_captures {
        t & enemy
    } else {
        t
    }
}

/// Whether the king of the side to move, lifted from `s`, would not be attacked on `t`.
pub open spec fn king_target_safe(pos: Position, s: u64, t: u64) -> bool {
    let k = 5 + 6 * pos.turn@ as int;
    let bb = pos.bitboards@.update(k, pos.bitboards@[k] & !(1u64 << s));
    attackers(bb, t, opposite(pos.turn), white_occupancy(bb) | black_occupancy(bb)) == 0
}

/// Whether a piece of kind `kind` (1 to 5) of the side to move goes from `s` to `t` in a
/// pseudo-legal move: one stands on `s`, `t` is one of its targets, and a king does not step
/// onto an attacked square.
pub open spec fn piece_move_for(pos: Position, kind: int, only_captures: bool, s: u64, t: u64) -> bool {
    &&& s < 64
    &&& t < 64
    &&& bit(pos.bitboards@[kind + 6 * pos.turn@ as int], s)
    &&& bit(pseudo_targets(pos, kind, s, only_captures), t)
    &&& (kind == 5 ==> king_target_safe(pos, s, t))
}

/// Whether `m` is the pseudo-legal move of a piece of kind `kind` from one square to another,
/// recording the piece it takes.
pub open spec fn is_piece_move(pos: Position, kind: int, only_captures: bool, m: BitPackedMove) -> bool {
    &&& piece_move_for(pos, kind, only_captures, m.from_sq() as u64, m.to_sq() as u64)
    &&& is_plain_move(m, m.from_sq() as u64, m.to_sq() as u64, (kind + 6 * pos.turn@ as int) as u32,
        capture_at(pos, m.to_sq() as u64))
}

/// The list `v` is `old` followed by moves that each satisfy `p`.
pub open spec fn extends_with(old: Seq<BitPackedMove>, v: Seq<BitPackedMove>, p: spec_fn(BitPackedMove) -> bool) -> bool {
    &&& old.len() <= v.len()
    &&& forall|i: int| 0 <= i < old.len() ==> v[i] == old[i]
    &&& forall|i: int| old.len() <= i < v.len() ==> p(#[trigger] v[i])
}

/// A move found in a list is still found once another is pushed.
pub proof fn lemma_has_plain_push(v: Seq<BitPackedMove>, m: BitPackedMove, from: u64, to: u64, piece: u32, capture: u32)
    requires
        has_plain_move(v, from, to, piece, capture),
    ensures
        has_plain_move(v.push(m), from, to, piece, capture),
{
    let i = choose|i: int| 0 <= i < v.len() && is_plain_move(#[trigger] v[i], from, to, piece, capture);
    assert(v.push(m)[i] == v[i]);
}

/// A pseudo-legal piece move is a generated move `make_move` accepts.
pub proof fn lemma_piece_move_generated(pos: Position, kind: int, only_captures: bool, m: BitPackedMove)
    requires
        pos.wf(),
        1 <= kind <= 5,
        is_piece_move(pos, kind, only_captures, m),
    ensures
        generated_move_ok(pos, m),
{
    let t = m.to_sq() as u64;
    let s = m.from_sq() as u64;
    let friendly = friendly_occ(pos);
    let enemy = enemy_occ(pos);
    let reach = kind_reach(kind, s, friendly | enemy);
    lemma_mask_bits(reach, friendly, t);
    lemma_mask_bits(reach & !friendly, enemy, t);
    lemma_bit_ops(pos.occupancies[0], pos.occupancies[1], t);
    if bit(pos.occupancies[2], t) {
        lemma_occupied_has_piece(pos, t);
    }
}

impl Position {
    /// Appends the pseudo-legal moves of the pieces of kind `kind` (1 knight to 5 king) of the
    /// side to move, lowest source square first and, for each, lowest target first; with
    /// `only_captures`, only the moves onto an opponent's piece.
    fn pseudo_piece_moves(&self, moves: &mut Vec<BitPackedMove>, kind: usize, only_captures: bool)
        requires
            self.wf(),
            1 <= kind <= 5,
        ensures
            extends_with(old(moves)@, final(moves)@, |m: BitPackedMove| is_piece_move(*self, kind as int, only_captures, m)),
            forall|s: u64, t: u64| piece_move_for(*self, kind as int, only_captures, s, t)
                ==> #[trigger] has_plain_move(final(moves)@, s, t, (kind + 6 * self.turn@) as u32, capture_at(*self, t)),
    {
        let ghost old_moves = moves@;
        let ghost p = |m: BitPackedMove| is_piece_move(*self, kind as int, only_captures, m);
        let turn = self.turn;
        let piece = Piece::from_index(kind + 6 * turn.to_index());
        let friendly = self.occupancies[turn.to_index()];
        let enemy = self.occupancies[turn.opponent().to_index()];
        let all = self.bitboards[piece.to_index()];
        let mut pieces = all;
        while pieces != 0
            invariant
                self.wf(),
                1 <= kind <= 5,
                turn == self.turn,
                piece@ == kind + 6 * turn@,
                all == self.bitboards@[piece@ as int],
                friendly == friendly_occ(*self),
                enemy == enemy_occ(*self),
                p == (|m: BitPackedMove| is_piece_move(*self, kind as int, only_captures, m)),
                forall|j: u64| j < 64 && #[trigger] bit(pieces, j) ==> bit(all, j),
                extends_with(old_moves, moves@, p),
                forall|s: u64, t: u64| piece_move_for(*self, kind as int, only_captures, s, t) && !bit(pieces, s)
                    ==> #[trigger] has_plain_move(moves@, s, t, piece@ as u32, capture_at(*self, t)),
            decreases pieces,
        {
            let ghost old_pieces = pieces;
            let source = pop_lsb(&mut pieces);
            proof {
                assert forall|j: u64| j < 64 implies #[trigger] bit(pieces, j) == (bit(old_pieces, j) && j != source as u64) by {
                    lemma_mask_bits(old_pieces, 1u64 << source, j);
                    lemma_bit_single(j, source as u64);
                }
            }
            let reach = if kind == 1 {
                mask_knight_attacks(source)
            } else if kind == 2 {
                self.get_bishop_magic_attacks(source, friendly | enemy)
            } else if kind == 3 {
                self.get_rook_magic_attacks(source, friendly | enemy)
            } else if kind == 4 {
                self.get_queen_magic_attacks(source, friendly | enemy)
            } else {
                mask_king_attacks(source)
            };
            let mut targets = reach & !friendly;
            if only_captures {
                targets = targets & enemy;
            }
            let ghost all_targets = targets;
            assert(all_targets == pseudo_targets(*self, kind as int, source as u64, only_captures));
            while targets != 0
                invariant
                    self.wf(),
                    1 <= kind <= 5,
                    turn == self.turn,
                    piece@ == kind + 6 * turn@,
                    all == self.bitboards@[piece@ as int],
                    source < 64,
                    bit(all, source as u64),
                    !bit(pieces, source as u64),
                    p == (|m: BitPackedMove| is_piece_move(*self, kind as int, only_captures, m)),
                    all_targets == pseudo_targets(*self, kind as int, source as u64, only_captures),
                    forall|j: u64| j < 64 && #[trigger] bit(targets, j) ==> bit(all_targets, j),
                    extends_with(old_moves, moves@, p),
                    forall|s: u64, t: u64| piece_move_for(*self, kind as int, only_captures, s, t) && !bit(old_pieces, s)
                        ==> #[trigger] has_plain_move(moves@, s, t, piece@ as u32, capture_at(*self, t)),
                    forall|t: u64| piece_move_for(*self, kind as int, only_captures, source as u64, t) && !bit(targets, t)
                        ==> #[trigger] has_plain_move(moves@, source as u64, t, piece@ as u32, capture_at(*self, t)),
                decreases targets,
            {
                let ghost old_targets = targets;
                let ghost before = moves@;
                let target = pop_lsb(&mut targets);
                proof {
                    assert forall|j: u64| j < 64 implies #[trigger] bit(targets, j) == (bit(old_targets, j) && j != target as u64) by {
                        lemma_mask_bits(old_targets, 1u64 << target, j);
                        lemma_bit_single(j, target as u64);
                    }
                }
                let safe = if kind == 5 {
                    let mut board = self.bitboards;
                    board[piece.to_index()] = board[piece.to_index()] & !(1u64 << source);
                    let occupancy = both_occupancy_of(&board);
                    let attacked = self.is_square_attacked_w_occupancy(target, turn.opponent(), occupancy);
                    proof {
                        let k = 5 + 6 * turn@ as int;
                        assert(board@ == self.bitboards@.update(k, self.bitboards@[k] & !(1u64 << source)));
                        let o = 6 * opposite(turn)@ as int;
                        assert(board@[o] == self.bitboards@[o] && board@[o + 1] == self.bitboards@[o + 1]
                            && board@[o + 2] == self.bitboards@[o + 2] && board@[o + 3] == self.bitboards@[o + 3]
                            && board@[o + 4] == self.bitboards@[o + 4] && board@[o + 5] == self.bitboards@[o + 5]);
                        assert(attacked == !king_target_safe(*self, source as u64, target as u64));
                    }
                    !attacked
                } else {
                    true
                };
                if safe {
                    let mut m = BitPackedMove::new(source, target, piece);
                    if get_bit(self.occupancies[2], target) != 0 {
                        m.set_capture(self.get_piece_at_square(target));
                    }
                    moves.push(m);
                    proof {
                        assert(is_plain_move(m, source as u64, target as u64, piece@ as u32, capture_at(*self, target as u64)));
                        assert(p(m));
                        assert forall|s: u64, t: u64| piece_move_for(*self, kind as int, only_captures, s, t) && !bit(old_pieces, s)
                            implies #[trigger] has_plain_move(moves@, s, t, piece@ as u32, capture_at(*self, t)) by {
                            lemma_has_plain_push(before, m, s, t, piece@ as u32, capture_at(*self, t));
                        }
                        assert forall|t: u64| piece_move_for(*self, kind as int, only_captures, source as u64, t) && !bit(targets, t)
                            implies #[trigger] has_plain_move(moves@, source as u64, t, piece@ as u32, capture_at(*self, t)) by {
                            if t == target as u64 {
                                assert(moves@[before.len() as int] == m);
                            } else {
                                lemma_has_plain_push(before, m, source as u64, t, piece@ as u32, capture_at(*self, t));
                            }
                        }
                    }
                }
            }
            proof {
                assert forall|s: u64, t: u64| piece_move_for(*self, kind as int, only_captures, s, t) && !bit(pieces, s)
                    implies #[trigger] has_plain_move(moves@, s, t, piece@ as u32, capture_at(*self, t)) by {
                    if s != source as u64 {
                        assert(!bit(old_pieces, s));
                    } else {
                        lemma_bit_ops(0u64, 0u64, t);
                        assert(!bit(targets, t));
                    }
                }
            }
        }
        proof {
            assert forall|s: u64, t: u64| piece_move_for(*self, kind as int, only_captures, s, t)
                implies #[trigger] has_plain_move(moves@, s, t, piece@ as u32, capture_at(*self, t)) by {
                lemma_bit_ops(0u64, 0u64, s);
                assert(!bit(pieces, s));
            }
        }
    }
}

/// The squares occupied by any piece of the given bitboards.
pub fn both_occupancy_of(bitboards: &[u64; 12]) -> (r: u64)
    ensures
        r == white_occupancy(bitboards@) | black_occupancy(bitboards@),
{
    (((((bitboards[0] | bitboards[1]) | bitboards[2]) | bitboards[3]) | bitboards[4]) | bitboards[5])
        | (((((bitboards[6] | bitboards[7]) | bitboards[8]) | bitboards[9]) | bitboards[10]) | bitboards[11])
}


// ------------------------------------------------------------------ pawn moves

/// No two of the moves of `v` from index `start` on are equal.
pub open spec fn distinct_after(v: Seq<BitPackedMove>, start: int) -> bool {
    forall|i: int, j: int| start <= i < j < v.len() ==> v[i] != v[j]
}

/// Whether `m` moves `piece` from `from` to `to`, recording `capture` as taken and `promotion`
/// as the piece promoted to, with no castling and with the en passant flag `ep`.
pub open spec fn move_is(m: BitPackedMove, from: u64, to: u64, piece: u32, capture: u32, promotion: u32, ep: bool) -> bool {
    &&& m.from_sq() == from
    &&& m.to_sq() == to
    &&& m.piece_idx() == piece
    &&& m.capture_idx() == capture
    &&& m.promotion_idx() == promotion
    &&& !m.castle_flag()
    &&& m.enpassant_flag() == ep
}

/// Whether the list holds such a move.
pub open spec fn has_move(v: Seq<BitPackedMove>, from: u64, to: u64, piece: u32, capture: u32, promotion: u32, ep: bool) -> bool {
    exists|i: int| 0 <= i < v.len() && #[trigger] move_is(v[i], from, to, piece, capture, promotion, ep)
}

/// The squares from which pawns of `c` move: those of its pawns not on the last rank.
pub open spec fn pawn_sources(pos: Position, c: Color) -> u64 {
    if c == Color::White {
        pos.bitboards@[0] & !RANK_8
    } else {
        pos.bitboards@[6] & !RANK_1
    }
}

/// Whether a pawn of `c` on `s` reaches the last rank with one step forward.
pub open spec fn promotes_from(c: Color, s: u64) -> bool {
    if c == Color::White {
        8 <= s < 16
    } else {
        48 <= s < 56
    }
}

/// Whether a pawn of `c` on `s` stands on its starting rank.
pub open spec fn on_start_rank(c: Color, s: u64) -> bool {
    if c == Color::White {
        48 <= s < 56
    } else {
        8 <= s < 16
    }
}

/// The square one step forward of `s` for a pawn of `c`.
pub open spec fn step(c: Color, s: u64) -> u64 {
    if c == Color::White {
        (s - 8) as u64
    } else {
        (s + 8) as u64
    }
}

/// The pieces a pawn of `c` promotes to: queen, rook, bishop or knight of its color.
pub open spec fn is_promotion_of(c: Color, p: u32) -> bool {
    let o = (6 * c@) as u32;
    p == 4 + o || p == 3 + o || p == 2 + o || p == 1 + o
}

/// The moves of a pawn of `c` from `s` when it is not captures only: one step to an empty
/// square (promoting on the last rank), and two steps from the starting rank over empty
/// squares.
pub open spec fn pawn_push_complete(pos: Position, c: Color, v: Seq<BitPackedMove>, s: u64) -> bool {
    let t = step(c, s);
    let occ = pos.occupancies[2];
    let pawn = (6 * c@) as u32;
    &&& (!bit(occ, t) && !promotes_from(c, s) ==> has_move(v, s, t, pawn, 12, 12, false))
    &&& (forall|p: u32| !bit(occ, t) && promotes_from(c, s) && is_promotion_of(c, p) ==> #[trigger] has_move(v, s, t, pawn, 12, p, false))
    &&& (!bit(occ, t) && on_start_rank(c, s) && !bit(occ, step(c, t)) ==> has_move(v, s, step(c, t), pawn, 12, 12, false))
}

/// The captures of a pawn of `c` from `s`: onto each opponent's piece it attacks, promoting on
/// the last rank.
pub open spec fn pawn_capture_complete(pos: Position, c: Color, v: Seq<BitPackedMove>, s: u64) -> bool {
    let pawn = (6 * c@) as u32;
    let targets = pawn_attacks(c, s) & pos.occupancies[1 - c@ as int];
    &&& (forall|t: u64| t < 64 && bit(targets, t) && !promotes_from(c, s) ==> #[trigger] has_move(v, s, t, pawn, capture_at(pos, t), 12, false))
    &&& (forall|t: u64, p: u32| t < 64 && bit(targets, t) && promotes_from(c, s) && is_promotion_of(c, p) ==> #[trigger] has_move(v, s, t, pawn, capture_at(pos, t), p, false))
}

/// The en passant capture of a pawn of `c` from `s` onto the en passant square it attacks.
pub open spec fn pawn_ep_complete(pos: Position, c: Color, v: Seq<BitPackedMove>, s: u64) -> bool {
    forall|e: u8| pos.enpassant == Some(e) && e < 64 && bit(pawn_attacks(c, s), e as u64) ==> #[trigger] has_move(v, s, e as u64, (6 * c@) as u32, 12, 12, true)
}

/// All the pseudo-legal moves of the pawn of `c` on `s` are in the list.
pub open spec fn pawn_complete(pos: Position, c: Color, only_captures: bool, v: Seq<BitPackedMove>, s: u64) -> bool {
    &&& (!only_captures ==> pawn_push_complete(pos, c, v, s))
    &&& pawn_capture_complete(pos, c, v, s)
    &&& pawn_ep_complete(pos, c, v, s)
}

/// Whether `m` is a pseudo-legal move of a pawn of `c`: a push to an empty square one step
/// forward (promoting on the last rank), a double push from the starting rank, a capture of an
/// attacked opponent's piece recording it (promoting on the last rank), or an en passant
/// capture onto the en passant square.
pub open spec fn is_pawn_move(pos: Position, c: Color, only_captures: bool, m: BitPackedMove) -> bool {
    let s = m.from_sq() as u64;
    let t = m.to_sq() as u64;
    let pawn = (6 * c@) as u32;
    let occ = pos.occupancies[2];
    let promo_ok = if promotes_from(c, s) { is_promotion_of(c, m.promotion_idx()) } else { m.promotion_idx() == 12 };
    &&& s < 64
    &&& t < 64
    &&& bit(pawn_sources(pos, c), s)
    &&& m.piece_idx() == pawn
    &&& !m.castle_flag()
    &&& {
        ||| (!only_captures && !m.enpassant_flag() && m.capture_idx() == 12 && t == step(c, s) && !bit(occ, t) && promo_ok)
        ||| (!only_captures && !m.enpassant_flag() && m.capture_idx() == 12 && m.promotion_idx() == 12 && on_start_rank(c, s)
            && !bit(occ, step(c, s)) && t == step(c, step(c, s)) && !bit(occ, t))
        ||| (!m.enpassant_flag() && bit(pawn_attacks(c, s) & pos.occupancies[1 - c@ as int], t) && m.capture_idx() == capture_at(pos, t) && promo_ok)
        ||| (m.enpassant_flag() && pos.enpassant == Some(t as u8) && bit(pawn_attacks(c, s), t) && m.capture_idx() == 12 && m.promotion_idx() == 12)
    }
}

/// The list `w` begins with the list `v`.
pub open spec fn grows(v: Seq<BitPackedMove>, w: Seq<BitPackedMove>) -> bool {
    &&& v.len() <= w.len()
    &&& forall|i: int| 0 <= i < v.len() ==> w[i] == v[i]
}

/// A move found in a list is still found in a list that begins with it.
pub proof fn lemma_has_move_grow(v: Seq<BitPackedMove>, w: Seq<BitPackedMove>, from: u64, to: u64, piece: u32, capture: u32, promotion: u32, ep: bool)
    requires
        grows(v, w),
        has_move(v, from, to, piece, capture, promotion, ep),
    ensures
        has_move(w, from, to, piece, capture, promotion, ep),
{
    let i = choose|i: int| 0 <= i < v.len() && #[trigger] move_is(v[i], from, to, piece, capture, promotion, ep);
    assert(w[i] == v[i]);
}

/// What a pawn's list of moves holds stays in a list that begins with it.
pub proof fn lemma_pawn_complete_grow(pos: Position, c: Color, only_captures: bool, v: Seq<BitPackedMove>, w: Seq<BitPackedMove>, s: u64)
    requires
        grows(v, w),
    ensures
        (!only_captures && pawn_push_complete(pos, c, v, s)) ==> pawn_push_complete(pos, c, w, s),
        pawn_capture_complete(pos, c, v, s) ==> pawn_capture_complete(pos, c, w, s),
        pawn_ep_complete(pos, c, v, s) ==> pawn_ep_complete(pos, c, w, s),
        pawn_complete(pos, c, only_captures, v, s) ==> pawn_complete(pos, c, only_captures, w, s),
{
    let pawn = (6 * c@) as u32;
    let t = step(c, s);
    let occ = pos.occupancies[2];
    if pawn_push_complete(pos, c, v, s) {
        if !bit(occ, t) && !promotes_from(c, s) {
            lemma_has_move_grow(v, w, s, t, pawn, 12, 12, false);
        }
        assert forall|p: u32| !bit(occ, t) && promotes_from(c, s) && is_promotion_of(c, p) implies #[trigger] has_move(w, s, t, pawn, 12, p, false) by {
            lemma_has_move_grow(v, w, s, t, pawn, 12, p, false);
        }
        if !bit(occ, t) && on_start_rank(c, s) && !bit(occ, step(c, t)) {
            lemma_has_move_grow(v, w, s, step(c, t), pawn, 12, 12, false);
        }
    }
    if pawn_capture_complete(pos, c, v, s) {
        let targets = pawn_attacks(c, s) & pos.occupancies[1 - c@ as int];
        assert forall|t: u64| t < 64 && bit(targets, t) && !promotes_from(c, s) implies #[trigger] has_move(w, s, t, pawn, capture_at(pos, t), 12, false) by {
            lemma_has_move_grow(v, w, s, t, pawn, capture_at(pos, t), 12, false);
        }
        assert forall|t: u64, p: u32| t < 64 && bit(targets, t) && promotes_from(c, s) && is_promotion_of(c, p) implies #[trigger] has_move(w, s, t, pawn, capture_at(pos, t), p, false) by {
            lemma_has_move_grow(v, w, s, t, pawn, capture_at(pos, t), p, false);
        }
    }
    if pawn_ep_complete(pos, c, v, s) {
        assert forall|e: u8| pos.enpassant == Some(e) && e < 64 && bit(pawn_attacks(c, s), e as u64) implies #[trigger] has_move(w, s, e as u64, pawn, 12, 12, true) by {
            lemma_has_move_grow(v, w, s, e as u64, pawn, 12, 12, true);
        }
    }
}

/// Every finished source keeps its moves in a list that grows.
pub proof fn lemma_sources_complete_grow(pos: Position, c: Color, only_captures: bool, v: Seq<BitPackedMove>, w: Seq<BitPackedMove>, all: u64, left: u64)
    requires
        grows(v, w),
        forall|s: u64| s < 64 && bit(all, s) && !bit(left, s) ==> #[trigger] pawn_complete(pos, c, only_captures, v, s),
    ensures
        forall|s: u64| s < 64 && bit(all, s) && !bit(left, s) ==> #[trigger] pawn_complete(pos, c, only_captures, w, s),
{
    assert forall|s: u64| s < 64 && bit(all, s) && !bit(left, s) implies #[trigger] pawn_complete(pos, c, only_captures, w, s) by {
        lemma_pawn_complete_grow(pos, c, only_captures, v, w, s);
    }
}

/// The pawn sources lie off the last rank: a white one on square 8 or above, a black one below
/// 56.
proof fn lemma_pawn_source_bounds(b: u64, s: u64)
    by (bit_vector)
    requires
        s < 64,
    ensures
        bit(b & !0x00000000000000FFu64, s) ==> s >= 8,
        bit(b & !0xFF00000000000000u64, s) ==> s < 56,
{
}

impl Position {
    /// Appends the promotions of a pawn move to the queen, rook, bishop and knight of `c`, in
    /// that order.
    pub(crate) fn push_promotions(&self, moves: &mut Vec<BitPackedMove>, m: BitPackedMove, c: Color)
        ensures
            final(moves)@.len() == old(moves)@.len() + 4,
            forall|i: int| 0 <= i < old(moves)@.len() ==> final(moves)@[i] == old(moves)@[i],
            forall|i: int| old(moves)@.len() <= i < final(moves)@.len() ==> {
                let n = #[trigger] final(moves)@[i];
                &&& n.from_sq() == m.from_sq()
                &&& n.to_sq() == m.to_sq()
                &&& n.piece_idx() == m.piece_idx()
                &&& n.capture_idx() == m.capture_idx()
                &&& n.castle_flag() == m.castle_flag()
                &&& n.enpassant_flag() == m.enpassant_flag()
                &&& is_promotion_of(c, n.promotion_idx())
                &&& n.promotion_idx() == 4 - (i - old(moves)@.len()) + 6 * c@
            },
            forall|p: u32| is_promotion_of(c, p) ==> #[trigger] has_move(final(moves)@, m.from_sq() as u64, m.to_sq() as u64,
                m.piece_idx(), m.capture_idx(), p, m.enpassant_flag()) || m.castle_flag(),
    {
        let ghost start = moves@.len();
        let mut i: usize = 0;
        while i < 4
            invariant
                i <= 4,
                moves@.len() == start + i,
                start == old(moves)@.len(),
                forall|k: int| 0 <= k < start ==> moves@[k] == old(moves)@[k],
                forall|k: int| start <= k < moves@.len() ==> {
                    let n = #[trigger] moves@[k];
                    &&& n.from_sq() == m.from_sq()
                    &&& n.to_sq() == m.to_sq()
                    &&& n.piece_idx() == m.piece_idx()
                    &&& n.capture_idx() == m.capture_idx()
                    &&& n.castle_flag() == m.castle_flag()
                    &&& n.enpassant_flag() == m.enpassant_flag()
                    &&& n.promotion_idx() == 4 - (k - start) + 6 * c@
                },
            decreases 4 - i,
        {
            let mut promotion_move = m;
            let promotion = if c == Color::White {
                crate::movegen::WHITE_PROMOTIONS[i]
            } else {
                crate::movegen::BLACK_PROMOTIONS[i]
            };
            promotion_move.set_promotion(promotion);
            moves.push(promotion_move);
            i = i + 1;
        }
        proof {
            assert forall|p: u32| is_promotion_of(c, p) && !m.castle_flag() implies #[trigger] has_move(moves@, m.from_sq() as u64, m.to_sq() as u64,
                m.piece_idx(), m.capture_idx(), p, m.enpassant_flag()) by {
                let k = start + 4 - (p - 6 * c@);
                assert(move_is(moves@[k], m.from_sq() as u64, m.to_sq() as u64, m.piece_idx(), m.capture_idx(), p, m.enpassant_flag()));
            }
        }
    }
}


impl Position {
    /// Appends the pseudo-legal moves of the pawns of `c`, source by source from the lowest
    /// square: pushes (unless only captures are asked for), captures, then the en passant
    /// capture.
    fn pseudo_pawn_moves(&self, moves: &mut Vec<BitPackedMove>, c: Color, only_captures: bool)
        requires
            self.wf(),
        ensures
            extends_with(old(moves)@, final(moves)@, |m: BitPackedMove| is_pawn_move(*self, c, only_captures, m)),
            forall|s: u64| s < 64 && bit(pawn_sources(*self, c), s) ==> #[trigger] pawn_complete(*self, c, only_captures, final(moves)@, s),
            distinct_after(final(moves)@, old(moves)@.len() as int),
    {
        let ghost old_moves = moves@;
        let ghost p = |m: BitPackedMove| is_pawn_move(*self, c, only_captures, m);
        let pawn = Piece::pawn(c);
        let occ = self.occupancies[2];
        let opp_occ = self.occupancies[c.opponent().to_index()];
        let all = if c == Color::White { self.bitboards[0] & !RANK_8 } else { self.bitboards[6] & !RANK_1 };
        let mut sources = all;
        while sources != 0
            invariant
                self.wf(),
                pawn@ == 6 * c@,
                occ == self.occupancies[2],
                opp_occ == self.occupancies[1 - c@ as int],
                all == pawn_sources(*self, c),
                p == (|m: BitPackedMove| is_pawn_move(*self, c, only_captures, m)),
                forall|j: u64| j < 64 && #[trigger] bit(sources, j) ==> bit(all, j),
                extends_with(old_moves, moves@, p),
                forall|s: u64| s < 64 && bit(all, s) && !bit(sources, s) ==> #[trigger] pawn_complete(*self, c, only_captures, moves@, s),
                distinct_after(moves@, old_moves.len() as int),
                forall|i: int| old_moves.len() <= i < moves@.len() ==> !bit(sources, (#[trigger] moves@[i]).from_sq() as u64),
            decreases sources,
        {
            let ghost old_sources = sources;
            let ghost iter_start = moves@;
            let source = pop_lsb(&mut sources);
            proof {
                assert forall|j: u64| j < 64 implies #[trigger] bit(sources, j) == (bit(old_sources, j) && j != source as u64) by {
                    lemma_mask_bits(old_sources, 1u64 << source, j);
                    lemma_bit_single(j, source as u64);
                }
                lemma_pawn_source_bounds(self.bitboards@[0], source as u64);
                lemma_pawn_source_bounds(self.bitboards@[6], source as u64);
            }
            let promotes = if c == Color::White { 8 <= source && source < 16 } else { 48 <= source && source < 56 };
            proof {
                assert forall|i: int| old_moves.len() <= i < iter_start.len() implies (#[trigger] iter_start[i]).from_sq() != source by {
                    assert(!bit(old_sources, iter_start[i].from_sq() as u64));
                }
            }

            // Pushes
            if !only_captures {
                let target = if c == Color::White { source - 8 } else { source + 8 };
                if get_bit(occ, target) == 0 {
                    let m = BitPackedMove::new(source, target, pawn);
                    if promotes {
                        let ghost before = moves@;
                        self.push_promotions(moves, m, c);
                        proof {
                            assert(grows(before, moves@));
                            assert(distinct_after(moves@, old_moves.len() as int)) by {
                                assert forall|i: int, j: int| old_moves.len() <= i < j < moves@.len() implies moves@[i] != moves@[j] by {
                                    if j >= before.len() && i >= before.len() {
                                        assert(moves@[i].promotion_idx() != moves@[j].promotion_idx());
                                    } else if j >= before.len() {
                                        assert(moves@[i] == before[i]);
                                        assert(moves@[i].from_sq() != moves@[j].from_sq());
                                    }
                                }
                            }
                            assert forall|i: int| old_moves.len() <= i < moves@.len() implies #[trigger] p(moves@[i]) by {
                                if i >= before.len() {
                                    let n = moves@[i];
                                    assert(is_pawn_move(*self, c, only_captures, n));
                                }
                            }
                        }
                    } else {
                        let ghost before_push = moves@;
                        moves.push(m);
                        proof {
                            assert(distinct_after(moves@, old_moves.len() as int)) by {
                                assert forall|i: int, j: int| old_moves.len() <= i < j < moves@.len() implies moves@[i] != moves@[j] by {
                                    if j == before_push.len() {
                                        assert(moves@[i] == before_push[i]);
                                        assert(moves@[i].from_sq() != moves@[j].from_sq());
                                    } else {
                                        assert(moves@[i] == before_push[i] && moves@[j] == before_push[j]);
                                    }
                                }
                            }
                            assert(is_pawn_move(*self, c, only_captures, m));
                            assert(move_is(moves@[moves@.len() - 1], source as u64, target as u64, pawn@ as u32, 12, 12, false));
                        }
                        let on_start = if c == Color::White { 48 <= source && source < 56 } else { 8 <= source && source < 16 };
                        if on_start {
                            let target2 = if c == Color::White { target - 8 } else { target + 8 };
                            if get_bit(occ, target2) == 0 {
                                let m2 = BitPackedMove::new(source, target2, pawn);
                                let ghost before = moves@;
                                moves.push(m2);
                                proof {
                                    assert(distinct_after(moves@, old_moves.len() as int)) by {
                                        assert forall|i: int, j: int| old_moves.len() <= i < j < moves@.len() implies moves@[i] != moves@[j] by {
                                            if j == before.len() {
                                                assert(moves@[i] == before[i]);
                                                if i < iter_start.len() {
                                                    assert(moves@[i].from_sq() != moves@[j].from_sq());
                                                } else {
                                                    assert(moves@[i].to_sq() != moves@[j].to_sq());
                                                }
                                            } else {
                                                assert(moves@[i] == before[i] && moves@[j] == before[j]);
                                            }
                                        }
                                    }
                                    assert(is_pawn_move(*self, c, only_captures, m2));
                                    assert(moves@[before.len() - 1] == before[before.len() - 1]);
                                    assert(move_is(moves@[moves@.len() - 1], source as u64, target2 as u64, pawn@ as u32, 12, 12, false));
                                }
                            }
                        }
                    }
                }
            }
            proof {
                assert(grows(iter_start, moves@));
                lemma_sources_complete_grow(*self, c, only_captures, iter_start, moves@, all, old_sources);
                assert(!only_captures ==> pawn_push_complete(*self, c, moves@, source as u64));
            }

            proof {
                assert forall|i: int| iter_start.len() <= i < moves@.len() implies (#[trigger] moves@[i]).from_sq() == source
                    && !moves@[i].enpassant_flag() && moves@[i].capture_idx() == 12 by {
                }
            }

            // Captures
            let attacks = mask_pawn_attacks(source, c);
            let mut captures = attacks & opp_occ;
            let ghost all_captures = captures;
            let ghost after_pushes = moves@;
            while captures != 0
                invariant
                    self.wf(),
                    pawn@ == 6 * c@,
                    source < 64,
                    bit(all, source as u64),
                    !bit(sources, source as u64),
                    occ == self.occupancies[2],
                    opp_occ == self.occupancies[1 - c@ as int],
                    all == pawn_sources(*self, c),
                    attacks == pawn_attacks(c, source as u64),
                    all_captures == attacks & opp_occ,
                    promotes == promotes_from(c, source as u64),
                    p == (|m: BitPackedMove| is_pawn_move(*self, c, only_captures, m)),
                    forall|j: u64| j < 64 && #[trigger] bit(captures, j) ==> bit(all_captures, j),
                    extends_with(old_moves, moves@, p),
                    grows(after_pushes, moves@),
                    forall|s: u64| s < 64 && bit(all, s) && !bit(old_sources, s) ==> #[trigger] pawn_complete(*self, c, only_captures, moves@, s),
                    !only_captures ==> pawn_push_complete(*self, c, moves@, source as u64),
                    forall|t: u64| t < 64 && bit(all_captures, t) && !bit(captures, t) && !promotes
                        ==> #[trigger] has_move(moves@, source as u64, t, pawn@ as u32, capture_at(*self, t), 12, false),
                    forall|t: u64, q: u32| t < 64 && bit(all_captures, t) && !bit(captures, t) && promotes && is_promotion_of(c, q)
                        ==> #[trigger] has_move(moves@, source as u64, t, pawn@ as u32, capture_at(*self, t), q, false),
                    distinct_after(moves@, old_moves.len() as int),
                    old_moves.len() <= iter_start.len() <= after_pushes.len(),
                    forall|i: int| old_moves.len() <= i < iter_start.len() ==> (#[trigger] moves@[i]).from_sq() != source,
                    forall|i: int| iter_start.len() <= i < moves@.len() ==> (#[trigger] moves@[i]).from_sq() == source
                        && !moves@[i].enpassant_flag(),
                    forall|i: int| iter_start.len() <= i < after_pushes.len() ==> (#[trigger] moves@[i]).capture_idx() == 12,
                    forall|i: int| after_pushes.len() <= i < moves@.len() ==> (#[trigger] moves@[i]).capture_idx() != 12
                        && !bit(captures, moves@[i].to_sq() as u64),
                    forall|i: int| old_moves.len() <= i < moves@.len() ==> !bit(sources, (#[trigger] moves@[i]).from_sq() as u64),
                decreases captures,
            {
                let ghost old_captures = captures;
                let ghost before = moves@;
                let target = pop_lsb(&mut captures);
                proof {
                    assert forall|j: u64| j < 64 implies #[trigger] bit(captures, j) == (bit(old_captures, j) && j != target as u64) by {
                        lemma_mask_bits(old_captures, 1u64 << target, j);
                        lemma_bit_single(j, target as u64);
                    }
                    lemma_mask_bits(attacks, opp_occ, target as u64);
                    lemma_bit_ops(self.occupancies[0], self.occupancies[1], target as u64);
                    lemma_occupied_has_piece(*self, target as u64);
                }
                let mut m = BitPackedMove::new(source, target, pawn);
                m.set_capture(self.get_piece_at_square(target));
                if promotes {
                    self.push_promotions(moves, m, c);
                } else {
                    moves.push(m);
                }
                proof {
                    assert(grows(before, moves@));
                    assert(m.capture_idx() != 12);
                    assert forall|i: int| old_moves.len() <= i < moves@.len() implies {
                        &&& (i < iter_start.len() ==> (#[trigger] moves@[i]).from_sq() != source)
                        &&& (iter_start.len() <= i ==> moves@[i].from_sq() == source && !moves@[i].enpassant_flag())
                        &&& (iter_start.len() <= i < after_pushes.len() ==> moves@[i].capture_idx() == 12)
                        &&& (after_pushes.len() <= i ==> moves@[i].capture_idx() != 12 && !bit(captures, moves@[i].to_sq() as u64))
                        &&& !bit(sources, moves@[i].from_sq() as u64)
                    } by {
                        if i < before.len() {
                            assert(moves@[i] == before[i]);
                        }
                    }
                    assert(distinct_after(moves@, old_moves.len() as int)) by {
                        assert forall|i: int, j: int| old_moves.len() <= i < j < moves@.len() implies moves@[i] != moves@[j] by {
                            if j >= before.len() {
                                if i >= before.len() {
                                    assert(moves@[i].promotion_idx() != moves@[j].promotion_idx());
                                } else {
                                    assert(moves@[i] == before[i]);
                                    if i >= after_pushes.len() {
                                        assert(bit(old_captures, target as u64));
                                        assert(moves@[i].to_sq() != moves@[j].to_sq());
                                    }
                                }
                            } else {
                                assert(moves@[i] == before[i] && moves@[j] == before[j]);
                            }
                        }
                    }
                    assert forall|i: int| old_moves.len() <= i < moves@.len() implies #[trigger] p(moves@[i]) by {
                        if i >= before.len() {
                            let n = moves@[i];
                            assert(is_pawn_move(*self, c, only_captures, n));
                        }
                    }
                    lemma_sources_complete_grow(*self, c, only_captures, before, moves@, all, old_sources);
                    lemma_pawn_complete_grow(*self, c, only_captures, before, moves@, source as u64);
                    assert forall|t: u64| t < 64 && bit(all_captures, t) && !bit(captures, t) && !promotes
                        implies #[trigger] has_move(moves@, source as u64, t, pawn@ as u32, capture_at(*self, t), 12, false) by {
                        if t == target as u64 {
                            assert(move_is(moves@[before.len() as int], source as u64, t, pawn@ as u32, capture_at(*self, t), 12, false));
                        } else {
                            lemma_has_move_grow(before, moves@, source as u64, t, pawn@ as u32, capture_at(*self, t), 12, false);
                        }
                    }
                    assert forall|t: u64, q: u32| t < 64 && bit(all_captures, t) && !bit(captures, t) && promotes && is_promotion_of(c, q)
                        implies #[trigger] has_move(moves@, source as u64, t, pawn@ as u32, capture_at(*self, t), q, false) by {
                        if t != target as u64 {
                            lemma_has_move_grow(before, moves@, source as u64, t, pawn@ as u32, capture_at(*self, t), q, false);
                        }
                    }
                }
            }
            proof {
                assert forall|t: u64| t < 64 implies !#[trigger] bit(captures, t) by {
                    lemma_bit_ops(0u64, 0u64, t);
                }
                assert(pawn_capture_complete(*self, c, moves@, source as u64));
            }

            // En passant
            let ghost before_ep = moves@;
            if let Some(enpassant_square) = self.enpassant {
                let enpassant_attacks = attacks & (1u64 << enpassant_square);
                if enpassant_attacks != 0 {
                    let target_enpassant = get_lsb(enpassant_attacks);
                    proof {
                        lemma_mask_bits(attacks, 1u64 << enpassant_square, target_enpassant as u64);
                        lemma_bit_single(target_enpassant as u64, enpassant_square as u64);
                    }
                    let mut m = BitPackedMove::new(source, target_enpassant, pawn);
                    m.set_enpassant();
                    moves.push(m);
                    proof {
                        assert(distinct_after(moves@, old_moves.len() as int)) by {
                            assert forall|i: int, j: int| old_moves.len() <= i < j < moves@.len() implies moves@[i] != moves@[j] by {
                                if j == before_ep.len() {
                                    assert(moves@[i] == before_ep[i]);
                                } else {
                                    assert(moves@[i] == before_ep[i] && moves@[j] == before_ep[j]);
                                }
                            }
                        }
                        assert(is_pawn_move(*self, c, only_captures, m));
                        assert(move_is(moves@[before_ep.len() as int], source as u64, enpassant_square as u64, pawn@ as u32, 12, 12, true));
                    }
                } else {
                    proof {
                        assert forall|e: u8| self.enpassant == Some(e) && e < 64 implies !#[trigger] bit(pawn_attacks(c, source as u64), e as u64) by {
                            lemma_mask_bits(attacks, 1u64 << enpassant_square, e as u64);
                            lemma_bit_single(e as u64, e as u64);
                            lemma_bit_ops(0u64, 0u64, e as u64);
                        }
                    }
                }
            }
            proof {
                assert(grows(before_ep, moves@));
                lemma_sources_complete_grow(*self, c, only_captures, before_ep, moves@, all, old_sources);
                lemma_pawn_complete_grow(*self, c, only_captures, before_ep, moves@, source as u64);
                assert(pawn_ep_complete(*self, c, moves@, source as u64));
                assert(pawn_complete(*self, c, only_captures, moves@, source as u64));
                assert forall|s: u64| s < 64 && bit(all, s) && !bit(sources, s) implies #[trigger] pawn_complete(*self, c, only_captures, moves@, s) by {
                    if s != source as u64 {
                        assert(!bit(old_sources, s));
                    }
                }
                assert forall|i: int| old_moves.len() <= i < moves@.len() implies !bit(sources, (#[trigger] moves@[i]).from_sq() as u64) by {
                    if i < before_ep.len() {
                        assert(moves@[i] == before_ep[i]);
                    }
                }
            }
        }
        proof {
            assert forall|s: u64| s < 64 && bit(pawn_sources(*self, c), s) implies #[trigger] pawn_complete(*self, c, only_captures, moves@, s) by {
                lemma_bit_ops(0u64, 0u64, s);
                assert(!bit(sources, s));
            }
        }
    }
}


/// A pseudo-legal pawn move of the side to move is a generated move `make_move` accepts.
pub proof fn lemma_pawn_move_generated(pos: Position, only_captures: bool, m: BitPackedMove)
    requires
        pos.wf(),
        is_pawn_move(pos, pos.turn, only_captures, m),
    ensures
        generated_move_ok(pos, m),
{
    let c = pos.turn;
    let s = m.from_sq() as u64;
    let t = m.to_sq() as u64;
    lemma_mask_bits(pos.bitboards@[0], RANK_8, s);
    lemma_mask_bits(pos.bitboards@[6], RANK_1, s);
    lemma_mask_bits(pawn_attacks(c, s), pos.occupancies[1 - c@ as int], t);
    lemma_bit_ops(pos.occupancies[0], pos.occupancies[1], t);
    if bit(pos.occupancies[2], t) {
        lemma_occupied_has_piece(pos, t);
    }
    if m.enpassant_flag() {
        crate::board::attacks::lemma_pawn_attacks_geom(c, s, t);
    }
}

/// Whether `m` is one of the moves `generate_moves` gives: a pawn move, a move of a knight,
/// bishop, rook, queen or king, or (when not only captures and not in check) a castling.
pub open spec fn is_pseudo_move(pos: Position, only_captures: bool, m: BitPackedMove) -> bool {
    ||| is_pawn_move(pos, pos.turn, only_captures, m)
    ||| is_piece_move(pos, 1, only_captures, m)
    ||| is_piece_move(pos, 2, only_captures, m)
    ||| is_piece_move(pos, 3, only_captures, m)
    ||| is_piece_move(pos, 4, only_captures, m)
    ||| is_piece_move(pos, 5, only_captures, m)
    ||| (!only_captures && !in_check(pos.bitboards@, pos.turn, pos.occupancies[2]) && is_allowed_castle(pos, m))
}

/// Every pseudo-legal move is in the list: each pawn's moves, each move of the other pieces,
/// and (when not only captures and not in check) each castling allowed.
pub open spec fn pseudo_complete(pos: Position, only_captures: bool, v: Seq<BitPackedMove>) -> bool {
    &&& forall|s: u64| s < 64 && bit(pawn_sources(pos, pos.turn), s) ==> #[trigger] pawn_complete(pos, pos.turn, only_captures, v, s)
    &&& forall|kind: int, s: u64, t: u64| 1 <= kind <= 5 && piece_move_for(pos, kind, only_captures, s, t)
        ==> #[trigger] has_plain_move(v, s, t, (kind + 6 * pos.turn@) as u32, capture_at(pos, t))
    &&& forall|side: int| 0 <= side < 4 && !only_captures && !in_check(pos.bitboards@, pos.turn, pos.occupancies[2])
        && castle_allowed(pos, side) ==> #[trigger] has_castle(v, side)
}

impl Position {
    /// Appends the pseudo-legal knight moves of the side to move.
    pub fn generate_knight_moves(&self, moves: &mut Vec<BitPackedMove>, only_captures: bool)
        requires
            self.wf(),
        ensures
            extends_with(old(moves)@, final(moves)@, |m: BitPackedMove| is_piece_move(*self, 1, only_captures, m)),
            forall|s: u64, t: u64| piece_move_for(*self, 1, only_captures, s, t)
                ==> #[trigger] has_plain_move(final(moves)@, s, t, (1 + 6 * self.turn@) as u32, capture_at(*self, t)),
    {
        self.pseudo_piece_moves(moves, 1, only_captures);
    }

    /// Appends the pseudo-legal bishop moves of the side to move.
    pub fn generate_bishop_moves(&self, moves: &mut Vec<BitPackedMove>, only_captures: bool)
        requires
            self.wf(),
        ensures
            extends_with(old(moves)@, final(moves)@, |m: BitPackedMove| is_piece_move(*self, 2, only_captures, m)),
            forall|s: u64, t: u64| piece_move_for(*self, 2, only_captures, s, t)
                ==> #[trigger] has_plain_move(final(moves)@, s, t, (2 + 6 * self.turn@) as u32, capture_at(*self, t)),
    {
        self.pseudo_piece_moves(moves, 2, only_captures);
    }

    /// Appends the pseudo-legal rook moves of the side to move.
    pub fn generate_rook_moves(&self, moves: &mut Vec<BitPackedMove>, only_captures: bool)
        requires
            self.wf(),
        ensures
            extends_with(old(moves)@, final(moves)@, |m: BitPackedMove| is_piece_move(*self, 3, only_captures, m)),
            forall|s: u64, t: u64| piece_move_for(*self, 3, only_captures, s, t)
                ==> #[trigger] has_plain_move(final(moves)@, s, t, (3 + 6 * self.turn@) as u32, capture_at(*self, t)),
    {
        self.pseudo_piece_moves(moves, 3, only_captures);
    }

    /// Appends the pseudo-legal queen moves of the side to move.
    pub fn generate_queen_moves(&self, moves: &mut Vec<BitPackedMove>, only_captures: bool)
        requires
            self.wf(),
        ensures
            extends_with(old(moves)@, final(moves)@, |m: BitPackedMove| is_piece_move(*self, 4, only_captures, m)),
            forall|s: u64, t: u64| piece_move_for(*self, 4, only_captures, s, t)
                ==> #[trigger] has_plain_move(final(moves)@, s, t, (4 + 6 * self.turn@) as u32, capture_at(*self, t)),
    {
        self.pseudo_piece_moves(moves, 4, only_captures);
    }

    /// Appends the castling moves of the side to move, none when it is in check.
    pub fn generate_castle_moves(&self, moves: &mut Vec<BitPackedMove>)
        requires
            self.wf(),
        ensures
            moves_ok(*self, old(moves)@) ==> moves_ok(*self, final(moves)@),
            extends_with(old(moves)@, final(moves)@, |m: BitPackedMove|
                !in_check(self.bitboards@, self.turn, self.occupancies[2]) && is_allowed_castle(*self, m)),
            forall|side: int| 0 <= side < 4 && !in_check(self.bitboards@, self.turn, self.occupancies[2])
                && castle_allowed(*self, side) ==> #[trigger] has_castle(final(moves)@, side),
            distinct_after(final(moves)@, old(moves)@.len() as int),
    {
        if self.is_in_check() {
            return;
        }
        self.push_castle_moves(moves);
    }

    /// Appends the pseudo-legal king moves of the side to move (the king does not step onto an
    /// attacked square), then, unless only captures are asked for, its castling moves.
    pub fn generate_king_moves(&self, moves: &mut Vec<BitPackedMove>, only_captures: bool)
        requires
            self.wf(),
        ensures
            moves_ok(*self, old(moves)@) ==> moves_ok(*self, final(moves)@),
            extends_with(old(moves)@, final(moves)@, |m: BitPackedMove| is_piece_move(*self, 5, only_captures, m)
                || (!only_captures && !in_check(self.bitboards@, self.turn, self.occupancies[2]) && is_allowed_castle(*self, m))),
            forall|s: u64, t: u64| piece_move_for(*self, 5, only_captures, s, t)
                ==> #[trigger] has_plain_move(final(moves)@, s, t, (5 + 6 * self.turn@) as u32, capture_at(*self, t)),
            forall|side: int| 0 <= side < 4 && !only_captures && !in_check(self.bitboards@, self.turn, self.occupancies[2])
                && castle_allowed(*self, side) ==> #[trigger] has_castle(final(moves)@, side),
    {
        let ghost v0 = moves@;
        self.pseudo_piece_moves(moves, 5, only_captures);
        let ghost v1 = moves@;
        proof {
            assert forall|i: int| 0 <= i < v1.len() && moves_ok(*self, v0) implies generated_move_ok(*self, #[trigger] v1[i]) by {
                if i >= v0.len() {
                    lemma_piece_move_generated(*self, 5, only_captures, v1[i]);
                }
            }
        }
        if !only_captures {
            self.generate_castle_moves(moves);
            proof {
                assert forall|s: u64, t: u64| piece_move_for(*self, 5, only_captures, s, t)
                    implies #[trigger] has_plain_move(moves@, s, t, (5 + 6 * self.turn@) as u32, capture_at(*self, t)) by {
                    let w = (5 + 6 * self.turn@) as u32;
                    assert(has_plain_move(v1, s, t, w, capture_at(*self, t)));
                    let i = choose|i: int| 0 <= i < v1.len() && is_plain_move(#[trigger] v1[i], s, t, w, capture_at(*self, t));
                    assert(moves@[i] == v1[i]);
                }
            }
        }
    }

    /// Appends the pseudo-legal moves of the white pawns.
    pub fn generate_white_pawn_moves(&self, moves: &mut Vec<BitPackedMove>, only_captures: bool)
        requires
            self.wf(),
        ensures
            extends_with(old(moves)@, final(moves)@, |m: BitPackedMove| is_pawn_move(*self, Color::White, only_captures, m)),
            forall|s: u64| s < 64 && bit(pawn_sources(*self, Color::White), s)
                ==> #[trigger] pawn_complete(*self, Color::White, only_captures, final(moves)@, s),
            distinct_after(final(moves)@, old(moves)@.len() as int),
    {
        self.pseudo_pawn_moves(moves, Color::White, only_captures);
    }

    /// Appends the pseudo-legal moves of the black pawns.
    pub fn generate_black_pawn_moves(&self, moves: &mut Vec<BitPackedMove>, only_captures: bool)
        requires
            self.wf(),
        ensures
            extends_with(old(moves)@, final(moves)@, |m: BitPackedMove| is_pawn_move(*self, Color::Black, only_captures, m)),
            forall|s: u64| s < 64 && bit(pawn_sources(*self, Color::Black), s)
                ==> #[trigger] pawn_complete(*self, Color::Black, only_captures, final(moves)@, s),
            distinct_after(final(moves)@, old(moves)@.len() as int),
    {
        self.pseudo_pawn_moves(moves, Color::Black, only_captures);
    }

    /// Appends the pseudo-legal pawn moves of the side to move.
    pub fn generate_pawn_moves(&self, moves: &mut Vec<BitPackedMove>, only_captures: bool)
        requires
            self.wf(),
        ensures
            extends_with(old(moves)@, final(moves)@, |m: BitPackedMove| is_pawn_move(*self, self.turn, only_captures, m)),
            forall|s: u64| s < 64 && bit(pawn_sources(*self, self.turn), s)
                ==> #[trigger] pawn_complete(*self, self.turn, only_captures, final(moves)@, s),
            distinct_after(final(moves)@, old(moves)@.len() as int),
    {
        if self.turn == Color::White {
            self.generate_white_pawn_moves(moves, only_captures)
        } else {
            self.generate_black_pawn_moves(moves, only_captures)
        }
    }

    /// The pseudo-legal moves of the side to move: pawns, knights, bishops, rooks, queens, then
    /// the king and its castlings. A pseudo-legal move may leave the king in check; `make_move`
    /// refuses it. With `only_captures`, the moves onto an opponent's piece and en passant
    /// captures.
    pub fn generate_moves(&self, only_captures: bool) -> (moves: Vec<BitPackedMove>)
        requires
            self.wf(),
        ensures
            moves_ok(*self, moves@),
            forall|i: int| 0 <= i < moves@.len() ==> is_pseudo_move(*self, only_captures, #[trigger] moves@[i]),
            pseudo_complete(*self, only_captures, moves@),
    {
        let mut moves: Vec<BitPackedMove> = Vec::new();
        self.generate_pawn_moves(&mut moves, only_captures);
        let ghost v1 = moves@;
        self.generate_knight_moves(&mut moves, only_captures);
        let ghost v2 = moves@;
        self.generate_bishop_moves(&mut moves, only_captures);
        let ghost v3 = moves@;
        self.generate_rook_moves(&mut moves, only_captures);
        let ghost v4 = moves@;
        self.generate_queen_moves(&mut moves, only_captures);
        let ghost v5 = moves@;
        proof {
            assert forall|i: int| 0 <= i < v5.len() implies generated_move_ok(*self, #[trigger] v5[i]) by {
                if i < v1.len() {
                    lemma_pawn_move_generated(*self, only_captures, v5[i]);
                } else if i < v2.len() {
                    lemma_piece_move_generated(*self, 1, only_captures, v5[i]);
                } else if i < v3.len() {
                    lemma_piece_move_generated(*self, 2, only_captures, v5[i]);
                } else if i < v4.len() {
                    lemma_piece_move_generated(*self, 3, only_captures, v5[i]);
                } else {
                    lemma_piece_move_generated(*self, 4, only_captures, v5[i]);
                }
            }
        }
        self.generate_king_moves(&mut moves, only_captures);
        proof {
            let v = moves@;
            assert forall|i: int| 0 <= i < v.len() implies is_pseudo_move(*self, only_captures, #[trigger] v[i]) by {
                if i < v5.len() {
                    assert(v[i] == v5[i]);
                }
            }
            assert(grows(v1, v));
            assert forall|s: u64| s < 64 && bit(pawn_sources(*self, self.turn), s) implies #[trigger] pawn_complete(*self, self.turn, only_captures, v, s) by {
                lemma_pawn_complete_grow(*self, self.turn, only_captures, v1, v, s);
            }
            assert forall|kind: int, s: u64, t: u64| 1 <= kind <= 5 && piece_move_for(*self, kind, only_captures, s, t)
                implies #[trigger] has_plain_move(v, s, t, (kind + 6 * self.turn@) as u32, capture_at(*self, t)) by {
                let w = (kind + 6 * self.turn@) as u32;
                let cap = capture_at(*self, t);
                let u = if kind == 1 { v2 } else if kind == 2 { v3 } else if kind == 3 { v4 } else { v5 };
                if kind < 5 {
                    assert(has_plain_move(u, s, t, w, cap));
                    let i = choose|i: int| 0 <= i < u.len() && is_plain_move(#[trigger] u[i], s, t, w, cap);
                    assert(v[i] == u[i]);
                }
            }
        }
        moves
    }
}


impl Position {
    /// The squares the opponent attacks, by any of its pieces, given the current occupancy.
    pub fn get_attacked_squares(&self) -> (r: u64)
        ensures
            forall|j: u64| j < 64 ==> #[trigger] bit(r, j) == (attackers(self.bitboards@, j, opposite(self.turn), self.occupancies[2]) != 0),
    {
        let mut attacked_squares: u64 = 0;
        let mut square: u8 = 0;
        proof {
            assert forall|j: u64| j < 64 implies !#[trigger] bit(attacked_squares, j) by {
                lemma_bit_ops(0u64, 0u64, j);
            }
        }
        while square < 64
            invariant
                square <= 64,
                forall|j: u64| j < 64 ==> #[trigger] bit(attacked_squares, j) == (j < square
                    && attackers(self.bitboards@, j, opposite(self.turn), self.occupancies[2]) != 0),
            decreases 64 - square,
        {
            let ghost before = attacked_squares;
            if self.is_square_attacked(square, self.turn.opponent()) {
                attacked_squares = attacked_squares | (1u64 << square);
            }
            proof {
                assert forall|j: u64| j < 64 implies #[trigger] bit(attacked_squares, j) == (j < square + 1
                    && attackers(self.bitboards@, j, opposite(self.turn), self.occupancies[2]) != 0) by {
                    lemma_mask_bits(before, 1u64 << square, j);
                    lemma_bit_single(j, square as u64);
                }
            }
            square = square + 1;
        }
        attacked_squares
    }
}


/// A list holding every pseudo-legal move holds each one: `generate_moves` gives exactly the
/// pseudo-legal moves.
pub proof fn law_pseudo_moves_listed(pos: Position, only_captures: bool, v: Seq<BitPackedMove>, m: BitPackedMove)
    requires
        pseudo_complete(pos, only_captures, v),
        is_pseudo_move(pos, only_captures, m),
    ensures
        v.contains(m),
{
    let s = m.from_sq() as u64;
    let t = m.to_sq() as u64;
    if is_pawn_move(pos, pos.turn, only_captures, m) {
        let c = pos.turn;
        let pawn = (6 * c@) as u32;
        assert(pawn_complete(pos, c, only_captures, v, s));
        let targets = pawn_attacks(c, s) & pos.occupancies[1 - c@ as int];
        let occ = pos.occupancies[2];
        if m.enpassant_flag() {
            let e = t as u8;
            assert(has_move(v, s, e as u64, pawn, 12, 12, true));
        } else if bit(targets, t) && m.capture_idx() == capture_at(pos, t) {
            if promotes_from(c, s) {
                assert(has_move(v, s, t, pawn, capture_at(pos, t), m.promotion_idx(), false));
            } else {
                assert(has_move(v, s, t, pawn, capture_at(pos, t), 12, false));
            }
        } else if t == step(c, s) && !bit(occ, t) && m.capture_idx() == 12 {
            if promotes_from(c, s) {
                assert(has_move(v, s, t, pawn, 12, m.promotion_idx(), false));
            } else {
                assert(has_move(v, s, t, pawn, 12, 12, false));
            }
        } else {
            assert(has_move(v, s, t, pawn, 12, 12, false));
        }
        let i = choose|i: int| 0 <= i < v.len() && #[trigger] move_is(v[i], s, t, m.piece_idx(), m.capture_idx(), m.promotion_idx(), m.enpassant_flag());
        lemma_move_eq_by_fields(v[i], m);
        assert(v[i] == m);
    } else if is_allowed_castle(pos, m) && !only_captures && !in_check(pos.bitboards@, pos.turn, pos.occupancies[2]) {
        let side = choose|side: int| 0 <= side < 4 && castle_allowed(pos, side) && #[trigger] is_castle_move(m, side);
        assert(has_castle(v, side));
        let i = choose|i: int| 0 <= i < v.len() && #[trigger] is_castle_move(v[i], side);
        lemma_move_eq_by_fields(v[i], m);
        assert(v[i] == m);
    } else {
        let kind: int = if is_piece_move(pos, 1, only_captures, m) { 1 } else if is_piece_move(pos, 2, only_captures, m) { 2 }
            else if is_piece_move(pos, 3, only_captures, m) { 3 } else if is_piece_move(pos, 4, only_captures, m) { 4 } else { 5 };
        let w = (kind + 6 * pos.turn@) as u32;
        assert(has_plain_move(v, s, t, w, capture_at(pos, t)));
        let i = choose|i: int| 0 <= i < v.len() && is_plain_move(#[trigger] v[i], s, t, w, capture_at(pos, t));
        lemma_move_eq_by_fields(v[i], m);
        assert(v[i] == m);
    }
}

} // verus!
