use vstd::prelude::*;

verus! {

use crate::board::{Position, HistoryEntry, STACK_SIZE, piece_on, white_occupancy, black_occupancy, pieces_hash};
use crate::board::query::in_check;
use crate::chess::_move::BitPackedMove;
use crate::chess::castling_rights::CastlingRights;
use crate::chess::color::{Color, opposite};
use crate::chess::piece::Piece;
use crate::utils::{bit, get_bit};

/// The bitboard with square `s` added.
pub open spec fn sb(b: u64, s: u64) -> u64 {
    b | (1u64 << s)
}

/// The bitboard with square `s` removed.
pub open spec fn cb(b: u64, s: u64) -> u64 {
    b & !(1u64 << s)
}

/// The square of the pawn taken by an en passant capture landing on `to`.
pub open spec fn ep_victim_square(to: int, turn: Color) -> int {
    if turn == Color::White {
        to + 8
    } else {
        to - 8
    }
}

/// Whether the piece of the move is a pawn.
pub open spec fn moves_pawn(m: BitPackedMove) -> bool {
    m.piece_idx() == 0 || m.piece_idx() == 6
}

/// Whether the piece of the move is a king.
pub open spec fn moves_king(m: BitPackedMove) -> bool {
    m.piece_idx() == 5 || m.piece_idx() == 11
}

/// The rook of a castling move jumps over the king: the rook of the corner next to the king's
/// target square moves to the square the king passed.
pub open spec fn castle_rook(b: Seq<u64>, to: u64) -> Seq<u64> {
    if to == 58 {
        let x = b.update(3, cb(b[3], 56));
        x.update(3, sb(x[3], 59))
    } else if to == 62 {
        let x = b.update(3, cb(b[3], 63));
        x.update(3, sb(x[3], 61))
    } else if to == 2 {
        let x = b.update(9, cb(b[9], 0));
        x.update(9, sb(x[9], 3))
    } else if to == 6 {
        let x = b.update(9, cb(b[9], 7));
        x.update(9, sb(x[9], 5))
    } else {
        b
    }
}

/// The piece bitboards after the piece moves: it leaves its square for the target square,
/// the captured piece leaves the target square, a promoting pawn becomes the promoted piece,
/// an en passant capture removes the piece behind the target square (found with the white
/// occupancy `white` when `occ` holds the square; nothing is removed when no piece is found),
/// and a castling king brings its rook along.
pub open spec fn moved_bitboards(bb: Seq<u64>, white: u64, occ: u64, m: BitPackedMove, turn: Color) -> Seq<u64> {
    let p = m.piece_idx() as int;
    let from = m.from_sq() as u64;
    let to = m.to_sq() as u64;
    let b1 = bb.update(p, cb(sb(bb[p], to), from));
    let b2 = if m.capture_idx() != 12 {
        let c = m.capture_idx() as int;
        b1.update(c, cb(b1[c], to))
    } else {
        b1
    };
    let b3 = if moves_pawn(m) && m.promotion_idx() != 12 {
        let t = b2.update(p, cb(b2[p], to));
        let q = m.promotion_idx() as int;
        t.update(q, sb(t[q], to))
    } else {
        b2
    };
    let b4 = if moves_pawn(m) && m.enpassant_flag() {
        let e = ep_victim_square(to as int, turn) as u64;
        if bit(occ, e) && piece_on(b3, white, e) != Piece::Empty {
            let v = piece_on(b3, white, e)@ as int;
            b3.update(v, cb(b3[v], e))
        } else {
            b3
        }
    } else {
        b3
    };
    if moves_king(m) && m.castle_flag() {
        castle_rook(b4, to)
    } else {
        b4
    }
}

/// Half the signed distance, rounded toward zero.
pub open spec fn half_toward_zero(d: int) -> int {
    if d >= 0 {
        d / 2
    } else {
        -((-d) / 2)
    }
}

/// The en passant square after the move: the square a pawn passed over on a double push.
pub open spec fn moved_enpassant(m: BitPackedMove) -> Option<u8> {
    if moves_pawn(m) {
        let off = half_toward_zero(m.to_sq() - m.from_sq());
        if off == 8 || off == -8 {
            Some((m.from_sq() + off) as u8)
        } else {
            None
        }
    } else {
        None
    }
}

/// The castling rights after the move: a king loses both of its rights, a rook leaving its
/// corner loses the right of that corner.
pub open spec fn moved_castling(rights: u8, m: BitPackedMove) -> u8 {
    let p = m.piece_idx();
    let from = m.from_sq();
    let r1 = if p == 5 {
        rights & !3u8
    } else if p == 11 {
        rights & !12u8
    } else {
        rights
    };
    if p == 3 {
        if from == 56 {
            r1 & !2u8
        } else if from == 63 {
            r1 & !1u8
        } else {
            r1
        }
    } else if p == 9 {
        if from == 0 {
            r1 & !8u8
        } else if from == 7 {
            r1 & !4u8
        } else {
            r1
        }
    } else {
        r1
    }
}

/// The history entry a move saves: the position's state, keeping the full-move number the
/// slot already held.
pub open spec fn saved_entry(pos: Position) -> HistoryEntry {
    HistoryEntry {
        bitboards: pos.bitboards,
        turn: pos.turn,
        enpassant: pos.enpassant,
        castling: pos.castling,
        material: pos.material,
        halfmove_clock: pos.halfmove_clock,
        fullmove_number: pos.position_stack@[pos.depth as int].fullmove_number,
        occupancies: pos.occupancies,
        hash: pos.hash,
    }
}

/// Whether an en passant move leaves the mover's own king attacked (or kingless).
pub open spec fn enpassant_exposes_king(pos: Position, m: BitPackedMove) -> bool {
    let nb = moved_bitboards(pos.bitboards@, pos.occupancies[0], pos.occupancies[2], m, pos.turn);
    moves_pawn(m) && m.enpassant_flag() && in_check(nb, pos.turn, white_occupancy(nb) | black_occupancy(nb))
}

/// The fields the history entry restores hold the same values in both positions.
pub open spec fn same_board_state(a: Position, b: Position) -> bool {
    &&& a.bitboards == b.bitboards
    &&& a.occupancies == b.occupancies
    &&& a.turn == b.turn
    &&& a.enpassant == b.enpassant
    &&& a.castling == b.castling
    &&& a.material == b.material
    &&& a.hash == b.hash
    &&& a.halfmove_clock == b.halfmove_clock
}

/// The fields no move touches hold the same values in both positions.
pub open spec fn same_keys_and_lists(a: Position, b: Position) -> bool {
    &&& a.move_list_stack == b.move_list_stack
    &&& a.rand_seed == b.rand_seed
    &&& a.zobrist_piece_keys == b.zobrist_piece_keys
    &&& a.zobrist_castling_keys == b.zobrist_castling_keys
    &&& a.zobrist_enpassant_keys == b.zobrist_enpassant_keys
    &&& a.zobrist_turn_key == b.zobrist_turn_key
    &&& a.opponent_attack_map == b.opponent_attack_map
}

/// What `make_move` does. When only captures are allowed and the move is quiet, nothing
/// changes and the move is refused. Otherwise the position is saved at the current depth;
/// an en passant capture that exposes the mover's king is taken back and refused (the
/// full-move number then comes from the saved slot); any other move is played: the pieces
/// move, the occupancies follow, the side to move changes, the en passant square and castling
/// rights are updated, the hash is the Zobrist hash of the new position and the depth grows by one.
pub open spec fn make_move_post(pre: Position, post: Position, m: BitPackedMove, only_captures: bool, r: bool) -> bool {
    if only_captures && m.capture_idx() == 12 {
        &&& !r
        &&& post == pre
    } else {
        &&& post.position_stack@ == pre.position_stack@.update(pre.depth as int, saved_entry(pre))
        &&& same_keys_and_lists(pre, post)
        &&& if enpassant_exposes_king(pre, m) {
            &&& !r
            &&& same_board_state(pre, post)
            &&& post.fullmove_number == pre.position_stack@[pre.depth as int].fullmove_number
            &&& post.depth == pre.depth
        } else {
            &&& r
            &&& post.bitboards@ == moved_bitboards(pre.bitboards@, pre.occupancies[0], pre.occupancies[2], m, pre.turn)
            &&& post.occupancies_consistent()
            &&& post.turn == opposite(pre.turn)
            &&& post.enpassant == moved_enpassant(m)
            &&& post.castling@ == moved_castling(pre.castling@, m)
            &&& post.hash == post.zobrist_hash()
            &&& post.material == pre.material
            &&& post.halfmove_clock == pre.halfmove_clock
            &&& post.fullmove_number == pre.fullmove_number
            &&& post.depth == pre.depth + 1
        }
    }
}

/// What `unmake_move` does: the depth drops by one and the saved entry at that depth is
/// restored.
pub open spec fn unmake_move_post(pre: Position, post: Position) -> bool {
    let e = pre.position_stack@[pre.depth - 1];
    &&& post.depth == pre.depth - 1
    &&& post.bitboards == e.bitboards
    &&& post.occupancies == e.occupancies
    &&& post.turn == e.turn
    &&& post.enpassant == e.enpassant
    &&& post.castling == e.castling
    &&& post.material == e.material
    &&& post.hash == e.hash
    &&& post.halfmove_clock == e.halfmove_clock
    &&& post.fullmove_number == e.fullmove_number
    &&& post.position_stack == pre.position_stack
    &&& same_keys_and_lists(pre, post)
}

/// Whether the move can be handed to `make_move`: its fields are in range, a piece moves,
/// and the pawn an en passant capture takes stands on the board.
pub open spec fn move_playable(pos: Position, m: BitPackedMove) -> bool {
    &&& m.wf()
    &&& m.piece_idx() < 12
    &&& m.from_sq() < 64
    &&& (moves_pawn(m) && m.enpassant_flag() ==> 0 <= ep_victim_square(m.to_sq() as int, pos.turn) < 64)
}

impl Position {
    /// Whether the move can be handed to `make_move`.
    pub fn is_move_playable(&self, m: &BitPackedMove) -> (r: bool)
        ensures
            r == move_playable(*self, *m),
    {
        let b = m.move_bits;
        let from = b >> 22u32;
        let to = (b >> 14u32) & 0xFF;
        let piece = (b >> 10u32) & 0xF;
        let capture = (b >> 6u32) & 0xF;
        let promotion = (b >> 1u32) & 0xF;
        let fields_ok = from < 64 && to < 64 && piece < 12 && capture <= 12 && promotion <= 12;
        if !fields_ok {
            return false;
        }
        if (piece == 0 || piece == 6) && (b & 1) == 1 {
            if self.turn == Color::White { to + 8 < 64 } else { to >= 8 }
        } else {
            true
        }
    }
}

impl Position {
    /// Takes back the last move: restores the state saved at the previous depth.
    pub fn unmake_move(&mut self)
        requires
            1 <= old(self).depth <= old(self).position_stack@.len(),
        ensures
            unmake_move_post(*old(self), *final(self)),
    {
        self.depth = self.depth - 1;
        let entry = self.position_stack[self.depth];
        self.bitboards = entry.bitboards;
        self.occupancies = entry.occupancies;
        self.turn = entry.turn;
        self.enpassant = entry.enpassant;
        self.castling = entry.castling;
        self.material = entry.material;
        self.hash = entry.hash;
        self.halfmove_clock = entry.halfmove_clock;
        self.fullmove_number = entry.fullmove_number;
    }

    /// Passes the move: appends the position to the history, grows the depth, and hands the
    /// move to the other side.
    pub fn make_null_move(&mut self)
        requires
            old(self).depth < usize::MAX,
        ensures
            final(self).position_stack@ == old(self).position_stack@.push(saved_entry_full(*old(self))),
            final(self).depth == old(self).depth + 1,
            final(self).turn == opposite(old(self).turn),
            final(self).hash == old(self).hash ^ old(self).zobrist_turn_key,
            old(self).hash == old(self).zobrist_hash() ==> final(self).hash == final(self).zobrist_hash(),
            final(self).bitboards == old(self).bitboards,
            final(self).occupancies == old(self).occupancies,
            final(self).enpassant == old(self).enpassant,
            final(self).castling == old(self).castling,
            final(self).material == old(self).material,
            final(self).halfmove_clock == old(self).halfmove_clock,
            final(self).fullmove_number == old(self).fullmove_number,
            same_keys_and_lists(*old(self), *final(self)),
    {
        let history_entry = self.to_history_entry();
        self.position_stack.push(history_entry);
        self.depth = self.depth + 1;
        self.turn = self.turn.opponent();
        self.hash = self.hash ^ self.zobrist_turn_key;
        proof {
            let a = pieces_hash(self.bitboards, self.zobrist_piece_keys, 12);
            let b = match self.enpassant {
                Some(s) => self.zobrist_enpassant_keys[s as int],
                None => 0u64,
            };
            let c = self.zobrist_castling_keys[self.castling@ as int];
            let k = self.zobrist_turn_key;
            assert(((a ^ b ^ c ^ 0u64) ^ k) == (a ^ b ^ c ^ k) && ((a ^ b ^ c ^ k) ^ k) == (a ^ b ^ c ^ 0u64)) by (bit_vector);
        }
    }
}

/// The full state of a position as a history entry.
pub open spec fn saved_entry_full(pos: Position) -> HistoryEntry {
    HistoryEntry {
        bitboards: pos.bitboards,
        turn: pos.turn,
        enpassant: pos.enpassant,
        castling: pos.castling,
        material: pos.material,
        halfmove_clock: pos.halfmove_clock,
        fullmove_number: pos.fullmove_number,
        occupancies: pos.occupancies,
        hash: pos.hash,
    }
}

/// The piece bitboards after the piece moves, before an en passant victim or a castling rook
/// is taken care of: the piece leaves its square, a captured piece leaves the target square,
/// and a promoting pawn becomes the promoted piece.
pub open spec fn placed_bitboards(bb: Seq<u64>, m: BitPackedMove) -> Seq<u64> {
    let p = m.piece_idx() as int;
    let from = m.from_sq() as u64;
    let to = m.to_sq() as u64;
    let b1 = bb.update(p, cb(sb(bb[p], to), from));
    let b2 = if m.capture_idx() != 12 {
        let c = m.capture_idx() as int;
        b1.update(c, cb(b1[c], to))
    } else {
        b1
    };
    if moves_pawn(m) && m.promotion_idx() != 12 {
        let t = b2.update(p, cb(b2[p], to));
        let q = m.promotion_idx() as int;
        t.update(q, sb(t[q], to))
    } else {
        b2
    }
}

/// Moves the piece, removes a captured piece and promotes a pawn.
fn place_piece(bb: [u64; 12], m: &BitPackedMove) -> (r: [u64; 12])
    requires
        m.wf(),
        m.piece_idx() < 12,
    ensures
        r@ == placed_bitboards(bb@, *m),
{
    let mut b = bb;
    let p = m.get_piece().to_index();
    let to = m.get_to();
    let from = m.get_from();
    b[p] = b[p] | (1u64 << to);
    b[p] = b[p] & !(1u64 << from);
    let ghost b1 = b@;
    if m.is_capture() {
        let c = m.get_capture().to_index();
        b[c] = b[c] & !(1u64 << to);
    }
    let ghost b2 = b@;
    if (p == 0 || p == 6) && m.is_promotion() {
        b[p] = b[p] & !(1u64 << to);
        let q = m.get_promotion().to_index();
        b[q] = b[q] | (1u64 << to);
    }
    proof {
        assert(b1 =~= bb@.update(p as int, cb(sb(bb@[p as int], to as u64), from as u64)));
        assert(b@ =~= placed_bitboards(bb@, *m));
    }
    b
}

/// The piece on `sq` of the bitboards, as `piece_on` finds it.
pub fn find_piece(bb: &[u64; 12], white: u64, square: u8) -> (r: Piece)
    requires
        square < 64,
    ensures
        r == piece_on(bb@, white, square as u64),
{
    let start: usize = if get_bit(white, square) != 0 { 0 } else { 6 };
    let mut piece: usize = start;
    while piece < start + 6
        invariant
            start == (if bit(white, square as u64) { 0usize } else { 6usize }),
            start <= piece <= start + 6,
            crate::board::first_piece_on(bb@, square as u64, start as int, start as int + 6)
                == crate::board::first_piece_on(bb@, square as u64, piece as int, start as int + 6),
            square < 64,
        decreases start + 6 - piece,
    {
        if get_bit(bb[piece], square) != 0 {
            assert(crate::board::first_piece_on(bb@, square as u64, piece as int, start as int + 6)
                == crate::chess::piece::piece_of_index(piece as int));
            return Piece::from_index(piece);
        }
        piece = piece + 1;
    }
    Piece::Empty
}

/// Removes the piece standing behind the target square of an en passant capture.
fn remove_enpassant_victim(bb: [u64; 12], white: u64, occ: u64, m: &BitPackedMove, turn: Color) -> (r: [u64; 12])
    requires
        m.wf(),
        moves_pawn(*m) && m.enpassant_flag(),
        0 <= ep_victim_square(m.to_sq() as int, turn) < 64,
    ensures
        r@ == ({
            let e = ep_victim_square(m.to_sq() as int, turn) as u64;
            if bit(occ, e) && piece_on(bb@, white, e) != Piece::Empty {
                let v = piece_on(bb@, white, e)@ as int;
                bb@.update(v, cb(bb@[v], e))
            } else {
                bb@
            }
        }),
{
    let mut b = bb;
    let to = m.get_to();
    let en_captured_square: u8 = if turn == Color::White { to + 8 } else { to - 8 };
    if get_bit(occ, en_captured_square) != 0 {
        let en_captured_piece = find_piece(&b, white, en_captured_square);
        if en_captured_piece != Piece::Empty {
            let v = en_captured_piece.to_index();
            b[v] = b[v] & !(1u64 << en_captured_square);
            proof {
                assert(b@ =~= bb@.update(v as int, cb(bb@[v as int], en_captured_square as u64)));
            }
        }
    }
    b
}

/// Moves the rook of a castling king landing on `to`.
fn move_castle_rook(bb: [u64; 12], to: u8) -> (r: [u64; 12])
    ensures
        r@ == castle_rook(bb@, to as u64),
{
    let mut b = bb;
    if to == 58 {
        b[3] = b[3] & !(1u64 << 56u64);
        b[3] = b[3] | (1u64 << 59u64);
    } else if to == 62 {
        b[3] = b[3] & !(1u64 << 63u64);
        b[3] = b[3] | (1u64 << 61u64);
    } else if to == 2 {
        b[9] = b[9] & !(1u64 << 0u64);
        b[9] = b[9] | (1u64 << 3u64);
    } else if to == 6 {
        b[9] = b[9] & !(1u64 << 7u64);
        b[9] = b[9] | (1u64 << 5u64);
    }
    proof {
        assert(b@ =~= castle_rook(bb@, to as u64));
    }
    b
}

/// The castling rights after the move.
fn update_castling(rights: &mut CastlingRights, m: &BitPackedMove)
    requires
        m.wf(),
        old(rights)@ < 16,
    ensures
        final(rights)@ == moved_castling(old(rights)@, *m),
        final(rights)@ < 16,
{
    let p = m.get_piece().to_index();
    let from = m.get_from();
    if p == 5 {
        rights.remove_right(3);
    } else if p == 11 {
        rights.remove_right(12);
    }
    if p == 3 {
        if from == 56 {
            rights.remove_right(2);
        } else if from == 63 {
            rights.remove_right(1);
        }
    } else if p == 9 {
        if from == 0 {
            rights.remove_right(8);
        } else if from == 7 {
            rights.remove_right(4);
        }
    }
    proof {
        lemma_moved_castling_small(old(rights)@, *m);
    }
}

/// The en passant square after the move.
fn new_enpassant(m: &BitPackedMove) -> (r: Option<u8>)
    requires
        m.wf(),
    ensures
        r == moved_enpassant(*m),
        r matches Some(e) ==> e < 64,
{
    let p = m.get_piece().to_index();
    if p == 0 || p == 6 {
        let to = m.get_to();
        let from = m.get_from();
        let d: i32 = to as i32 - from as i32;
        let offset: i32 = if d >= 0 { d / 2 } else { -((-d) / 2) };
        if offset == 8 || offset == -8 {
            if from as i32 + offset < 0 || from as i32 + offset >= 64 {
                proof {
                    assert(false);
                }
            }
            return Some((from as i32 + offset) as u8);
        }
    }
    None
}

impl Position {
    /// Saves the restorable part of the position at the current depth of the history.
    fn save_history(&mut self)
        requires
            old(self).depth < old(self).position_stack@.len(),
        ensures
            final(self).position_stack@ == old(self).position_stack@.update(old(self).depth as int, saved_entry(*old(self))),
            final(self).bitboards == old(self).bitboards,
            final(self).occupancies == old(self).occupancies,
            final(self).turn == old(self).turn,
            final(self).enpassant == old(self).enpassant,
            final(self).castling == old(self).castling,
            final(self).material == old(self).material,
            final(self).hash == old(self).hash,
            final(self).halfmove_clock == old(self).halfmove_clock,
            final(self).fullmove_number == old(self).fullmove_number,
            final(self).depth == old(self).depth,
            same_keys_and_lists(*old(self), *final(self)),
    {
        let mut entry = self.position_stack[self.depth];
        entry.bitboards = self.bitboards;
        entry.turn = self.turn;
        entry.enpassant = self.enpassant;
        entry.castling = self.castling;
        entry.occupancies = self.occupancies;
        entry.material = self.material;
        entry.hash = self.hash;
        entry.halfmove_clock = self.halfmove_clock;
        self.position_stack.set(self.depth, entry);
    }

    /// Plays a move. Returns false, leaving the position as it was, when only captures are
    /// allowed and the move is quiet, or when an en passant capture leaves the mover's king
    /// attacked; see `make_move_post` for the full effect.
    pub fn make_move(&mut self, m: &BitPackedMove, only_captures: bool) -> (r: bool)
        requires
            old(self).wf(),
            old(self).depth < STACK_SIZE,
            move_playable(*old(self), *m),
        ensures
            make_move_post(*old(self), *final(self), *m, only_captures, r),
            final(self).wf(),
    {
        if only_captures && !m.is_capture() {
            return false;
        }
        let ghost pre = *self;
        let p = m.get_piece().to_index();
        self.save_history();

        let mut bb = place_piece(self.bitboards, m);
        if (p == 0 || p == 6) && m.is_enpassant() {
            bb = remove_enpassant_victim(bb, self.occupancies[0], self.occupancies[2], m, self.turn);
            self.bitboards = bb;
            self.update_occupancies();
            proof {
                assert(self.bitboards@ =~= moved_bitboards(pre.bitboards@, pre.occupancies[0], pre.occupancies[2], *m, pre.turn));
            }
            if self.is_in_check() {
                self.depth = self.depth + 1;
                self.unmake_move();
                return false;
            }
        }
        if (p == 5 || p == 11) && m.is_castle() {
            bb = move_castle_rook(bb, m.get_to());
        }
        proof {
            assert(bb@ =~= moved_bitboards(pre.bitboards@, pre.occupancies[0], pre.occupancies[2], *m, pre.turn));
        }
        self.bitboards = bb;
        self.enpassant = new_enpassant(m);
        update_castling(&mut self.castling, m);
        self.update_occupancies();
        self.depth = self.depth + 1;
        self.turn = self.turn.opponent();
        proof {
            lemma_moved_castling_small(pre.castling@, *m);
        }
        self.update_hash();
        true
    }
}

/// Removing rights keeps the castling rights in four bits.
proof fn lemma_moved_castling_small(rights: u8, m: BitPackedMove)
    requires
        rights < 16,
    ensures
        moved_castling(rights, m) < 16,
{
    lemma_rights_bits(rights);
    let r1 = if m.piece_idx() == 5 { rights & !3u8 } else if m.piece_idx() == 11 { rights & !12u8 } else { rights };
    lemma_rights_bits(r1);
}

/// Removing castling rights from four-bit rights: the removed rights are gone, the others
/// are kept, and the rights stay in four bits.
proof fn lemma_rights_bits(r: u8)
    by (bit_vector)
    requires
        r < 16,
    ensures
        (r & !3u8) < 16 && (r & !12u8) < 16,
        (r & !1u8) < 16 && (r & !2u8) < 16 && (r & !4u8) < 16 && (r & !8u8) < 16,
        (r & !3u8) & 3u8 == 0 && (r & !3u8) & 12u8 == r & 12u8,
        (r & !12u8) & 12u8 == 0 && (r & !12u8) & 3u8 == r & 3u8,
        (r & !1u8) & 1u8 == 0 && (r & !1u8) & 14u8 == r & 14u8,
        (r & !2u8) & 2u8 == 0 && (r & !2u8) & 13u8 == r & 13u8,
        (r & !4u8) & 4u8 == 0 && (r & !4u8) & 11u8 == r & 11u8,
        (r & !8u8) & 8u8 == 0 && (r & !8u8) & 7u8 == r & 7u8,
{
}

/// How a move played changes the castling rights (bit 1 white kingside, 2 white queenside,
/// 4 black kingside, 8 black queenside): a king move takes away both rights of its color and
/// keeps the other color's; a rook leaving its corner takes away the right on that corner's
/// side (h1 white kingside, a1 white queenside, h8 black kingside, a8 black queenside) and
/// keeps every other right; any other move keeps all rights.
pub proof fn law_castling_after_move(pre: Position, post: Position, m: BitPackedMove, only_captures: bool)
    requires
        pre.wf(),
        make_move_post(pre, post, m, only_captures, true),
    ensures
        ({
            let r = pre.castling@;
            let s = post.castling@;
            let p = m.piece_idx();
            let from = m.from_sq();
            &&& p == 5 ==> s & 3u8 == 0 && s & 12u8 == r & 12u8
            &&& p == 11 ==> s & 12u8 == 0 && s & 3u8 == r & 3u8
            &&& p == 3 && from == 63 ==> s & 1u8 == 0 && s & 14u8 == r & 14u8
            &&& p == 3 && from == 56 ==> s & 2u8 == 0 && s & 13u8 == r & 13u8
            &&& p == 9 && from == 7 ==> s & 4u8 == 0 && s & 11u8 == r & 11u8
            &&& p == 9 && from == 0 ==> s & 8u8 == 0 && s & 7u8 == r & 7u8
            &&& p != 5 && p != 11 && !(p == 3 && (from == 56 || from == 63)) && !(p == 9 && (from == 0 || from == 7))
                ==> s == r
        }),
{
    lemma_rights_bits(pre.castling@);
}

/// Taking back a move that was played restores the board state: the pieces, occupancies, side
/// to move, en passant square, castling rights, material, hash and half-move clock, and the
/// depth. (The full-move number comes from the history slot, which a move does not write.)
pub proof fn law_unmake_undoes_make(
    pre: Position,
    mid: Position,
    post: Position,
    m: BitPackedMove,
    only_captures: bool,
)
    requires
        pre.wf(),
        pre.depth < STACK_SIZE,
        make_move_post(pre, mid, m, only_captures, true),
        unmake_move_post(mid, post),
    ensures
        same_board_state(pre, post),
        post.depth == pre.depth,
        post.fullmove_number == pre.position_stack@[pre.depth as int].fullmove_number,
        same_keys_and_lists(pre, post),
{
}

/// A move refused by `make_move` leaves the board state and depth as they were.
pub proof fn law_refused_move_changes_nothing(
    pre: Position,
    post: Position,
    m: BitPackedMove,
    only_captures: bool,
)
    requires
        make_move_post(pre, post, m, only_captures, false),
    ensures
        same_board_state(pre, post),
        post.depth == pre.depth,
        same_keys_and_lists(pre, post),
{
}

} // verus!
