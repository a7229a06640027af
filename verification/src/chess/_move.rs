use vstd::prelude::*;

verus! {

use crate::chess::piece::Piece;
use crate::chess::square::{Square, square_name, file_char, rank_char};
use crate::chess::piece::{piece_char, get_piece_char};
use crate::utils::string_push;

/// A move of the game of chess, packed in a single u32:
///
/// ```text
///  from      to        piece   capture  castle   promotion   en_passant
///  00000000  00000000  0000    0000     0        0000        0
/// ```
#[derive(Clone, Copy, Debug, PartialEq, Eq, Structural)]
pub struct BitPackedMove {
    pub move_bits: u32,
}

/// The square the piece moves from.
pub open spec fn from_field(bits: u32) -> u32 {
    bits >> 22u32
}

/// The square the piece moves to.
pub open spec fn to_field(bits: u32) -> u32 {
    (bits >> 14u32) & 0xFFu32
}

/// The index of the moving piece.
pub open spec fn piece_field(bits: u32) -> u32 {
    (bits >> 10u32) & 0xFu32
}

/// The index of the captured piece (12 for none).
pub open spec fn capture_field(bits: u32) -> u32 {
    (bits >> 6u32) & 0xFu32
}

/// Whether the move castles.
pub open spec fn castle_field(bits: u32) -> bool {
    (bits >> 5u32) & 1u32 == 1u32
}

/// The index of the piece promoted to (12 for none).
pub open spec fn promotion_field(bits: u32) -> u32 {
    (bits >> 1u32) & 0xFu32
}

/// Whether the move captures en passant.
pub open spec fn enpassant_field(bits: u32) -> bool {
    bits & 1u32 == 1u32
}

impl BitPackedMove {
    /// The square the piece moves from.
    pub open spec fn from_sq(self) -> u32 {
        from_field(self.move_bits)
    }

    /// The square the piece moves to.
    pub open spec fn to_sq(self) -> u32 {
        to_field(self.move_bits)
    }

    /// The index of the moving piece.
    pub open spec fn piece_idx(self) -> u32 {
        piece_field(self.move_bits)
    }

    /// The index of the captured piece (12 for none).
    pub open spec fn capture_idx(self) -> u32 {
        capture_field(self.move_bits)
    }

    /// The index of the promoted piece (12 for none).
    pub open spec fn promotion_idx(self) -> u32 {
        promotion_field(self.move_bits)
    }

    /// Whether the move castles.
    pub open spec fn castle_flag(self) -> bool {
        castle_field(self.move_bits)
    }

    /// Whether the move captures en passant.
    pub open spec fn enpassant_flag(self) -> bool {
        enpassant_field(self.move_bits)
    }

    /// Every field of the move holds a value its getter accepts.
    pub open spec fn wf(self) -> bool {
        &&& self.from_sq() < 64
        &&& self.to_sq() < 64
        &&& self.piece_idx() <= 12
        &&& self.capture_idx() <= 12
        &&& self.promotion_idx() <= 12
    }

    /// Returns a move, given the current square of the moving piece, the square to which it will
    /// move to, and the actual piece itself. This constructs the most basic type of move.
    pub fn new(from: Square, to: Square, piece: Piece) -> (r: BitPackedMove)
        ensures
            r.from_sq() == from,
            r.to_sq() == to,
            r.piece_idx() == piece@,
            r.capture_idx() == 12,
            r.promotion_idx() == 12,
            !r.castle_flag(),
            !r.enpassant_flag(),
    {
        let mut bit_packed_move = BitPackedMove { move_bits: 0 };
        proof {
            assert(!castle_field(0u32) && !enpassant_field(0u32) && from_field(0u32) == 0
                && to_field(0u32) == 0 && piece_field(0u32) == 0 && capture_field(0u32) == 0
                && promotion_field(0u32) == 0 && (0u32 >> 30u32) == 0) by (bit_vector);
        }
        bit_packed_move.set_from(from);
        bit_packed_move.set_to(to);
        bit_packed_move.set_piece(piece);
        bit_packed_move.set_promotion(Piece::Empty);
        bit_packed_move.set_capture(Piece::Empty);
        bit_packed_move
    }

    /// Returns an invalid null move: an empty piece moving from a8 to a8.
    pub fn default() -> (r: BitPackedMove)
        ensures
            r.from_sq() == 0,
            r.to_sq() == 0,
            r.piece_idx() == 12,
            r.capture_idx() == 12,
            r.promotion_idx() == 12,
            !r.castle_flag(),
            !r.enpassant_flag(),
            r == null_move(),
    {
        let mut bit_packed_move = BitPackedMove { move_bits: 0 };
        proof {
            assert(!castle_field(0u32) && !enpassant_field(0u32) && from_field(0u32) == 0
                && to_field(0u32) == 0 && piece_field(0u32) == 0 && capture_field(0u32) == 0
                && promotion_field(0u32) == 0) by (bit_vector);
        }
        bit_packed_move.set_piece(Piece::Empty);
        bit_packed_move.set_promotion(Piece::Empty);
        bit_packed_move.set_capture(Piece::Empty);
        proof {
            lemma_null_move_fields();
            lemma_move_eq_by_fields(bit_packed_move, null_move());
        }
        bit_packed_move
    }

    /// Returns the piece being moved
    pub fn get_piece(&self) -> (r: Piece)
        requires
            self.piece_idx() <= 12,
        ensures
            r@ == self.piece_idx(),
    {
        Piece::from_index(((self.move_bits >> 10u32) & 0xF) as usize)
    }

    /// Returns the initial square of the piece moving
    pub fn get_from(&self) -> (r: Square)
        requires
            self.from_sq() < 64,
        ensures
            r == self.from_sq(),
    {
        (self.move_bits >> 22u32) as u8
    }

    /// Returns the square that the piece will move to
    pub fn get_to(&self) -> (r: Square)
        ensures
            r == self.to_sq(),
    {
        proof {
            let b = self.move_bits;
            assert((b >> 14u32) & 0xFFu32 <= 0xFFu32) by (bit_vector);
        }
        ((self.move_bits >> 14u32) & 0xFF) as u8
    }

    /// If the move results in a promotion, returns the resulting piece being
    /// promoted to, otherwise returns an empty piece
    pub fn get_promotion(&self) -> (r: Piece)
        requires
            self.promotion_idx() <= 12,
        ensures
            r@ == self.promotion_idx(),
    {
        Piece::from_index(((self.move_bits >> 1u32) & 0xF) as usize)
    }

    /// Returns the piece being captured, if not a capturing move, returns an empty piece
    pub fn get_capture(&self) -> (r: Piece)
        requires
            self.capture_idx() <= 12,
        ensures
            r@ == self.capture_idx(),
    {
        Piece::from_index(((self.move_bits >> 6u32) & 0xF) as usize)
    }

    /// Sets the piece that will be promoted to
    pub fn set_promotion(&mut self, promotion_piece: Piece)
        ensures
            final(self).promotion_idx() == promotion_piece@,
            final(self).from_sq() == old(self).from_sq(),
            final(self).to_sq() == old(self).to_sq(),
            final(self).piece_idx() == old(self).piece_idx(),
            final(self).capture_idx() == old(self).capture_idx(),
            final(self).castle_flag() == old(self).castle_flag(),
            final(self).enpassant_flag() == old(self).enpassant_flag(),
    {
        let v = promotion_piece.to_index() as u32;
        let b = self.move_bits;
        let nb = (b & !(0xFu32 << 1u32)) | (v << 1u32);
        proof {
            assert(v <= 12 ==> promotion_field(nb) == v && from_field(nb) == from_field(b)
                && to_field(nb) == to_field(b) && piece_field(nb) == piece_field(b)
                && capture_field(nb) == capture_field(b) && castle_field(nb) == castle_field(b)
                && enpassant_field(nb) == enpassant_field(b)) by (bit_vector)
                requires
                    nb == (b & !(0xFu32 << 1u32)) | (v << 1u32),
            ;
        }
        self.move_bits = nb;
    }

    /// Sets the piece that is being captured
    pub fn set_capture(&mut self, captured_piece: Piece)
        ensures
            final(self).capture_idx() == captured_piece@,
            final(self).from_sq() == old(self).from_sq(),
            final(self).to_sq() == old(self).to_sq(),
            final(self).piece_idx() == old(self).piece_idx(),
            final(self).promotion_idx() == old(self).promotion_idx(),
            final(self).castle_flag() == old(self).castle_flag(),
            final(self).enpassant_flag() == old(self).enpassant_flag(),
    {
        let v = captured_piece.to_index() as u32;
        let b = self.move_bits;
        let nb = (b & !(0xFu32 << 6u32)) | (v << 6u32);
        proof {
            assert(v <= 12 ==> capture_field(nb) == v && from_field(nb) == from_field(b)
                && to_field(nb) == to_field(b) && piece_field(nb) == piece_field(b)
                && promotion_field(nb) == promotion_field(b) && castle_field(nb) == castle_field(
                b) && enpassant_field(nb) == enpassant_field(b)) by (bit_vector)
                requires
                    nb == (b & !(0xFu32 << 6u32)) | (v << 6u32),
            ;
        }
        self.move_bits = nb;
    }

    /// Sets the move castle to true
    pub fn set_castle(&mut self)
        ensures
            final(self).castle_flag(),
            final(self).from_sq() == old(self).from_sq(),
            final(self).to_sq() == old(self).to_sq(),
            final(self).piece_idx() == old(self).piece_idx(),
            final(self).capture_idx() == old(self).capture_idx(),
            final(self).promotion_idx() == old(self).promotion_idx(),
            final(self).enpassant_flag() == old(self).enpassant_flag(),
    {
        let b = self.move_bits;
        let nb = b | (1u32 << 5u32);
        proof {
            assert(castle_field(nb) && from_field(nb) == from_field(b) && to_field(nb) == to_field(
                b) && piece_field(nb) == piece_field(b) && promotion_field(nb) == promotion_field(b)
                && capture_field(nb) == capture_field(b) && enpassant_field(nb) == enpassant_field(
                b)) by (bit_vector)
                requires
                    nb == b | (1u32 << 5u32),
            ;
        }
        self.move_bits = nb;
    }

    /// Sets the move enpassant to true
    pub fn set_enpassant(&mut self)
        ensures
            final(self).enpassant_flag(),
            final(self).from_sq() == old(self).from_sq(),
            final(self).to_sq() == old(self).to_sq(),
            final(self).piece_idx() == old(self).piece_idx(),
            final(self).capture_idx() == old(self).capture_idx(),
            final(self).promotion_idx() == old(self).promotion_idx(),
            final(self).castle_flag() == old(self).castle_flag(),
    {
        let b = self.move_bits;
        let nb = b | 1u32;
        proof {
            assert(enpassant_field(nb) && from_field(nb) == from_field(b) && to_field(nb)
                == to_field(b) && piece_field(nb) == piece_field(b) && promotion_field(nb)
                == promotion_field(b) && capture_field(nb) == capture_field(b) && castle_field(nb)
                == castle_field(b)) by (bit_vector)
                requires
                    nb == b | 1u32,
            ;
        }
        self.move_bits = nb;
    }

    /// Sets the inital square of the moving piece
    pub fn set_from(&mut self, from: Square)
        ensures
            *final(self) == with_from(*old(self), from),
            old(self).move_bits >> 30u32 == 0 ==> final(self).from_sq() == from,
            final(self).move_bits >> 30u32 == old(self).move_bits >> 30u32,
            final(self).to_sq() == old(self).to_sq(),
            final(self).piece_idx() == old(self).piece_idx(),
            final(self).capture_idx() == old(self).capture_idx(),
            final(self).promotion_idx() == old(self).promotion_idx(),
            final(self).castle_flag() == old(self).castle_flag(),
            final(self).enpassant_flag() == old(self).enpassant_flag(),
    {
        let v = from as u32;
        let b = self.move_bits;
        let nb = (b & !(0xFFu32 << 22u32)) | (v << 22u32);
        proof {
            assert(v <= 255 ==> (b >> 30u32 == 0 ==> from_field(nb) == v) && nb >> 30u32 == b >> 30u32 && to_field(nb)
                == to_field(b) && piece_field(nb) == piece_field(b) && promotion_field(nb)
                == promotion_field(b) && capture_field(nb) == capture_field(b) && castle_field(nb)
                == castle_field(b) && enpassant_field(nb) == enpassant_field(b)) by (bit_vector)
                requires
                    nb == (b & !(0xFFu32 << 22u32)) | (v << 22u32),
            ;
        }
        self.move_bits = nb;
    }

    /// Sets the square that the moving piece is moving to
    pub fn set_to(&mut self, to: Square)
        ensures
            final(self).to_sq() == to,
            final(self).from_sq() == old(self).from_sq(),
            final(self).piece_idx() == old(self).piece_idx(),
            final(self).capture_idx() == old(self).capture_idx(),
            final(self).promotion_idx() == old(self).promotion_idx(),
            final(self).castle_flag() == old(self).castle_flag(),
            final(self).enpassant_flag() == old(self).enpassant_flag(),
    {
        let v = to as u32;
        let b = self.move_bits;
        let nb = (b & !(0xFFu32 << 14u32)) | (v << 14u32);
        proof {
            assert(v <= 255 ==> to_field(nb) == v && from_field(nb) == from_field(b)
                && piece_field(nb) == piece_field(b) && promotion_field(nb) == promotion_field(b)
                && capture_field(nb) == capture_field(b) && castle_field(nb) == castle_field(b)
                && enpassant_field(nb) == enpassant_field(b)) by (bit_vector)
                requires
                    nb == (b & !(0xFFu32 << 14u32)) | (v << 14u32),
            ;
        }
        self.move_bits = nb;
    }

    /// Sets the piece that will be moving
    pub fn set_piece(&mut self, piece: Piece)
        ensures
            final(self).piece_idx() == piece@,
            final(self).from_sq() == old(self).from_sq(),
            final(self).to_sq() == old(self).to_sq(),
            final(self).capture_idx() == old(self).capture_idx(),
            final(self).promotion_idx() == old(self).promotion_idx(),
            final(self).castle_flag() == old(self).castle_flag(),
            final(self).enpassant_flag() == old(self).enpassant_flag(),
    {
        let v = piece.to_index() as u32;
        let b = self.move_bits;
        let nb = (b & !(0xFu32 << 10u32)) | (v << 10u32);
        proof {
            assert(v <= 12 ==> piece_field(nb) == v && from_field(nb) == from_field(b)
                && to_field(nb) == to_field(b) && promotion_field(nb) == promotion_field(b)
                && capture_field(nb) == capture_field(b) && castle_field(nb) == castle_field(b)
                && enpassant_field(nb) == enpassant_field(b)) by (bit_vector)
                requires
                    nb == (b & !(0xFu32 << 10u32)) | (v << 10u32),
            ;
        }
        self.move_bits = nb;
    }

    /// Returns true if the move is a capture, otherwise false
    pub fn is_capture(&self) -> (r: bool)
        ensures
            r == (self.capture_idx() != 12),
    {
        ((self.move_bits >> 6u32) & 0xF) != 12
    }

    /// Returns true if the move results in a promotion, otherwise false
    pub fn is_promotion(&self) -> (r: bool)
        ensures
            r == (self.promotion_idx() != 12),
    {
        ((self.move_bits >> 1u32) & 0xF) != 12
    }

    /// Returns true if the move is a castling move, otherwise false
    pub fn is_castle(&self) -> (r: bool)
        ensures
            r == self.castle_flag(),
    {
        ((self.move_bits >> 5u32) & 1) == 1
    }

    /// Returns true if the move is an enpassant move, otherwise false
    pub fn is_enpassant(&self) -> (r: bool)
        ensures
            r == self.enpassant_flag(),
    {
        (self.move_bits & 1) == 1
    }

    /// The move in UCI notation, such as "e2e4" or "a7a8q".
    pub fn to_uci_string(&self) -> (r: String)
        requires
            self.wf(),
        ensures
            r@ == uci_chars(*self),
    {
        let from = self.get_from();
        let to = self.get_to();
        let mut s = String::new();
        string_push(&mut s, file_char(from % 8));
        string_push(&mut s, rank_char(from / 8));
        string_push(&mut s, file_char(to % 8));
        string_push(&mut s, rank_char(to / 8));
        if self.is_promotion() {
            let c = lowercase_piece_char(self.get_promotion());
            string_push(&mut s, c);
        }
        s
    }
}

/// The lowercase letter of a piece.
pub open spec fn lowercase_char(c: char) -> char {
    if 'A' <= c <= 'Z' {
        ((c as u8) + 32) as char
    } else {
        c
    }
}

fn lowercase_piece_char(p: Piece) -> (r: char)
    ensures
        r == lowercase_char(piece_char(p)),
{
    match get_piece_char(p) {
        'P' => 'p',
        'N' => 'n',
        'B' => 'b',
        'R' => 'r',
        'Q' => 'q',
        'K' => 'k',
        c => c,
    }
}

/// A move written in UCI notation: from square, to square, and the lowercase
/// promotion piece when there is one.
pub open spec fn uci_chars(m: BitPackedMove) -> Seq<char> {
    let base = square_name(m.from_sq() as int) + square_name(m.to_sq() as int);
    if m.promotion_idx() != 12 {
        base.push(lowercase_char(piece_char(crate::chess::piece::piece_of_index(m.promotion_idx() as int))))
    } else {
        base
    }
}

/// The null move returned by `BitPackedMove::default`.
pub open spec fn null_move() -> BitPackedMove {
    BitPackedMove { move_bits: (12u32 << 10u32) | (12u32 << 6u32) | (12u32 << 1u32) }
}

/// The fields of the null move.
pub proof fn lemma_null_move_fields()
    ensures
        null_move().from_sq() == 0,
        null_move().to_sq() == 0,
        null_move().piece_idx() == 12,
        null_move().capture_idx() == 12,
        null_move().promotion_idx() == 12,
        !null_move().castle_flag(),
        !null_move().enpassant_flag(),
{
    assert(from_field((12u32 << 10u32) | (12u32 << 6u32) | (12u32 << 1u32)) == 0 && to_field(
        (12u32 << 10u32) | (12u32 << 6u32) | (12u32 << 1u32)) == 0 && piece_field((12u32 << 10u32)
        | (12u32 << 6u32) | (12u32 << 1u32)) == 12 && capture_field((12u32 << 10u32) | (12u32
        << 6u32) | (12u32 << 1u32)) == 12 && promotion_field((12u32 << 10u32) | (12u32 << 6u32) | (
        12u32 << 1u32)) == 12 && !castle_field((12u32 << 10u32) | (12u32 << 6u32) | (12u32
        << 1u32)) && !enpassant_field((12u32 << 10u32) | (12u32 << 6u32) | (12u32 << 1u32)))
        by (bit_vector);
}

/// The move with its from field replaced by `from`.
pub open spec fn with_from(m: BitPackedMove, from: u8) -> BitPackedMove {
    BitPackedMove { move_bits: (m.move_bits & !(0xFFu32 << 22u32)) | ((from as u32) << 22u32) }
}

/// Setting the from square of a move whose top two bits are clear gives that square and keeps
/// the other bits; setting it back to the old square gives back the move.
pub proof fn law_set_from_round_trip(m: BitPackedMove, from: u8)
    requires
        m.move_bits >> 30u32 == 0,
    ensures
        with_from(m, from).from_sq() == from,
        with_from(m, from).move_bits & !(0x3FC00000u32) == m.move_bits & !(0x3FC00000u32),
        with_from(with_from(m, from), m.from_sq() as u8) == m,
{
    let b = m.move_bits;
    let v = from as u32;
    assert(v <= 255 && b >> 30u32 == 0 ==> {
        let nb = (b & !(0xFFu32 << 22u32)) | (v << 22u32);
        &&& nb >> 22u32 == v
        &&& nb & !(0x3FC00000u32) == b & !(0x3FC00000u32)
        &&& (nb & !(0xFFu32 << 22u32)) | (((b >> 22u32) as u8 as u32) << 22u32) == b
    }) by (bit_vector);
}

/// Two moves whose seven fields agree are the same move.
pub proof fn lemma_move_eq_by_fields(a: BitPackedMove, b: BitPackedMove)
    requires
        a.from_sq() == b.from_sq(),
        a.to_sq() == b.to_sq(),
        a.piece_idx() == b.piece_idx(),
        a.capture_idx() == b.capture_idx(),
        a.promotion_idx() == b.promotion_idx(),
        a.castle_flag() == b.castle_flag(),
        a.enpassant_flag() == b.enpassant_flag(),
    ensures
        a == b,
{
    let x = a.move_bits;
    let y = b.move_bits;
    assert(x == y) by (bit_vector)
        requires
            from_field(x) == from_field(y),
            to_field(x) == to_field(y),
            piece_field(x) == piece_field(y),
            capture_field(x) == capture_field(y),
            promotion_field(x) == promotion_field(y),
            castle_field(x) == castle_field(y),
            enpassant_field(x) == enpassant_field(y),
    ;
}

/// Represents a move with a priority used for ordering moves during search.
#[derive(Clone, Copy, Debug)]
pub struct PrioritizedMove {
    pub priority: u32,
    pub m: BitPackedMove,
}

impl PrioritizedMove {
    /// A move paired with its priority.
    pub fn new(m: BitPackedMove, priority: u32) -> (r: Self)
        ensures
            r.priority == priority,
            r.m == m,
    {
        Self { priority, m }
    }

    /// The null move with priority zero.
    pub fn default() -> (r: Self)
        ensures
            r.priority == 0,
            r.m == null_move(),
    {
        Self { priority: 0, m: BitPackedMove::default() }
    }

    /// Prioritized moves compare equal when their priorities are equal.
    pub fn eq(&self, other: &Self) -> (r: bool)
        ensures
            r == (self.priority == other.priority),
    {
        self.priority == other.priority
    }

    /// Prioritized moves are ordered by their priority: whether `self` comes before `other`.
    pub fn lt(&self, other: &Self) -> (r: bool)
        ensures
            r == (self.priority < other.priority),
    {
        self.priority < other.priority
    }
}

} // verus!
