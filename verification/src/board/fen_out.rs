use vstd::prelude::*;

verus! {

use crate::board::{Position, piece_on};
use crate::chess::color::Color;
use crate::chess::piece::piece_char;
use crate::chess::square::{square_name, file_char, rank_char};
use crate::chess::castling_rights::{WHITE_KINGSIDE, WHITE_QUEENSIDE, BLACK_KINGSIDE, BLACK_QUEENSIDE};
use crate::utils::{bit, get_bit, string_push};

/// The digit of a number below ten.
pub open spec fn digit_char(d: nat) -> char {
    (('0' as u8) + d) as char
}

/// The decimal digits of a number.
pub open spec fn decimal(n: nat) -> Seq<char>
    decreases n,
{
    if n < 10 {
        seq![digit_char(n)]
    } else {
        decimal(n / 10).push(digit_char(n % 10))
    }
}

/// The count of empty squares, written when it is not zero.
pub open spec fn empty_run(empty: nat) -> Seq<char> {
    if empty == 0 { Seq::empty() } else { decimal(empty) }
}

/// The piece placement of a FEN string from square `i` on, with `empty` empty squares counted
/// just before it: rank by rank from the eighth, separated by '/', each piece by its letter
/// and each run of empty squares by its length.
pub open spec fn placement_from(pos: Position, i: nat, empty: nat) -> Seq<char>
    decreases 64 - i,
{
    if i >= 64 {
        empty_run(empty)
    } else {
        let at_rank_start = i % 8 == 0 && i != 0;
        let prefix = if at_rank_start { empty_run(empty).push('/') } else { Seq::empty() };
        let e = if at_rank_start { 0 } else { empty };
        if !bit(pos.occupancies[2], i as u64) {
            prefix + placement_from(pos, i + 1, e + 1)
        } else {
            prefix + empty_run(e).push(piece_char(piece_on(pos.bitboards@, pos.occupancies[0], i as u64)))
                + placement_from(pos, i + 1, 0)
        }
    }
}

/// What the placement writes for square `i` with `empty` empty squares counted before it, and
/// the count of empty squares after it.
pub open spec fn placement_step(pos: Position, i: nat, empty: nat) -> (Seq<char>, nat) {
    let at_rank_start = i % 8 == 0 && i != 0;
    let prefix = if at_rank_start { empty_run(empty).push('/') } else { Seq::empty() };
    let e = if at_rank_start { 0 } else { empty };
    if !bit(pos.occupancies[2], i as u64) {
        (prefix, e + 1)
    } else {
        (prefix + empty_run(e).push(piece_char(piece_on(pos.bitboards@, pos.occupancies[0], i as u64))), 0)
    }
}

/// The castling field: K, Q, k, q for each right held, or '-' when none is.
pub open spec fn castling_chars(rights: u8) -> Seq<char> {
    let k = if rights & WHITE_KINGSIDE != 0 { seq!['K'] } else { Seq::empty() };
    let q = if rights & WHITE_QUEENSIDE != 0 { seq!['Q'] } else { Seq::empty() };
    let bk = if rights & BLACK_KINGSIDE != 0 { seq!['k'] } else { Seq::empty() };
    let bq = if rights & BLACK_QUEENSIDE != 0 { seq!['q'] } else { Seq::empty() };
    let none = if rights == 0 { seq!['-'] } else { Seq::empty() };
    k + q + bk + bq + none
}

/// The FEN string of the position: placement, side to move, castling rights, en passant
/// square (or '-'), half-move clock and full-move number, separated by spaces.
pub open spec fn fen_chars(pos: Position) -> Seq<char> {
    placement_from(pos, 0, 0) + seq![' ', if pos.turn == Color::White { 'w' } else { 'b' }, ' ']
        + castling_chars(pos.castling@) + seq![' ']
        + (match pos.enpassant { Some(s) => square_name(s as int), None => seq!['-'] })
        + seq![' '] + decimal(pos.halfmove_clock as nat) + seq![' '] + decimal(pos.fullmove_number as nat)
}

/// Appends the decimal digits of a number.
pub fn push_decimal(s: &mut String, n: u32)
    ensures
        final(s)@ == old(s)@ + decimal(n as nat),
    decreases n,
{
    if n >= 10 {
        push_decimal(s, n / 10);
    }
    let d = (n % 10) as u8;
    let c = ((48u8 + d) as char);
    proof {
        assert(c == digit_char((n % 10) as nat));
    }
    string_push(s, c);
    proof {
        if n >= 10 {
            assert(decimal(n as nat) == decimal((n / 10) as nat).push(digit_char((n % 10) as nat)));
        }
        assert(final(s)@ =~= old(s)@ + decimal(n as nat));
    }
}

/// Appends the count of empty squares when it is not zero.
fn push_empty_run(s: &mut String, empty: u32)
    ensures
        final(s)@ == old(s)@ + empty_run(empty as nat),
{
    if empty != 0 {
        push_decimal(s, empty);
    } else {
        assert(old(s)@ + empty_run(0) =~= old(s)@);
    }
}

impl Position {
    /// Appends the piece placement of the FEN string.
    fn push_placement(&self, fen: &mut String)
        ensures
            final(fen)@ == old(fen)@ + placement_from(*self, 0, 0),
    {
        let ghost start = fen@;
        let mut empty: u32 = 0;
        let mut i: u8 = 0;
        while i < 64
            invariant
                i <= 64,
                empty <= i,
                fen@ + placement_from(*self, i as nat, empty as nat) == start + placement_from(*self, 0, 0),
            decreases 64 - i,
        {
            let ghost before = fen@;
            let ghost old_empty = empty;
            let ghost step = placement_step(*self, i as nat, empty as nat);
            if i % 8 == 0 && i != 0 {
                push_empty_run(fen, empty);
                empty = 0;
                string_push(fen, '/');
            }
            if get_bit(self.occupancies[2], i) == 0 {
                empty = empty + 1;
            } else {
                let piece = self.get_piece_at_square(i);
                push_empty_run(fen, empty);
                empty = 0;
                string_push(fen, crate::chess::piece::get_piece_char(piece));
            }
            proof {
                assert(fen@ =~= before + step.0);
                assert(empty == step.1);
                assert(placement_from(*self, i as nat, old_empty as nat) == step.0 + placement_from(*self, (i + 1) as nat, step.1));
                assert(fen@ + placement_from(*self, (i + 1) as nat, empty as nat) =~= before + placement_from(*self, i as nat, old_empty as nat));
            }
            i = i + 1;
        }
        push_empty_run(fen, empty);
        proof {
            assert(fen@ =~= start + placement_from(*self, 0, 0));
        }
    }

    /// The FEN string of the position.
    pub fn as_fen(&self) -> (r: String)
        requires
            self.enpassant matches Some(s) ==> s < 64,
        ensures
            r@ == fen_chars(*self),
    {
        let mut fen = String::new();
        self.push_placement(&mut fen);
        let ghost a = fen@;
        string_push(&mut fen, ' ');
        string_push(&mut fen, if self.turn == Color::White { 'w' } else { 'b' });
        string_push(&mut fen, ' ');
        push_castling(&mut fen, self.castling.get_rights_u8());
        string_push(&mut fen, ' ');
        push_enpassant(&mut fen, self.enpassant);
        string_push(&mut fen, ' ');
        push_decimal(&mut fen, self.halfmove_clock);
        string_push(&mut fen, ' ');
        push_decimal(&mut fen, self.fullmove_number);
        proof {
            assert(fen@ =~= fen_chars(*self));
        }
        fen
    }
}

/// Appends the castling field.
fn push_castling(fen: &mut String, rights: u8)
    ensures
        final(fen)@ == old(fen)@ + castling_chars(rights),
{
    let ghost start = fen@;
    if rights & WHITE_KINGSIDE != 0 {
        string_push(fen, 'K');
    }
    let ghost a = fen@;
    if rights & WHITE_QUEENSIDE != 0 {
        string_push(fen, 'Q');
    }
    let ghost b = fen@;
    if rights & BLACK_KINGSIDE != 0 {
        string_push(fen, 'k');
    }
    let ghost c = fen@;
    if rights & BLACK_QUEENSIDE != 0 {
        string_push(fen, 'q');
    }
    let ghost d = fen@;
    if rights == 0 {
        string_push(fen, '-');
    }
    proof {
        assert(fen@ =~= start + castling_chars(rights));
    }
}

/// Appends the en passant field: the square's name, or '-'.
fn push_enpassant(fen: &mut String, enpassant: Option<u8>)
    requires
        enpassant matches Some(s) ==> s < 64,
    ensures
        final(fen)@ == old(fen)@ + (match enpassant { Some(s) => square_name(s as int), None => seq!['-'] }),
{
    match enpassant {
        Some(s) => {
            string_push(fen, file_char(s % 8));
            string_push(fen, rank_char(s / 8));
            proof {
                assert(fen@ =~= old(fen)@ + square_name(s as int));
            }
        },
        None => {
            string_push(fen, '-');
            proof {
                assert(fen@ =~= old(fen)@ + seq!['-']);
            }
        },
    }
}

} // verus!
