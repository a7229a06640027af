use vstd::prelude::*;

verus! {

use crate::chess::color::Color;
use vstd::string::StringSliceAdditionalSpecFns;
use crate::chess::piece::{Piece, is_piece_char, piece_from_char};
use crate::chess::square::{is_square_name, square_of_name, square_from_bytes};

/// The pieces of a string cut at every space (as `str::split(' ')` cuts it).
pub open spec fn split_spaces(s: Seq<u8>) -> Seq<Seq<u8>>
    decreases s.len(),
{
    if s.len() == 0 {
        seq![Seq::<u8>::empty()]
    } else {
        let prev = split_spaces(s.drop_last());
        if s.last() == 32u8 {
            prev.push(Seq::<u8>::empty())
        } else {
            prev.update(prev.len() - 1, prev.last().push(s.last()))
        }
    }
}

/// `split_spaces` never returns an empty list.
pub proof fn lemma_split_nonempty(s: Seq<u8>)
    ensures
        split_spaces(s).len() >= 1,
    decreases s.len(),
{
    if s.len() > 0 {
        lemma_split_nonempty(s.drop_last());
    }
}

/// Whether `c` is an ASCII digit.
pub open spec fn is_digit(c: u8) -> bool {
    48 <= c <= 57
}

/// The state of the piece-placement reader after the first `n` bytes of the field:
/// whether it is still valid, the square it reached, and the twelve piece bitboards.
pub struct PlacementState {
    pub ok: bool,
    pub pos: int,
    pub boards: Seq<u64>,
}

/// Reads the first `n` bytes of the piece-placement field: '/' is skipped, a digit skips
/// that many squares, a piece letter puts that piece on the current square and moves on.
/// The field is invalid when a byte is none of these, when a piece would be put beyond the
/// last square, or when the square counter would pass 255.
pub open spec fn placement(sec: Seq<u8>, n: nat) -> PlacementState
    decreases n,
{
    if n == 0 {
        PlacementState { ok: true, pos: 0, boards: Seq::new(12, |i: int| 0u64) }
    } else {
        let st = placement(sec, (n - 1) as nat);
        let c = sec[n - 1];
        if !st.ok {
            st
        } else if c == 47u8 {
            st
        } else if is_digit(c) {
            let p = st.pos + (c - 48);
            if p > 255 {
                PlacementState { ok: false, ..st }
            } else {
                PlacementState { pos: p, ..st }
            }
        } else if is_piece_char(c as char) && c != 46u8 {
            if st.pos >= 64 {
                PlacementState { ok: false, ..st }
            } else {
                let idx = piece_from_char(c as char)@ as int;
                PlacementState {
                    pos: st.pos + 1,
                    boards: st.boards.update(idx, st.boards[idx] | (1u64 << (st.pos as u64))),
                    ..st
                }
            }
        } else {
            PlacementState { ok: false, ..st }
        }
    }
}

/// The state of the castling reader after the first `n` bytes: whether it is valid,
/// whether it met '-', and the rights read so far.
pub struct CastlingState {
    pub ok: bool,
    pub stopped: bool,
    pub rights: u8,
}

/// Reads the castling field: 'K', 'Q', 'k', 'q' add their right, '-' ends the field,
/// any other byte before it makes the field invalid.
pub open spec fn castling_parse(sec: Seq<u8>, n: nat) -> CastlingState
    decreases n,
{
    if n == 0 {
        CastlingState { ok: true, stopped: false, rights: 0 }
    } else {
        let st = castling_parse(sec, (n - 1) as nat);
        let c = sec[n - 1];
        if !st.ok || st.stopped {
            st
        } else if c == 75u8 {
            CastlingState { rights: st.rights | 1u8, ..st }
        } else if c == 81u8 {
            CastlingState { rights: st.rights | 2u8, ..st }
        } else if c == 107u8 {
            CastlingState { rights: st.rights | 4u8, ..st }
        } else if c == 113u8 {
            CastlingState { rights: st.rights | 8u8, ..st }
        } else if c == 45u8 {
            CastlingState { stopped: true, ..st }
        } else {
            CastlingState { ok: false, ..st }
        }
    }
}

/// The value of a run of decimal digits.
pub open spec fn digits_value(s: Seq<u8>) -> int
    decreases s.len(),
{
    if s.len() == 0 {
        0
    } else {
        digits_value(s.drop_last()) * 10 + (s.last() - 48)
    }
}

/// Whether every byte is a digit.
pub open spec fn all_digits(s: Seq<u8>) -> bool {
    forall|i: int| 0 <= i < s.len() ==> is_digit(#[trigger] s[i])
}

/// The digits of a decimal number, without its optional leading '+'.
pub open spec fn number_digits(s: Seq<u8>) -> Seq<u8> {
    if s.len() > 0 && s[0] == 43u8 {
        s.subrange(1, s.len() as int)
    } else {
        s
    }
}

/// Whether the bytes are a number that `u32` parses: an optional '+', then at least one
/// digit, and a value that fits in 32 bits.
pub open spec fn is_u32_number(s: Seq<u8>) -> bool {
    let d = number_digits(s);
    d.len() > 0 && all_digits(d) && digits_value(d) <= u32::MAX
}

/// Whether the bytes are a FEN string the position reader accepts: at least six
/// space-separated fields; a valid piece placement; a side to move starting with 'w' or
/// 'b'; a valid castling field; '-' or a square name for en passant; and two numbers.
pub open spec fn fen_valid(s: Seq<u8>) -> bool {
    let f = split_spaces(s);
    &&& f.len() >= 6
    &&& placement(f[0], f[0].len()).ok
    &&& f[1].len() > 0 && (f[1][0] == 119u8 || f[1][0] == 98u8)
    &&& castling_parse(f[2], f[2].len()).ok
    &&& (f[3] == seq![45u8] || is_square_name(f[3]))
    &&& is_u32_number(f[4])
    &&& is_u32_number(f[5])
}

/// The fields a FEN string describes.
pub struct FenFields {
    pub bitboards: [u64; 12],
    pub turn: Color,
    pub castling: u8,
    pub enpassant: Option<u8>,
    pub halfmove_clock: u32,
    pub fullmove_number: u32,
}

/// The fields read from a valid FEN string.
pub open spec fn fen_fields_match(s: Seq<u8>, r: FenFields) -> bool {
    let f = split_spaces(s);
    &&& r.bitboards@ == placement(f[0], f[0].len()).boards
    &&& r.turn == (if f[1][0] == 119u8 { Color::White } else { Color::Black })
    &&& r.castling == castling_parse(f[2], f[2].len()).rights
    &&& r.enpassant == (if f[3] == seq![45u8] { None } else { Some(square_of_name(f[3]) as u8) })
    &&& r.halfmove_clock == digits_value(number_digits(f[4]))
    &&& r.fullmove_number == digits_value(number_digits(f[5]))
}

/// Cuts the bytes at every space.
pub fn split_at_spaces(s: &[u8]) -> (r: Vec<Vec<u8>>)
    ensures
        r@.len() == split_spaces(s@).len(),
        forall|i: int| 0 <= i < r@.len() ==> #[trigger] r@[i]@ == split_spaces(s@)[i],
{
    let mut out: Vec<Vec<u8>> = Vec::new();
    let mut cur: Vec<u8> = Vec::new();
    let mut i: usize = 0;
    proof {
        assert(s@.take(0) =~= Seq::<u8>::empty());
    }
    while i < s.len()
        invariant
            i <= s@.len(),
            out@.len() + 1 == split_spaces(s@.take(i as int)).len(),
            forall|k: int| 0 <= k < out@.len() ==> #[trigger] out@[k]@ == split_spaces(s@.take(i as int))[k],
            cur@ == split_spaces(s@.take(i as int)).last(),
        decreases s@.len() - i,
    {
        let c = s[i];
        proof {
            assert(s@.take(i + 1).drop_last() =~= s@.take(i as int));
            lemma_split_nonempty(s@.take(i as int));
        }
        if c == 32 {
            let done = cur;
            out.push(done);
            cur = Vec::new();
        } else {
            cur.push(c);
        }
        i = i + 1;
    }
    proof {
        assert(s@.take(s@.len() as int) =~= s@);
    }
    out.push(cur);
    out
}

/// Reads the piece-placement field.
pub fn parse_placement(sec: &Vec<u8>) -> (r: Option<[u64; 12]>)
    ensures
        r is Some <==> placement(sec@, sec@.len()).ok,
        r matches Some(b) ==> b@ == placement(sec@, sec@.len()).boards,
{
    let mut boards: [u64; 12] = [0u64; 12];
    let mut pos: u32 = 0;
    let mut i: usize = 0;
    proof {
        assert(boards@ =~= placement(sec@, 0).boards);
    }
    while i < sec.len()
        invariant
            i <= sec@.len(),
            placement(sec@, i as nat).ok,
            pos == placement(sec@, i as nat).pos,
            pos <= 255,
            boards@ == placement(sec@, i as nat).boards,
            boards@.len() == 12,
        decreases sec@.len() - i,
    {
        let c = sec[i];
        if c == 47 {
        } else if c >= 48 && c <= 57 {
            let p = pos + (c - 48) as u32;
            if p > 255 {
                proof {
                    lemma_placement_stays_invalid(sec@, (i + 1) as nat, sec@.len());
                }
                return None;
            }
            pos = p;
        } else if is_piece_byte(c) {
            if pos >= 64 {
                proof {
                    lemma_placement_stays_invalid(sec@, (i + 1) as nat, sec@.len());
                }
                return None;
            }
            let piece = Piece::from_char(c as char);
            let idx = piece.to_index();
            boards[idx] = boards[idx] | (1u64 << (pos as u64));
            proof {
                assert(boards@ =~= placement(sec@, (i + 1) as nat).boards);
            }
            pos = pos + 1;
        } else {
            proof {
                lemma_placement_stays_invalid(sec@, (i + 1) as nat, sec@.len());
            }
            return None;
        }
        i = i + 1;
    }
    Some(boards)
}

/// Whether the byte is the letter of one of the twelve pieces.
fn is_piece_byte(c: u8) -> (r: bool)
    ensures
        r == (is_piece_char(c as char) && c != 46u8),
{
    c == 112 || c == 110 || c == 98 || c == 114 || c == 113 || c == 107 || c == 80 || c == 78
        || c == 66 || c == 82 || c == 81 || c == 75
}

/// Once the placement reader fails, it stays failed.
proof fn lemma_placement_stays_invalid(sec: Seq<u8>, n: nat, m: nat)
    requires
        n <= m <= sec.len(),
        !placement(sec, n).ok,
    ensures
        !placement(sec, m).ok,
    decreases m - n,
{
    if n < m {
        lemma_placement_stays_invalid(sec, n + 1, m);
    }
}

/// Reads the castling field.
pub fn parse_castling(sec: &Vec<u8>) -> (r: Option<u8>)
    ensures
        r is Some <==> castling_parse(sec@, sec@.len()).ok,
        r matches Some(v) ==> v == castling_parse(sec@, sec@.len()).rights,
{
    let mut rights: u8 = 0;
    let mut i: usize = 0;
    while i < sec.len()
        invariant
            i <= sec@.len(),
            castling_parse(sec@, i as nat).ok,
            !castling_parse(sec@, i as nat).stopped,
            rights == castling_parse(sec@, i as nat).rights,
        decreases sec@.len() - i,
    {
        let c = sec[i];
        if c == 75 {
            rights = rights | 1;
        } else if c == 81 {
            rights = rights | 2;
        } else if c == 107 {
            rights = rights | 4;
        } else if c == 113 {
            rights = rights | 8;
        } else if c == 45 {
            proof {
                lemma_castling_stays_stopped(sec@, (i + 1) as nat, sec@.len());
            }
            return Some(rights);
        } else {
            proof {
                lemma_castling_stays_stopped(sec@, (i + 1) as nat, sec@.len());
            }
            return None;
        }
        i = i + 1;
    }
    Some(rights)
}

/// Once the castling reader stops or fails, nothing changes.
proof fn lemma_castling_stays_stopped(sec: Seq<u8>, n: nat, m: nat)
    requires
        n <= m <= sec.len(),
        !castling_parse(sec, n).ok || castling_parse(sec, n).stopped,
    ensures
        castling_parse(sec, m) == castling_parse(sec, n),
    decreases m - n,
{
    if n < m {
        lemma_castling_stays_stopped(sec, n + 1, m);
    }
}

/// Parses a number the way `u32` parses one.
pub fn parse_u32(s: &Vec<u8>) -> (r: Option<u32>)
    ensures
        r is Some <==> is_u32_number(s@),
        r matches Some(v) ==> v == digits_value(number_digits(s@)),
{
    let start: usize = if s.len() > 0 && s[0] == 43 { 1 } else { 0 };
    let ghost d = number_digits(s@);
    proof {
        assert(d =~= s@.subrange(start as int, s@.len() as int));
    }
    if start >= s.len() {
        return None;
    }
    let mut value: u64 = 0;
    let mut i: usize = start;
    while i < s.len()
        invariant
            start <= i <= s@.len(),
            d == s@.subrange(start as int, s@.len() as int),
            d == number_digits(s@),
            all_digits(s@.subrange(start as int, i as int)),
            value == digits_value(s@.subrange(start as int, i as int)),
            value <= u32::MAX,
        decreases s@.len() - i,
    {
        let c = s[i];
        proof {
            assert(s@.subrange(start as int, i + 1).drop_last() =~= s@.subrange(start as int, i as int));
        }
        if c < 48 || c > 57 {
            proof {
                assert(d[i - start] == s@[i as int]);
                assert(!is_digit(d[i - start]));
                assert(!all_digits(d));
            }
            return None;
        }
        let v = value * 10 + (c - 48) as u64;
        if v > 4294967295 {
            proof {
                if all_digits(d) {
                    lemma_digits_value_grows(d, (i - start + 1) as nat);
                    assert(d.subrange(0, (i - start + 1) as int) =~= s@.subrange(start as int, i + 1));
                }
            }
            return None;
        }
        value = v;
        i = i + 1;
    }
    proof {
        assert(s@.subrange(start as int, i as int) =~= d);
    }
    Some(value as u32)
}

/// A number never gets smaller when more digits follow.
proof fn lemma_digits_value_grows(d: Seq<u8>, n: nat)
    requires
        n <= d.len(),
        all_digits(d),
    ensures
        digits_value(d) >= digits_value(d.subrange(0, n as int)),
    decreases d.len(),
{
    if d.len() > n {
        assert(all_digits(d.drop_last()));
        lemma_digits_value_grows(d.drop_last(), n);
        assert(d.drop_last().subrange(0, n as int) =~= d.subrange(0, n as int));
        lemma_digits_nonneg(d.drop_last());
    } else {
        assert(d.subrange(0, n as int) =~= d);
    }
}

proof fn lemma_digits_nonneg(d: Seq<u8>)
    requires
        all_digits(d),
    ensures
        digits_value(d) >= 0,
    decreases d.len(),
{
    if d.len() > 0 {
        assert(all_digits(d.drop_last()));
        lemma_digits_nonneg(d.drop_last());
    }
}

/// Reads a FEN string; `None` when the string is not one the position reader accepts.
pub fn parse_fen(fen: &[u8]) -> (r: Option<FenFields>)
    ensures
        r is Some <==> fen_valid(fen@),
        r matches Some(f) ==> fen_fields_match(fen@, f),
{
    let sections = split_at_spaces(fen);
    if sections.len() < 6 {
        return None;
    }
    let bitboards = match parse_placement(&sections[0]) {
        Some(b) => b,
        None => {
            return None;
        },
    };
    let turn_sec = &sections[1];
    if turn_sec.len() == 0 || (turn_sec[0] != 119 && turn_sec[0] != 98) {
        return None;
    }
    let turn = if turn_sec[0] == 119 { Color::White } else { Color::Black };
    let castling = match parse_castling(&sections[2]) {
        Some(c) => c,
        None => {
            return None;
        },
    };
    let ep_sec = &sections[3];
    let enpassant = if ep_sec.len() == 1 && ep_sec[0] == 45 {
        proof {
            assert(ep_sec@ =~= seq![45u8]);
        }
        None
    } else {
        match square_from_bytes(ep_sec.as_slice()) {
            Some(sq) => Some(sq),
            None => {
                proof {
                    assert(ep_sec@ != seq![45u8]);
                }
                return None;
            },
        }
    };
    proof {
        if ep_sec.len() != 1 || ep_sec[0] != 45 {
            assert(ep_sec@ != seq![45u8]);
        }
    }
    let halfmove_clock = match parse_u32(&sections[4]) {
        Some(v) => v,
        None => {
            return None;
        },
    };
    let fullmove_number = match parse_u32(&sections[5]) {
        Some(v) => v,
        None => {
            return None;
        },
    };
    Some(FenFields { bitboards, turn, castling, enpassant, halfmove_clock, fullmove_number })
}

/// Whether the string is a FEN string the position reader accepts.
pub fn is_valid_fen(fen: &str) -> (r: bool)
    ensures
        r == fen_valid(fen.spec_bytes()),
{
    parse_fen(fen.as_bytes()).is_some()
}

} // verus!
