use vstd::prelude::*;

verus! {

/// A square of the board, 0..=63: a8 is 0, h8 is 7, a1 is 56 and h1 is 63.
pub type Square = u8;

pub const A8: u8 = 0;
pub const B8: u8 = 1;
pub const C8: u8 = 2;
pub const D8: u8 = 3;
pub const E8: u8 = 4;
pub const F8: u8 = 5;
pub const G8: u8 = 6;
pub const H8: u8 = 7;
pub const A2: u8 = 48;
pub const H2: u8 = 55;
pub const A1: u8 = 56;
pub const B1: u8 = 57;
pub const C1: u8 = 58;
pub const D1: u8 = 59;
pub const E1: u8 = 60;
pub const F1: u8 = 61;
pub const G1: u8 = 62;
pub const H1: u8 = 63;

/// The row of a square counted from the eighth rank (0 for rank 8, 7 for rank 1).
pub open spec fn row(sq: int) -> int {
    sq / 8
}

/// The file of a square (0 for the a-file, 7 for the h-file).
pub open spec fn col(sq: int) -> int {
    sq % 8
}

/// The lowercase name of a square, such as "e4".
pub open spec fn square_name(sq: int) -> Seq<char> {
    seq![(('a' as u8) + col(sq)) as char, (('8' as u8) - row(sq)) as char]
}

/// The file letter of a file index.
pub fn file_char(file: u8) -> (c: char)
    requires
        file < 8,
    ensures
        c == (('a' as u8) + file) as char,
{
    match file {
        0 => 'a',
        1 => 'b',
        2 => 'c',
        3 => 'd',
        4 => 'e',
        5 => 'f',
        6 => 'g',
        _ => 'h',
    }
}

/// The rank digit of a row index (row 0 is rank 8).
pub fn rank_char(row: u8) -> (c: char)
    requires
        row < 8,
    ensures
        c == (('8' as u8) - row) as char,
{
    match row {
        0 => '8',
        1 => '7',
        2 => '6',
        3 => '5',
        4 => '4',
        5 => '3',
        6 => '2',
        _ => '1',
    }
}

/// Whether the bytes name a square, such as "e3".
pub open spec fn is_square_name(s: Seq<u8>) -> bool {
    &&& s.len() == 2
    &&& 'a' as u8 <= s[0] <= 'h' as u8
    &&& '1' as u8 <= s[1] <= '8' as u8
}

/// The square named by the bytes.
pub open spec fn square_of_name(s: Seq<u8>) -> int {
    ('8' as u8 - s[1]) * 8 + (s[0] - 'a' as u8)
}

/// Parses a square name such as "e3".
pub fn square_from_bytes(s: &[u8]) -> (r: Option<Square>)
    ensures
        r is Some <==> is_square_name(s@),
        r matches Some(sq) ==> sq == square_of_name(s@) && sq < 64,
{
    if s.len() != 2 {
        return None;
    }
    let f = s[0];
    let r = s[1];
    if f < 97 || f > 104 || r < 49 || r > 56 {
        return None;
    }
    Some((56 - r) * 8 + (f - 97))
}

} // verus!
