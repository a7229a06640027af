use vstd::prelude::*;

verus! {

use crate::board::attacks::{ray_attacks, row, col, slide};

/// The squares between the white king and rook for castling kingside (f1, g1).
pub const WHITE_KING_SIDE_CASTLE: u64 = 0x6000000000000000;
/// The squares between the white king and rook for castling queenside (b1, c1, d1).
pub const WHITE_QUEEN_SIDE_CASTLE: u64 = 0x0E00000000000000;
/// The squares between the black king and rook for castling kingside (f8, g8).
pub const BLACK_KING_SIDE_CASTLE: u64 = 0x0000000000000060;
/// The squares between the black king and rook for castling queenside (b8, c8, d8).
pub const BLACK_QUEEN_SIDE_CASTLE: u64 = 0x000000000000000E;

/// The sign of an integer.
pub open spec fn sign(x: int) -> int {
    if x > 0 {
        1
    } else if x < 0 {
        -1
    } else {
        0
    }
}

/// Whether two distinct squares share a rank, a file or a diagonal.
pub open spec fn aligned(a: int, b: int) -> bool {
    let dr = row(b) - row(a);
    let df = col(b) - col(a);
    a != b && (dr == 0 || df == 0 || dr == df || dr == -df)
}

/// The squares strictly between two squares that share a line: those a slider from `a`
/// passes on its way to `b`. Squares that share no line have nothing between them.
pub open spec fn between(a: int, b: int) -> u64 {
    if aligned(a, b) {
        ray_attacks(a, sign(row(b) - row(a)), sign(col(b) - col(a)), 1u64 << (b as u64), 1)
            & !(1u64 << (b as u64))
    } else {
        0
    }
}

/// Returns the squares strictly between `a` and `b` when they share a line, otherwise none.
pub fn squares_between(a: usize, b: usize) -> (r: u64)
    requires
        a < 64,
        b < 64,
    ensures
        r == between(a as int, b as int),
{
    let ra: i32 = (a / 8) as i32;
    let fa: i32 = (a % 8) as i32;
    let rb: i32 = (b / 8) as i32;
    let fb: i32 = (b % 8) as i32;
    let dr = rb - ra;
    let df = fb - fa;
    if a == b || !(dr == 0 || df == 0 || dr == df || dr == -df) {
        return 0;
    }
    let sr: i32 = if dr > 0 { 1 } else if dr < 0 { -1 } else { 0 };
    let sf: i32 = if df > 0 { 1 } else if df < 0 { -1 } else { 0 };
    slide(a as u8, sr, sf, 1u64 << (b as u64)) & !(1u64 << (b as u64))
}

} // verus!
