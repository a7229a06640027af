use vstd::prelude::*;

verus! {

/// The FEN of the initial position.
pub const STARTING_FEN: &'static str = "rnbqkbnr/pppppppp/8/8/8/8/PPPPPPPP/RNBQKBNR w KQkq - 0 1";

pub const FILE_A: u64 = 0x0101010101010101;
pub const FILE_H: u64 = 0x8080808080808080;
pub const FILE_GH: u64 = 0xC0C0C0C0C0C0C0C0;
pub const FILE_AB: u64 = 0x0303030303030303;

pub const RANK_8: u64 = 0x00000000000000FF;
pub const RANK_7: u64 = 0x000000000000FF00;
pub const RANK_6: u64 = 0x0000000000FF0000;
pub const RANK_5: u64 = 0x00000000FF000000;
pub const RANK_4: u64 = 0x000000FF00000000;
pub const RANK_2: u64 = 0x00FF000000000000;
pub const RANK_1: u64 = 0xFF00000000000000;

/// Every square of the board.
pub const FULL_BOARD: u64 = 0xFFFFFFFFFFFFFFFF;

} // verus!
