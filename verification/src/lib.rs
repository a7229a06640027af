pub mod bitboard;
pub mod board;
pub mod chess;
pub mod movegen;
pub mod pst;
pub mod pv;
pub mod search;
pub mod tt;
pub mod uci;
pub mod utils;
