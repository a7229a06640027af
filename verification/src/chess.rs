pub mod _move;
pub mod castling_rights;
pub mod color;
pub mod constants;
pub mod piece;
pub mod square;
