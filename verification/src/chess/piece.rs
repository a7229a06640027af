use vstd::prelude::*;

verus! {

use crate::chess::color::Color;

/// Represents a chess piece
#[derive(Debug, PartialEq, Eq, Structural, Hash, Clone, Copy)]
pub enum Piece {
    WhitePawn,
    WhiteKnight,
    WhiteBishop,
    WhiteRook,
    WhiteQueen,
    WhiteKing,
    BlackPawn,
    BlackKnight,
    BlackBishop,
    BlackRook,
    BlackQueen,
    BlackKing,
    Empty,
}

impl View for Piece {
    type V = u8;

    /// The index of the piece: white pawn..king are 0..5, black pawn..king are 6..11,
    /// the empty piece is 12.
    open spec fn view(&self) -> u8 {
        match self {
            Piece::WhitePawn => 0,
            Piece::WhiteKnight => 1,
            Piece::WhiteBishop => 2,
            Piece::WhiteRook => 3,
            Piece::WhiteQueen => 4,
            Piece::WhiteKing => 5,
            Piece::BlackPawn => 6,
            Piece::BlackKnight => 7,
            Piece::BlackBishop => 8,
            Piece::BlackRook => 9,
            Piece::BlackQueen => 10,
            Piece::BlackKing => 11,
            Piece::Empty => 12,
        }
    }
}

/// The piece with index `i` (0..=12).
pub open spec fn piece_of_index(i: int) -> Piece {
    if i == 0 {
        Piece::WhitePawn
    } else if i == 1 {
        Piece::WhiteKnight
    } else if i == 2 {
        Piece::WhiteBishop
    } else if i == 3 {
        Piece::WhiteRook
    } else if i == 4 {
        Piece::WhiteQueen
    } else if i == 5 {
        Piece::WhiteKing
    } else if i == 6 {
        Piece::BlackPawn
    } else if i == 7 {
        Piece::BlackKnight
    } else if i == 8 {
        Piece::BlackBishop
    } else if i == 9 {
        Piece::BlackRook
    } else if i == 10 {
        Piece::BlackQueen
    } else if i == 11 {
        Piece::BlackKing
    } else {
        Piece::Empty
    }
}

/// The piece of the given kind (0 = pawn .. 5 = king) and color.
pub open spec fn piece_of(kind: int, color: Color) -> Piece {
    piece_of_index(kind + 6 * color@)
}

/// The character of a piece in FEN notation ('.' for the empty piece).
pub open spec fn piece_char(p: Piece) -> char {
    match p {
        Piece::BlackPawn => 'p',
        Piece::BlackKnight => 'n',
        Piece::BlackBishop => 'b',
        Piece::BlackRook => 'r',
        Piece::BlackQueen => 'q',
        Piece::BlackKing => 'k',
        Piece::WhitePawn => 'P',
        Piece::WhiteKnight => 'N',
        Piece::WhiteBishop => 'B',
        Piece::WhiteRook => 'R',
        Piece::WhiteQueen => 'Q',
        Piece::WhiteKing => 'K',
        Piece::Empty => '.',
    }
}

/// Whether `c` is the FEN character of a piece (or '.').
pub open spec fn is_piece_char(c: char) -> bool {
    c == 'p' || c == 'n' || c == 'b' || c == 'r' || c == 'q' || c == 'k' || c == 'P' || c == 'N'
        || c == 'B' || c == 'R' || c == 'Q' || c == 'K' || c == '.'
}

/// The piece written by the FEN character `c`.
pub open spec fn piece_from_char(c: char) -> Piece {
    if c == 'p' {
        Piece::BlackPawn
    } else if c == 'n' {
        Piece::BlackKnight
    } else if c == 'b' {
        Piece::BlackBishop
    } else if c == 'r' {
        Piece::BlackRook
    } else if c == 'q' {
        Piece::BlackQueen
    } else if c == 'k' {
        Piece::BlackKing
    } else if c == 'P' {
        Piece::WhitePawn
    } else if c == 'N' {
        Piece::WhiteKnight
    } else if c == 'B' {
        Piece::WhiteBishop
    } else if c == 'R' {
        Piece::WhiteRook
    } else if c == 'Q' {
        Piece::WhiteQueen
    } else if c == 'K' {
        Piece::WhiteKing
    } else {
        Piece::Empty
    }
}

/// Returns the character representation of a piece
pub fn get_piece_char(piece: Piece) -> (r: char)
    ensures
        r == piece_char(piece),
{
    match piece {
        Piece::BlackPawn => 'p',
        Piece::BlackKnight => 'n',
        Piece::BlackBishop => 'b',
        Piece::BlackRook => 'r',
        Piece::BlackQueen => 'q',
        Piece::BlackKing => 'k',
        Piece::WhitePawn => 'P',
        Piece::WhiteKnight => 'N',
        Piece::WhiteBishop => 'B',
        Piece::WhiteRook => 'R',
        Piece::WhiteQueen => 'Q',
        Piece::WhiteKing => 'K',
        Piece::Empty => '.',
    }
}

impl Piece {
    /// The pawn of the given color.
    pub fn pawn(color: Color) -> (r: Piece)
        ensures
            r == piece_of(0, color),
    {
        match color {
            Color::White => Piece::WhitePawn,
            Color::Black => Piece::BlackPawn,
        }
    }

    /// The knight of the given color.
    pub fn knight(color: Color) -> (r: Piece)
        ensures
            r == piece_of(1, color),
    {
        match color {
            Color::White => Piece::WhiteKnight,
            Color::Black => Piece::BlackKnight,
        }
    }

    /// The bishop of the given color.
    pub fn bishop(color: Color) -> (r: Piece)
        ensures
            r == piece_of(2, color),
    {
        match color {
            Color::White => Piece::WhiteBishop,
            Color::Black => Piece::BlackBishop,
        }
    }

    /// The rook of the given color.
    pub fn rook(color: Color) -> (r: Piece)
        ensures
            r == piece_of(3, color),
    {
        match color {
            Color::White => Piece::WhiteRook,
            Color::Black => Piece::BlackRook,
        }
    }

    /// The queen of the given color.
    pub fn queen(color: Color) -> (r: Piece)
        ensures
            r == piece_of(4, color),
    {
        match color {
            Color::White => Piece::WhiteQueen,
            Color::Black => Piece::BlackQueen,
        }
    }

    /// The king of the given color.
    pub fn king(color: Color) -> (r: Piece)
        ensures
            r == piece_of(5, color),
    {
        match color {
            Color::White => Piece::WhiteKing,
            Color::Black => Piece::BlackKing,
        }
    }

    /// Whether the piece is a pawn of either color.
    pub fn is_pawn(self) -> (r: bool)
        ensures
            r == (self@ == 0 || self@ == 6),
    {
        self == Piece::WhitePawn || self == Piece::BlackPawn
    }

    /// Whether the piece is a king of either color.
    pub fn is_king(self) -> (r: bool)
        ensures
            r == (self@ == 5 || self@ == 11),
    {
        self == Piece::WhiteKing || self == Piece::BlackKing
    }

    /// Whether the piece is a rook of either color.
    pub fn is_rook(self) -> (r: bool)
        ensures
            r == (self@ == 3 || self@ == 9),
    {
        self == Piece::WhiteRook || self == Piece::BlackRook
    }

    /// Whether the piece is a bishop of either color.
    pub fn is_bishop(self) -> (r: bool)
        ensures
            r == (self@ == 2 || self@ == 8),
    {
        self == Piece::WhiteBishop || self == Piece::BlackBishop
    }

    /// Whether the piece is a queen of either color.
    pub fn is_queen(self) -> (r: bool)
        ensures
            r == (self@ == 4 || self@ == 10),
    {
        self == Piece::WhiteQueen || self == Piece::BlackQueen
    }

    /// Whether the piece slides (bishop, rook or queen of either color).
    pub fn is_slider(self) -> (r: bool)
        ensures
            r == (self@ == 2 || self@ == 3 || self@ == 4 || self@ == 8 || self@ == 9 || self@
                == 10),
    {
        self.is_bishop() || self.is_rook() || self.is_queen()
    }

    /// The index of the piece (see the view).
    pub fn to_index(self) -> (r: usize)
        ensures
            r == self@,
            r <= 12,
    {
        match self {
            Piece::WhitePawn => 0,
            Piece::WhiteKnight => 1,
            Piece::WhiteBishop => 2,
            Piece::WhiteRook => 3,
            Piece::WhiteQueen => 4,
            Piece::WhiteKing => 5,
            Piece::BlackPawn => 6,
            Piece::BlackKnight => 7,
            Piece::BlackBishop => 8,
            Piece::BlackRook => 9,
            Piece::BlackQueen => 10,
            Piece::BlackKing => 11,
            Piece::Empty => 12,
        }
    }

    /// The piece with the given index.
    pub fn from_index(v: usize) -> (r: Piece)
        requires
            v <= 12,
        ensures
            r == piece_of_index(v as int),
            r@ == v,
    {
        match v {
            0 => Piece::WhitePawn,
            1 => Piece::WhiteKnight,
            2 => Piece::WhiteBishop,
            3 => Piece::WhiteRook,
            4 => Piece::WhiteQueen,
            5 => Piece::WhiteKing,
            6 => Piece::BlackPawn,
            7 => Piece::BlackKnight,
            8 => Piece::BlackBishop,
            9 => Piece::BlackRook,
            10 => Piece::BlackQueen,
            11 => Piece::BlackKing,
            _ => Piece::Empty,
        }
    }

    /// The piece written by a FEN character.
    pub fn from_char(v: char) -> (r: Piece)
        requires
            is_piece_char(v),
        ensures
            r == piece_from_char(v),
    {
        match v {
            'p' => Piece::BlackPawn,
            'n' => Piece::BlackKnight,
            'b' => Piece::BlackBishop,
            'r' => Piece::BlackRook,
            'q' => Piece::BlackQueen,
            'k' => Piece::BlackKing,
            'P' => Piece::WhitePawn,
            'N' => Piece::WhiteKnight,
            'B' => Piece::WhiteBishop,
            'R' => Piece::WhiteRook,
            'Q' => Piece::WhiteQueen,
            'K' => Piece::WhiteKing,
            _ => Piece::Empty,
        }
    }

    /// The character of the piece in FEN notation.
    pub fn to_char(self) -> (r: char)
        ensures
            r == piece_char(self),
    {
        get_piece_char(self)
    }
}

/// Every index names the piece whose index it is.
pub proof fn lemma_piece_index_roundtrip(p: Piece)
    ensures
        piece_of_index(p@ as int) == p,
        p@ <= 12,
{
}

/// Every FEN piece character names the piece that displays as that character.
pub proof fn lemma_piece_char_roundtrip(c: char)
    requires
        is_piece_char(c),
    ensures
        piece_char(piece_from_char(c)) == c,
{
}

} // verus!
