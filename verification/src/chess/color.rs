use vstd::prelude::*;

verus! {

/// Represents the color of a piece
#[derive(Debug, PartialEq, Eq, Structural, Clone, Copy)]
pub enum Color {
    White,
    Black,
}

impl View for Color {
    type V = u8;

    /// The index of the color: 0 for white, 1 for black.
    open spec fn view(&self) -> u8 {
        match self {
            Color::White => 0,
            Color::Black => 1,
        }
    }
}

/// The other color.
pub open spec fn opposite(c: Color) -> Color {
    match c {
        Color::White => Color::Black,
        Color::Black => Color::White,
    }
}

impl core::ops::Not for Color {
    type Output = Color;

    fn not(self) -> (r: Color) {
        match self {
            Color::White => Color::Black,
            Color::Black => Color::White,
        }
    }
}

impl vstd::std_specs::ops::NotSpecImpl for Color {
    open spec fn obeys_not_spec() -> bool {
        true
    }

    open spec fn not_req(self) -> bool {
        true
    }

    open spec fn not_spec(self) -> Color {
        opposite(self)
    }
}

impl Color {
    /// The other color.
    pub fn opponent(self) -> (r: Color)
        ensures
            r == opposite(self),
            r@ == 1 - self@,
    {
        match self {
            Color::White => Color::Black,
            Color::Black => Color::White,
        }
    }

    /// The index of the color: 0 for white, 1 for black.
    pub fn to_index(self) -> (r: usize)
        ensures
            r == self@,
            r < 2,
    {
        match self {
            Color::White => 0,
            Color::Black => 1,
        }
    }

    /// The name of the color, as it is displayed.
    pub fn name(self) -> (r: &'static str)
        ensures
            r@ == color_name(self),
    {
        proof {
            reveal_strlit("White");
            reveal_strlit("Black");
        }
        match self {
            Color::White => "White",
            Color::Black => "Black",
        }
    }

    /// The color written by the character `c` in a FEN string.
    pub fn from_char(c: char) -> (r: Color)
        requires
            c == 'w' || c == 'b',
        ensures
            r == (if c == 'w' { Color::White } else { Color::Black }),
    {
        if c == 'w' {
            Color::White
        } else {
            Color::Black
        }
    }
}

/// The displayed name of a color.
pub open spec fn color_name(c: Color) -> Seq<char> {
    match c {
        Color::White => seq!['W', 'h', 'i', 't', 'e'],
        Color::Black => seq!['B', 'l', 'a', 'c', 'k'],
    }
}

} // verus!
