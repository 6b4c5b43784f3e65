use vstd::prelude::*;

verus! {

/// The two sides of a game.
#[derive(Copy, Clone, Debug, PartialEq, Eq, Structural)]
pub enum Color {
    Black,
    White,
}

/// The kind of a piece; `Empty` stands for "no piece".
#[derive(Copy, Clone, Debug, PartialEq, Eq, Structural)]
pub enum PieceType {
    Pawn,
    Knight,
    Bishop,
    Rook,
    Queen,
    King,
    Empty,
}

/// The opponent of a color, as a spec function.
pub open spec fn opponent_of(c: Color) -> Color {
    match c {
        Color::White => Color::Black,
        Color::Black => Color::White,
    }
}

impl Color {
    pub fn is_black(&self) -> (r: bool)
        ensures
            r == (*self == Color::Black),
    {
        *self == Color::Black
    }

    pub fn is_white(&self) -> (r: bool)
        ensures
            r == (*self == Color::White),
    {
        *self == Color::White
    }

    pub fn opponent(&self) -> (r: Color)
        ensures
            r == opponent_of(*self),
            r != *self,
    {
        if *self == Color::White {
            Color::Black
        } else {
            Color::White
        }
    }

    /// The name of the color.
    pub fn to_string(&self) -> (r: String)
        ensures
            r@ == (if *self == Color::White { "White"@ } else { "Black"@ }),
    {
        proof {
            reveal_strlit("White");
            reveal_strlit("Black");
        }
        match self {
            Color::White => String::from_str("White"),
            Color::Black => String::from_str("Black"),
        }
    }
}

/// Taking the opponent twice gives back the color.
pub proof fn lemma_opponent_involutive(c: Color)
    ensures
        opponent_of(opponent_of(c)) == c,
        opponent_of(c) != c,
{
}

} // verus!
