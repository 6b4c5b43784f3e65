use vstd::prelude::*;

verus! {

/// The FEN string of the starting position.
pub const INITIAL_FEN: &'static str = "rnbqkbnr/pppppppp/8/8/8/8/PPPPPPPP/RNBQKBNR w KQkq - 0 1";

/// Named board masks.
#[derive(Debug, Clone, Copy, PartialEq, Eq, Structural)]
pub enum BoardConsts {
    a_file,
    h_file,
    first_rank,
    eighth_rank,
    a1_h8_diagonal,
    h1_a8_antidiagonal,
    light_squares,
    dark_squares,
}

pub open spec fn board_const_value(c: BoardConsts) -> u64 {
    match c {
        BoardConsts::a_file => 0x00000000000000FF,
        BoardConsts::h_file => 0xFF00000000000000,
        BoardConsts::first_rank => 0x0101010101010101,
        BoardConsts::eighth_rank => 0x8080808080808080,
        BoardConsts::a1_h8_diagonal => 0x8040201008040201,
        BoardConsts::h1_a8_antidiagonal => 0x0102040810204080,
        BoardConsts::light_squares => 0x55AA55AA55AA55AA,
        BoardConsts::dark_squares => 0xAA55AA55AA55AA55,
    }
}

impl BoardConsts {
    /// The mask a name stands for.
    pub fn value(&self) -> (r: u64)
        ensures
            r == board_const_value(*self),
    {
        match self {
            BoardConsts::a_file => 0x00000000000000FF,
            BoardConsts::h_file => 0xFF00000000000000,
            BoardConsts::first_rank => 0x0101010101010101,
            BoardConsts::eighth_rank => 0x8080808080808080,
            BoardConsts::a1_h8_diagonal => 0x8040201008040201,
            BoardConsts::h1_a8_antidiagonal => 0x0102040810204080,
            BoardConsts::light_squares => 0x55AA55AA55AA55AA,
            BoardConsts::dark_squares => 0xAA55AA55AA55AA55,
        }
    }
}

} // verus!
