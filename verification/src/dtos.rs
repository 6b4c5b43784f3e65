use vstd::prelude::*;

use crate::enums::{Color, PieceType};
use crate::moves::Move;

verus! {

/// A FEN string sent to load a position.
#[derive(Debug, Clone)]
pub struct FenDTO {
    pub fen: String,
}

/// The depth of a move count request.
#[derive(Debug, Clone, Copy)]
pub struct MovesCountDTO {
    pub depth: usize,
}

/// The time the engine may think.
#[derive(Debug, Clone, Copy)]
pub struct AIDepthDTO {
    pub time_to_think: u64,
}

/// A piece with its moves.
#[derive(Debug, Clone)]
pub struct PieceDTO {
    pub color: Color,
    pub fen: String,
    pub position: u64,
    pub piece_type: PieceType,
    pub moves: Vec<MoveDTO>,
}

/// A move as flags, source and destination squares, and a promotion flag.
#[derive(Debug, Clone, Copy, PartialEq, Eq, Structural)]
pub struct MoveDTO {
    pub flags: u16,
    pub from: usize,
    pub to: usize,
    pub promotion_flag: u16,
}

impl MoveDTO {
    /// The flags and squares of a move; the promotion flag is left at 0.
    pub fn from_move(m: &Move) -> (r: Self)
        ensures
            r.flags == m.flags(),
            r.from == m.from_sq(),
            r.to == m.to_sq(),
            r.promotion_flag == 0,
    {
        MoveDTO { flags: m.get_flags(), from: m.get_from(), to: m.get_to(), promotion_flag: 0 }
    }
}

} // verus!
