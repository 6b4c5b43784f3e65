use vstd::prelude::*;

use crate::enums::{Color, PieceType};
use crate::positions::{array_contains, BBPositions};

verus! {

pub const BLACK_IDX: usize = 0;
pub const WHITE_IDX: usize = 1;
pub const BISHOPS_IDX: usize = 2;
pub const KINGS_IDX: usize = 3;
pub const KNIGHTS_IDX: usize = 4;
pub const PAWNS_IDX: usize = 5;
pub const QUEENS_IDX: usize = 6;
pub const ROOKS_IDX: usize = 7;

pub const PIECE_INDEXES: [usize; 6] = [
    BISHOPS_IDX,
    KINGS_IDX,
    KNIGHTS_IDX,
    PAWNS_IDX,
    QUEENS_IDX,
    ROOKS_IDX,
];

/// The bitboard slot of a color.
pub open spec fn color_index(color: Color) -> usize {
    match color {
        Color::White => WHITE_IDX,
        Color::Black => BLACK_IDX,
    }
}

/// The bitboard slot of a piece type; `usize::MAX` for `Empty`.
pub open spec fn piece_type_index(piece_type: PieceType) -> usize {
    match piece_type {
        PieceType::Bishop => BISHOPS_IDX,
        PieceType::King => KINGS_IDX,
        PieceType::Knight => KNIGHTS_IDX,
        PieceType::Pawn => PAWNS_IDX,
        PieceType::Queen => QUEENS_IDX,
        PieceType::Rook => ROOKS_IDX,
        PieceType::Empty => usize::MAX,
    }
}

/// The piece type stored in a bitboard slot; `Empty` for the color slots and beyond.
pub open spec fn piece_type_from_index(index: usize) -> PieceType {
    if index == BISHOPS_IDX {
        PieceType::Bishop
    } else if index == KINGS_IDX {
        PieceType::King
    } else if index == KNIGHTS_IDX {
        PieceType::Knight
    } else if index == PAWNS_IDX {
        PieceType::Pawn
    } else if index == QUEENS_IDX {
        PieceType::Queen
    } else if index == ROOKS_IDX {
        PieceType::Rook
    } else {
        PieceType::Empty
    }
}

/// A white pawn moving from rank 7 to rank 8.
pub fn is_white_pawn_promotion(color: Color, from: u64, to: u64) -> (r: bool)
    ensures
        r == (color == Color::White && BBPositions::ROW_7@.contains(from)
            && BBPositions::ROW_8@.contains(to)),
{
    color == Color::White && array_contains(&BBPositions::ROW_7, from) && array_contains(
        &BBPositions::ROW_8,
        to,
    )
}

/// A black pawn moving from rank 2 to rank 1.
pub fn is_black_pawn_promotion(color: Color, from: u64, to: u64) -> (r: bool)
    ensures
        r == (color == Color::Black && BBPositions::ROW_2@.contains(from)
            && BBPositions::ROW_1@.contains(to)),
{
    color == Color::Black && array_contains(&BBPositions::ROW_2, from) && array_contains(
        &BBPositions::ROW_1,
        to,
    )
}

pub fn is_pawn_promotion(color: Color, from: u64, to: u64) -> (r: bool)
    ensures
        r == ((color == Color::Black && BBPositions::ROW_2@.contains(from)
            && BBPositions::ROW_1@.contains(to)) || (color == Color::White
            && BBPositions::ROW_7@.contains(from) && BBPositions::ROW_8@.contains(to))),
{
    is_black_pawn_promotion(color, from, to) || is_white_pawn_promotion(color, from, to)
}

pub fn get_color_index(color: Color) -> (r: usize)
    ensures
        r == color_index(color),
{
    match color {
        Color::White => WHITE_IDX,
        Color::Black => BLACK_IDX,
    }
}

pub fn get_piece_type_index(piece_type: PieceType) -> (r: usize)
    ensures
        r == piece_type_index(piece_type),
{
    match piece_type {
        PieceType::Bishop => BISHOPS_IDX,
        PieceType::King => KINGS_IDX,
        PieceType::Knight => KNIGHTS_IDX,
        PieceType::Pawn => PAWNS_IDX,
        PieceType::Queen => QUEENS_IDX,
        PieceType::Rook => ROOKS_IDX,
        PieceType::Empty => usize::MAX,
    }
}

pub fn get_piece_type_from_index(index: usize) -> (r: PieceType)
    ensures
        r == piece_type_from_index(index),
{
    if index == BISHOPS_IDX {
        PieceType::Bishop
    } else if index == KINGS_IDX {
        PieceType::King
    } else if index == KNIGHTS_IDX {
        PieceType::Knight
    } else if index == PAWNS_IDX {
        PieceType::Pawn
    } else if index == QUEENS_IDX {
        PieceType::Queen
    } else if index == ROOKS_IDX {
        PieceType::Rook
    } else {
        PieceType::Empty
    }
}

/// Slot and type correspond one to one: every non-empty type has a slot among 2..=7
/// that maps back to it.
pub proof fn lemma_piece_index_round_trip(piece_type: PieceType)
    ensures
        piece_type != PieceType::Empty ==> 2 <= piece_type_index(piece_type) < 8
            && piece_type_from_index(piece_type_index(piece_type)) == piece_type,
        forall|i: usize|
            2 <= i < 8 ==> piece_type_index(#[trigger] piece_type_from_index(i)) == i,
{
}

/// The two sides of the board on which a king can castle.
#[derive(Clone, Copy, Debug, PartialEq, Eq, Structural)]
pub enum Side {
    KingSide,
    QueenSide,
}

pub const WHITE_KING_SIDE_CASTLING_RIGHT: u8 = 0x8;
pub const WHITE_QUEEN_SIDE_CASTLING_RIGHT: u8 = 0x4;
pub const BLACK_KING_SIDE_CASTLING_RIGHT: u8 = 0x2;
pub const BLACK_QUEEN_SIDE_CASTLING_RIGHT: u8 = 0x1;

/// The bit of the castling rights that belongs to `color` on `side`.
pub open spec fn castling_right_flag(color: Color, side: Side) -> u8 {
    match (color, side) {
        (Color::White, Side::KingSide) => 0x8u8,
        (Color::White, Side::QueenSide) => 0x4u8,
        (Color::Black, Side::KingSide) => 0x2u8,
        (Color::Black, Side::QueenSide) => 0x1u8,
    }
}

pub fn get_castling_right_flag(color: Color, side: Side) -> (r: u8)
    ensures
        r == castling_right_flag(color, side),
{
    match (color, side) {
        (Color::White, Side::KingSide) => WHITE_KING_SIDE_CASTLING_RIGHT,
        (Color::White, Side::QueenSide) => WHITE_QUEEN_SIDE_CASTLING_RIGHT,
        (Color::Black, Side::KingSide) => BLACK_KING_SIDE_CASTLING_RIGHT,
        (Color::Black, Side::QueenSide) => BLACK_QUEEN_SIDE_CASTLING_RIGHT,
    }
}

} // verus!
