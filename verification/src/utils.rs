use vstd::prelude::*;

use crate::enums::{Color, PieceType};
use crate::positions::{array_contains, BBPositions};
use crate::text::string_from_chars;

verus! {

/// The square index that a name such as "e4" denotes: rank digit times eight plus
/// the file letter's offset from 'a' (the letter taken as a 16-bit code).
pub open spec fn algebraic_square(s: Seq<char>) -> int {
    (s[1] as int - '1' as int) * 8 + (s[0] as int % 0x10000 - 'a' as int)
}

/// Whether a square name can be read: two characters at
/// least, a first character whose 16-bit code is not below 'a', and a digit from
/// 1 to 9 second.
pub open spec fn algebraic_readable(s: Seq<char>) -> bool {
    &&& s.len() >= 2
    &&& s[0] as int % 0x10000 >= 'a' as int
    &&& '1' <= s[1] <= '9'
}

pub fn algebraic_to_square(algebraic: &str) -> (r: usize)
    requires
        algebraic_readable(algebraic@),
    ensures
        r as int == algebraic_square(algebraic@),
{
    let c0 = algebraic.get_char(0);
    let c1 = algebraic.get_char(1);
    let code: u32 = c0 as u32;
    let file: u16 = ((code % 0x10000) - 97) as u16;
    let digit: u32 = c1 as u32;
    let rank: u16 = (digit - 49) as u16;
    (rank * 8 + file) as usize
}

/// The lower-case name of a square: the file letter then the rank digit
/// (both taken as bytes, so squares past the board give other characters).
pub open spec fn algebraic_name(square: int) -> Seq<char> {
    seq![(97 + square % 8) as char, (49 + (square / 8) % 256) as char]
}

pub fn square_to_algebraic(square: usize) -> (r: String)
    requires
        (square / 8) % 256 <= 206,
    ensures
        r@ == algebraic_name(square as int),
{
    let file: u8 = (square % 8) as u8;
    let rank: u8 = ((square / 8) % 256) as u8;
    let mut chars: Vec<char> = Vec::new();
    chars.push((97u8 + file) as char);
    chars.push((49u8 + rank) as char);
    let r = string_from_chars(&chars);
    proof {
        assert(r@ =~= algebraic_name(square as int));
    }
    r
}

/// The chess symbol of a piece, or "." for `Empty`.
pub open spec fn piece_symbol(color: Color, piece_type: PieceType) -> Seq<char> {
    match (color, piece_type) {
        (Color::Black, PieceType::Bishop) => seq!['\u{265D}'],
        (Color::Black, PieceType::King) => seq!['\u{265A}'],
        (Color::Black, PieceType::Knight) => seq!['\u{265E}'],
        (Color::Black, PieceType::Pawn) => seq!['\u{265F}'],
        (Color::Black, PieceType::Queen) => seq!['\u{265B}'],
        (Color::Black, PieceType::Rook) => seq!['\u{265C}'],
        (Color::White, PieceType::Bishop) => seq!['\u{2657}'],
        (Color::White, PieceType::King) => seq!['\u{2654}'],
        (Color::White, PieceType::Knight) => seq!['\u{2658}'],
        (Color::White, PieceType::Pawn) => seq!['\u{2659}'],
        (Color::White, PieceType::Queen) => seq!['\u{2655}'],
        (Color::White, PieceType::Rook) => seq!['\u{2656}'],
        _ => seq!['.'],
    }
}

pub fn get_piece_symbol(color: Color, piece_type: PieceType) -> (r: String)
    ensures
        r@ == piece_symbol(color, piece_type),
{
    let c = match (color, piece_type) {
        (Color::Black, PieceType::Bishop) => '\u{265D}',
        (Color::Black, PieceType::King) => '\u{265A}',
        (Color::Black, PieceType::Knight) => '\u{265E}',
        (Color::Black, PieceType::Pawn) => '\u{265F}',
        (Color::Black, PieceType::Queen) => '\u{265B}',
        (Color::Black, PieceType::Rook) => '\u{265C}',
        (Color::White, PieceType::Bishop) => '\u{2657}',
        (Color::White, PieceType::King) => '\u{2654}',
        (Color::White, PieceType::Knight) => '\u{2658}',
        (Color::White, PieceType::Pawn) => '\u{2659}',
        (Color::White, PieceType::Queen) => '\u{2655}',
        (Color::White, PieceType::Rook) => '\u{2656}',
        _ => '.',
    };
    let mut chars: Vec<char> = Vec::new();
    chars.push(c);
    let r = string_from_chars(&chars);
    proof {
        assert(r@ =~= piece_symbol(color, piece_type));
    }
    r
}

/// The FEN letter of a piece (upper case for white), or '.' for `Empty`.
pub open spec fn piece_letter(color: Color, piece_type: PieceType) -> char {
    match (color, piece_type) {
        (Color::Black, PieceType::Bishop) => 'b',
        (Color::Black, PieceType::King) => 'k',
        (Color::Black, PieceType::Knight) => 'n',
        (Color::Black, PieceType::Pawn) => 'p',
        (Color::Black, PieceType::Queen) => 'q',
        (Color::Black, PieceType::Rook) => 'r',
        (Color::White, PieceType::Bishop) => 'B',
        (Color::White, PieceType::King) => 'K',
        (Color::White, PieceType::Knight) => 'N',
        (Color::White, PieceType::Pawn) => 'P',
        (Color::White, PieceType::Queen) => 'Q',
        (Color::White, PieceType::Rook) => 'R',
        _ => '.',
    }
}

pub fn piece_letter_char(color: Color, piece_type: PieceType) -> (r: char)
    ensures
        r == piece_letter(color, piece_type),
{
    match (color, piece_type) {
        (Color::Black, PieceType::Bishop) => 'b',
        (Color::Black, PieceType::King) => 'k',
        (Color::Black, PieceType::Knight) => 'n',
        (Color::Black, PieceType::Pawn) => 'p',
        (Color::Black, PieceType::Queen) => 'q',
        (Color::Black, PieceType::Rook) => 'r',
        (Color::White, PieceType::Bishop) => 'B',
        (Color::White, PieceType::King) => 'K',
        (Color::White, PieceType::Knight) => 'N',
        (Color::White, PieceType::Pawn) => 'P',
        (Color::White, PieceType::Queen) => 'Q',
        (Color::White, PieceType::Rook) => 'R',
        _ => '.',
    }
}

pub fn get_piece_letter(color: Color, piece_type: PieceType) -> (r: String)
    ensures
        r@ == seq![piece_letter(color, piece_type)],
{
    let mut chars: Vec<char> = Vec::new();
    chars.push(piece_letter_char(color, piece_type));
    let r = string_from_chars(&chars);
    proof {
        assert(r@ =~= seq![piece_letter(color, piece_type)]);
    }
    r
}

/// The color and type that a FEN letter names; anything else is a black `Empty`.
pub open spec fn color_and_type_of_symbol(symbol: char) -> (Color, PieceType) {
    match symbol {
        'b' => (Color::Black, PieceType::Bishop),
        'k' => (Color::Black, PieceType::King),
        'n' => (Color::Black, PieceType::Knight),
        'p' => (Color::Black, PieceType::Pawn),
        'q' => (Color::Black, PieceType::Queen),
        'r' => (Color::Black, PieceType::Rook),
        'B' => (Color::White, PieceType::Bishop),
        'K' => (Color::White, PieceType::King),
        'N' => (Color::White, PieceType::Knight),
        'P' => (Color::White, PieceType::Pawn),
        'Q' => (Color::White, PieceType::Queen),
        'R' => (Color::White, PieceType::Rook),
        _ => (Color::Black, PieceType::Empty),
    }
}

pub fn get_piece_color_and_type_from_symbol(symbol: char) -> (r: (Color, PieceType))
    ensures
        r == color_and_type_of_symbol(symbol),
{
    match symbol {
        'b' => (Color::Black, PieceType::Bishop),
        'k' => (Color::Black, PieceType::King),
        'n' => (Color::Black, PieceType::Knight),
        'p' => (Color::Black, PieceType::Pawn),
        'q' => (Color::Black, PieceType::Queen),
        'r' => (Color::Black, PieceType::Rook),
        'B' => (Color::White, PieceType::Bishop),
        'K' => (Color::White, PieceType::King),
        'N' => (Color::White, PieceType::Knight),
        'P' => (Color::White, PieceType::Pawn),
        'Q' => (Color::White, PieceType::Queen),
        'R' => (Color::White, PieceType::Rook),
        _ => (Color::Black, PieceType::Empty),
    }
}

/// A pawn stands on its starting rank: rank 2 for white, rank 7 for black.
pub open spec fn pawn_initial_position(position: u64, white: bool) -> bool {
    (BBPositions::ROW_2@.contains(position) && white) || (BBPositions::ROW_7@.contains(position)
        && !white)
}

pub fn is_pawn_in_initial_position(position: u64, white: bool) -> (r: bool)
    ensures
        r == pawn_initial_position(position, white),
{
    (array_contains(&BBPositions::ROW_2, position) && white) || (array_contains(
        &BBPositions::ROW_7,
        position,
    ) && !white)
}

/// A rough size, in kilobytes, of a slider table of `len` entries with room for
/// `capacity`: each entry is a (square, blockers) key and a moves value, and half a
/// key per slot of capacity counts as overhead.
pub fn memory_usage_in_kb(len: usize, capacity: usize) -> (r: usize)
    requires
        vstd::layout::size_of::<(u8, u64)>() + vstd::layout::size_of::<u64>() <= usize::MAX,
        len * (vstd::layout::size_of::<(u8, u64)>() + vstd::layout::size_of::<u64>()) + capacity
            * vstd::layout::size_of::<(u8, u64)>() <= usize::MAX,
    ensures
        r == (len * (vstd::layout::size_of::<(u8, u64)>() + vstd::layout::size_of::<u64>()) + capacity
            * vstd::layout::size_of::<(u8, u64)>() / 2) / 1024,
{
    let key_size = core::mem::size_of::<(u8, u64)>();
    let entry_size = key_size + core::mem::size_of::<u64>();
    assert(capacity * key_size / 2 <= capacity * key_size);
    let overhead = capacity * key_size / 2;
    (len * entry_size + overhead) / 1024
}

/// Estimated bytes of a vector of `T` with the given capacity: its header plus
/// its elements.
pub fn estimate_memory_usage_in_bytes<T>(vec_capacity: usize) -> (r: u64)
    requires
        vstd::layout::size_of::<Vec<T>>() + vec_capacity * vstd::layout::size_of::<T>()
            <= usize::MAX,
    ensures
        r == vstd::layout::size_of::<Vec<T>>() + vec_capacity * vstd::layout::size_of::<T>(),
{
    let metadata_size = core::mem::size_of::<Vec<T>>();
    let element_size = core::mem::size_of::<T>();
    let data_size = vec_capacity * element_size;
    let total_size_bytes = metadata_size + data_size;
    total_size_bytes as u64
}

} // verus!
