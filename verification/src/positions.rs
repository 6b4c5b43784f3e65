use vstd::prelude::*;

use crate::enums::Color;
use crate::text::{string_from_ascii, ascii_chars};

verus! {

/// Square indices: a1 is 0, h1 is 7, a8 is 56 and h8 is 63.
pub struct Squares;

impl Squares {
    pub const A1: usize = 0;
    pub const B1: usize = 1;
    pub const C1: usize = 2;
    pub const D1: usize = 3;
    pub const E1: usize = 4;
    pub const F1: usize = 5;
    pub const G1: usize = 6;
    pub const H1: usize = 7;
    pub const A2: usize = 8;
    pub const B2: usize = 9;
    pub const C2: usize = 10;
    pub const D2: usize = 11;
    pub const E2: usize = 12;
    pub const F2: usize = 13;
    pub const G2: usize = 14;
    pub const H2: usize = 15;
    pub const A3: usize = 16;
    pub const B3: usize = 17;
    pub const C3: usize = 18;
    pub const D3: usize = 19;
    pub const E3: usize = 20;
    pub const F3: usize = 21;
    pub const G3: usize = 22;
    pub const H3: usize = 23;
    pub const A4: usize = 24;
    pub const B4: usize = 25;
    pub const C4: usize = 26;
    pub const D4: usize = 27;
    pub const E4: usize = 28;
    pub const F4: usize = 29;
    pub const G4: usize = 30;
    pub const H4: usize = 31;
    pub const A5: usize = 32;
    pub const B5: usize = 33;
    pub const C5: usize = 34;
    pub const D5: usize = 35;
    pub const E5: usize = 36;
    pub const F5: usize = 37;
    pub const G5: usize = 38;
    pub const H5: usize = 39;
    pub const A6: usize = 40;
    pub const B6: usize = 41;
    pub const C6: usize = 42;
    pub const D6: usize = 43;
    pub const E6: usize = 44;
    pub const F6: usize = 45;
    pub const G6: usize = 46;
    pub const H6: usize = 47;
    pub const A7: usize = 48;
    pub const B7: usize = 49;
    pub const C7: usize = 50;
    pub const D7: usize = 51;
    pub const E7: usize = 52;
    pub const F7: usize = 53;
    pub const G7: usize = 54;
    pub const H7: usize = 55;
    pub const A8: usize = 56;
    pub const B8: usize = 57;
    pub const C8: usize = 58;
    pub const D8: usize = 59;
    pub const E8: usize = 60;
    pub const F8: usize = 61;
    pub const G8: usize = 62;
    pub const H8: usize = 63;

    pub const ROW_8: [usize; 8] = [Squares::A8, Squares::B8, Squares::C8, Squares::D8, Squares::E8, Squares::F8, Squares::G8, Squares::H8];
    pub const ROW_7: [usize; 8] = [Squares::A7, Squares::B7, Squares::C7, Squares::D7, Squares::E7, Squares::F7, Squares::G7, Squares::H7];
    pub const ROW_6: [usize; 8] = [Squares::A6, Squares::B6, Squares::C6, Squares::D6, Squares::E6, Squares::F6, Squares::G6, Squares::H6];
    pub const ROW_5: [usize; 8] = [Squares::A5, Squares::B5, Squares::C5, Squares::D5, Squares::E5, Squares::F5, Squares::G5, Squares::H5];
    pub const ROW_4: [usize; 8] = [Squares::A4, Squares::B4, Squares::C4, Squares::D4, Squares::E4, Squares::F4, Squares::G4, Squares::H4];
    pub const ROW_3: [usize; 8] = [Squares::A3, Squares::B3, Squares::C3, Squares::D3, Squares::E3, Squares::F3, Squares::G3, Squares::H3];
    pub const ROW_2: [usize; 8] = [Squares::A2, Squares::B2, Squares::C2, Squares::D2, Squares::E2, Squares::F2, Squares::G2, Squares::H2];
    pub const ROW_1: [usize; 8] = [Squares::A1, Squares::B1, Squares::C1, Squares::D1, Squares::E1, Squares::F1, Squares::G1, Squares::H1];

    /// The upper-case name of a square ("A1" .. "H8"); empty past the board.
    pub fn to_string(square: usize) -> (r: String)
        ensures
            square < 64 ==> r@ == seq![
                ('A' as u8 + square % 8) as char,
                ('1' as u8 + square / 8) as char,
            ],
            square >= 64 ==> r@ == Seq::<char>::empty(),
    {
        let mut bytes: Vec<u8> = Vec::new();
        if square < 64 {
            bytes.push(65u8 + (square % 8) as u8);
            bytes.push(49u8 + (square / 8) as u8);
        }
        let r = string_from_ascii(bytes);
        proof {
            if square < 64 {
                assert(r@ =~= seq![
                    ('A' as u8 + square % 8) as char,
                    ('1' as u8 + square / 8) as char,
                ]);
            } else {
                assert(r@ =~= Seq::<char>::empty());
            }
        }
        r
    }
}

/// Single-bit bitboards of every square, and the rank masks.
pub struct BBPositions;

impl BBPositions {
    pub const A1: u64 = 1u64 << 0;
    pub const B1: u64 = 1u64 << 1;
    pub const C1: u64 = 1u64 << 2;
    pub const D1: u64 = 1u64 << 3;
    pub const E1: u64 = 1u64 << 4;
    pub const F1: u64 = 1u64 << 5;
    pub const G1: u64 = 1u64 << 6;
    pub const H1: u64 = 1u64 << 7;
    pub const A2: u64 = 1u64 << 8;
    pub const B2: u64 = 1u64 << 9;
    pub const C2: u64 = 1u64 << 10;
    pub const D2: u64 = 1u64 << 11;
    pub const E2: u64 = 1u64 << 12;
    pub const F2: u64 = 1u64 << 13;
    pub const G2: u64 = 1u64 << 14;
    pub const H2: u64 = 1u64 << 15;
    pub const A3: u64 = 1u64 << 16;
    pub const B3: u64 = 1u64 << 17;
    pub const C3: u64 = 1u64 << 18;
    pub const D3: u64 = 1u64 << 19;
    pub const E3: u64 = 1u64 << 20;
    pub const F3: u64 = 1u64 << 21;
    pub const G3: u64 = 1u64 << 22;
    pub const H3: u64 = 1u64 << 23;
    pub const A4: u64 = 1u64 << 24;
    pub const B4: u64 = 1u64 << 25;
    pub const C4: u64 = 1u64 << 26;
    pub const D4: u64 = 1u64 << 27;
    pub const E4: u64 = 1u64 << 28;
    pub const F4: u64 = 1u64 << 29;
    pub const G4: u64 = 1u64 << 30;
    pub const H4: u64 = 1u64 << 31;
    pub const A5: u64 = 1u64 << 32;
    pub const B5: u64 = 1u64 << 33;
    pub const C5: u64 = 1u64 << 34;
    pub const D5: u64 = 1u64 << 35;
    pub const E5: u64 = 1u64 << 36;
    pub const F5: u64 = 1u64 << 37;
    pub const G5: u64 = 1u64 << 38;
    pub const H5: u64 = 1u64 << 39;
    pub const A6: u64 = 1u64 << 40;
    pub const B6: u64 = 1u64 << 41;
    pub const C6: u64 = 1u64 << 42;
    pub const D6: u64 = 1u64 << 43;
    pub const E6: u64 = 1u64 << 44;
    pub const F6: u64 = 1u64 << 45;
    pub const G6: u64 = 1u64 << 46;
    pub const H6: u64 = 1u64 << 47;
    pub const A7: u64 = 1u64 << 48;
    pub const B7: u64 = 1u64 << 49;
    pub const C7: u64 = 1u64 << 50;
    pub const D7: u64 = 1u64 << 51;
    pub const E7: u64 = 1u64 << 52;
    pub const F7: u64 = 1u64 << 53;
    pub const G7: u64 = 1u64 << 54;
    pub const H7: u64 = 1u64 << 55;
    pub const A8: u64 = 1u64 << 56;
    pub const B8: u64 = 1u64 << 57;
    pub const C8: u64 = 1u64 << 58;
    pub const D8: u64 = 1u64 << 59;
    pub const E8: u64 = 1u64 << 60;
    pub const F8: u64 = 1u64 << 61;
    pub const G8: u64 = 1u64 << 62;
    pub const H8: u64 = 1u64 << 63;

    pub const ROW_8: [u64; 8] = [BBPositions::A8, BBPositions::B8, BBPositions::C8, BBPositions::D8, BBPositions::E8, BBPositions::F8, BBPositions::G8, BBPositions::H8];
    pub const ROW_7: [u64; 8] = [BBPositions::A7, BBPositions::B7, BBPositions::C7, BBPositions::D7, BBPositions::E7, BBPositions::F7, BBPositions::G7, BBPositions::H7];
    pub const ROW_6: [u64; 8] = [BBPositions::A6, BBPositions::B6, BBPositions::C6, BBPositions::D6, BBPositions::E6, BBPositions::F6, BBPositions::G6, BBPositions::H6];
    pub const ROW_5: [u64; 8] = [BBPositions::A5, BBPositions::B5, BBPositions::C5, BBPositions::D5, BBPositions::E5, BBPositions::F5, BBPositions::G5, BBPositions::H5];
    pub const ROW_4: [u64; 8] = [BBPositions::A4, BBPositions::B4, BBPositions::C4, BBPositions::D4, BBPositions::E4, BBPositions::F4, BBPositions::G4, BBPositions::H4];
    pub const ROW_3: [u64; 8] = [BBPositions::A3, BBPositions::B3, BBPositions::C3, BBPositions::D3, BBPositions::E3, BBPositions::F3, BBPositions::G3, BBPositions::H3];
    pub const ROW_2: [u64; 8] = [BBPositions::A2, BBPositions::B2, BBPositions::C2, BBPositions::D2, BBPositions::E2, BBPositions::F2, BBPositions::G2, BBPositions::H2];
    pub const ROW_1: [u64; 8] = [BBPositions::A1, BBPositions::B1, BBPositions::C1, BBPositions::D1, BBPositions::E1, BBPositions::F1, BBPositions::G1, BBPositions::H1];

    pub const ROW_8_BB: u64 = 0xff00000000000000;
    pub const ROW_7_BB: u64 = 0xff000000000000;
    pub const ROW_6_BB: u64 = 0xff0000000000;
    pub const ROW_5_BB: u64 = 0xff00000000;
    pub const ROW_4_BB: u64 = 0xff000000;
    pub const ROW_3_BB: u64 = 0xff0000;
    pub const ROW_2_BB: u64 = 0xff00;
    pub const ROW_1_BB: u64 = 0xff;
}

impl BBPositions {
    /// The rank mask holding `bb`, trying rank 8 first and rank 1 last; 0 when `bb` is empty.
    pub fn get_row_bb(bb: u64) -> (r: u64)
        ensures
            r == first_row_holding(bb),
    {
        if bb & BBPositions::ROW_8_BB != 0 {
            BBPositions::ROW_8_BB
        } else if bb & BBPositions::ROW_7_BB != 0 {
            BBPositions::ROW_7_BB
        } else if bb & BBPositions::ROW_6_BB != 0 {
            BBPositions::ROW_6_BB
        } else if bb & BBPositions::ROW_5_BB != 0 {
            BBPositions::ROW_5_BB
        } else if bb & BBPositions::ROW_4_BB != 0 {
            BBPositions::ROW_4_BB
        } else if bb & BBPositions::ROW_3_BB != 0 {
            BBPositions::ROW_3_BB
        } else if bb & BBPositions::ROW_2_BB != 0 {
            BBPositions::ROW_2_BB
        } else if bb & BBPositions::ROW_1_BB != 0 {
            BBPositions::ROW_1_BB
        } else {
            0
        }
    }

    /// Whether `bb_position` is one square of the rank on which `color`'s en passant
    /// target square can lie for a pawn of `color` moving two squares: rank 3 for
    /// white, rank 6 for black.
    pub fn is_en_passant_position(color: Color, bb_position: u64) -> (r: bool)
        ensures
            r == (if color == Color::White {
                BBPositions::ROW_3@.contains(bb_position)
            } else {
                BBPositions::ROW_6@.contains(bb_position)
            }),
    {
        if color.is_white() {
            array_contains(&BBPositions::ROW_3, bb_position)
        } else {
            array_contains(&BBPositions::ROW_6, bb_position)
        }
    }
}

/// The rank mask (rank 8 first) that has a bit in common with `bb`, or 0.
pub open spec fn first_row_holding(bb: u64) -> u64 {
    if bb & 0xff00000000000000 != 0 {
        0xff00000000000000
    } else if bb & 0xff000000000000 != 0 {
        0xff000000000000
    } else if bb & 0xff0000000000 != 0 {
        0xff0000000000
    } else if bb & 0xff00000000 != 0 {
        0xff00000000
    } else if bb & 0xff000000 != 0 {
        0xff000000
    } else if bb & 0xff0000 != 0 {
        0xff0000
    } else if bb & 0xff00 != 0 {
        0xff00
    } else if bb & 0xff != 0 {
        0xff
    } else {
        0
    }
}

/// Linear search of a value in an array of eight bitboards.
pub fn array_contains(row: &[u64; 8], value: u64) -> (r: bool)
    ensures
        r == row@.contains(value),
{
    let mut i: usize = 0;
    while i < 8
        invariant
            i <= 8,
            forall|j: int| 0 <= j < i ==> row@[j] != value,
        decreases 8 - i,
    {
        if row[i] == value {
            assert(row@[i as int] == value);
            return true;
        }
        i = i + 1;
    }
    false
}

/// Rank of a square (0 for rank 1).
pub open spec fn rank_of(sq: int) -> int {
    sq / 8
}

/// File of a square (0 for the a-file).
pub open spec fn file_of(sq: int) -> int {
    sq % 8
}

pub fn same_rank(sq1: usize, sq2: usize) -> (r: bool)
    ensures
        r == (rank_of(sq1 as int) == rank_of(sq2 as int)),
{
    sq1 / 8 == sq2 / 8
}

pub fn same_file(sq1: usize, sq2: usize) -> (r: bool)
    ensures
        r == (file_of(sq1 as int) == file_of(sq2 as int)),
{
    sq1 % 8 == sq2 % 8
}

/// Same a1-h8 diagonal: rank minus file agree.
pub fn same_diagonal(sq1: usize, sq2: usize) -> (r: bool)
    ensures
        r == (rank_of(sq1 as int) - file_of(sq1 as int) == rank_of(sq2 as int) - file_of(
            sq2 as int,
        )),
{
    (sq1 / 8) as isize - (sq1 % 8) as isize == (sq2 / 8) as isize - (sq2 % 8) as isize
}

/// Same h1-a8 anti-diagonal: rank plus file agree.
pub fn same_anti_diagonal(sq1: usize, sq2: usize) -> (r: bool)
    ensures
        r == (rank_of(sq1 as int) + file_of(sq1 as int) == rank_of(sq2 as int) + file_of(
            sq2 as int,
        )),
{
    (sq1 / 8) as isize + (sq1 % 8) as isize == (sq2 / 8) as isize + (sq2 % 8) as isize
}

} // verus!
