use vstd::prelude::*;

use crate::enums::{Color, PieceType};
use crate::text::{all_ascii, ascii_chars, string_from_ascii};

verus! {

pub const NORMAL: u16 = 0;
pub const DOUBLE_PAWN_PUSH: u16 = 1;
pub const KING_CASTLE: u16 = 2;
pub const QUEEN_CASTLE: u16 = 3;
pub const CAPTURE: u16 = 4;
pub const EN_PASSANT: u16 = 5;
pub const KNIGHT_PROMOTION: u16 = 8;
pub const BISHOP_PROMOTION: u16 = 9;
pub const ROOK_PROMOTION: u16 = 10;
pub const QUEEN_PROMOTION: u16 = 11;
pub const KNIGHT_PROMOTION_CAPTURE: u16 = 12;
pub const BISHOP_PROMOTION_CAPTURE: u16 = 13;
pub const ROOK_PROMOTION_CAPTURE: u16 = 14;
pub const QUEEN_PROMOTION_CAPTURE: u16 = 15;

/// The 16-bit code of a move: flags in bits 12-15, source square in bits 6-11 and
/// destination square in bits 0-5.
pub open spec fn encode(flags: u16, from: usize, to: usize) -> u16 {
    ((flags & 0xf) << 12u16) | (((from as u16) & 0x3f) << 6u16) | ((to as u16) & 0x3f)
}

/// A move: its 16-bit code, the en passant squares that a double pawn push opens,
/// and the color and type of the moving piece.
///
/// | Flag | Move Type              |
/// |------|------------------------|
/// | 0000 | Normal                 |
/// | 0001 | Double Pawn Push       |
/// | 0010 | King Castle            |
/// | 0011 | Queen Castle           |
/// | 0100 | Capture                |
/// | 0101 | En Passant             |
/// | 1000 | Knight Promotion       |
/// | 1001 | Bishop Promotion       |
/// | 1010 | Rook Promotion         |
/// | 1011 | Queen Promotion        |
/// | 1100 | Knight Promo Capture   |
/// | 1101 | Bishop Promo Capture   |
/// | 1110 | Rook Promo Capture     |
/// | 1111 | Queen Promo Capture    |
#[derive(Clone, Copy, Debug, PartialEq, Eq, Structural)]
pub struct Move {
    _move: u16,
    en_passant_bb_position: u64,
    en_passant_bb_piece_square: u64,
    color: Color,
    piece_type: PieceType,
}

impl Move {
    pub closed spec fn code(self) -> u16 {
        self._move
    }

    /// The source square of the move.
    pub open spec fn from_sq(self) -> int {
        ((self.code() >> 6u16) & 0x3f) as int
    }

    /// The destination square of the move.
    pub open spec fn to_sq(self) -> int {
        (self.code() & 0x3f) as int
    }

    /// The four flag bits of the move.
    pub open spec fn flags(self) -> u16 {
        (self.code() >> 12u16) & 0x0f
    }

    pub closed spec fn ep_position(self) -> u64 {
        self.en_passant_bb_position
    }

    pub closed spec fn ep_piece_square(self) -> u64 {
        self.en_passant_bb_piece_square
    }

    pub closed spec fn mover_color(self) -> Color {
        self.color
    }

    pub closed spec fn mover_type(self) -> PieceType {
        self.piece_type
    }

    /// Builds a move with test defaults: a black mover of type `Empty`.
    pub fn dummy_from_to(from: usize, to: usize) -> (r: Self)
        ensures
            r.code() == encode(0, from, to),
            r.ep_position() == 0,
            r.ep_piece_square() == 0,
            r.mover_color() == Color::Black,
            r.mover_type() == PieceType::Empty,
    {
        Move::with_flags(0, from, to, Color::Black, PieceType::Empty)
    }

    /// Builds a flagged move with test defaults: a black mover of type `Empty`.
    pub fn dummy_with_flags(flags: u16, from: usize, to: usize) -> (r: Self)
        ensures
            r.code() == encode(flags, from, to),
            r.ep_position() == 0,
            r.ep_piece_square() == 0,
            r.mover_color() == Color::Black,
            r.mover_type() == PieceType::Empty,
    {
        Move::with_flags(flags, from, to, Color::Black, PieceType::Empty)
    }

    /// Encodes a normal move `from` square `to` square.
    pub fn from_to(from: usize, to: usize, color: Color, piece_type: PieceType) -> (r: Self)
        ensures
            r == Move::made(0, from, to, color, piece_type),
            r.code() == encode(0, from, to),
            r.ep_position() == 0,
            r.ep_piece_square() == 0,
            r.mover_color() == color,
            r.mover_type() == piece_type,
    {
        Move::with_flags(0, from, to, color, piece_type)
    }

    /// The move that `with_flags` builds.
    pub closed spec fn made(flags: u16, from: usize, to: usize, color: Color, piece_type: PieceType) -> Move {
        Move {
            _move: encode(flags, from, to),
            en_passant_bb_position: 0,
            en_passant_bb_piece_square: 0,
            color,
            piece_type,
        }
    }

    /// What a built move reports: its flags and squares, no en passant squares, and
    /// the mover's color and type.
    pub proof fn lemma_made(flags: u16, from: usize, to: usize, color: Color, piece_type: PieceType)
        ensures
            Move::made(flags, from, to, color, piece_type).code() == encode(flags, from, to),
            Move::made(flags, from, to, color, piece_type).ep_position() == 0,
            Move::made(flags, from, to, color, piece_type).ep_piece_square() == 0,
            Move::made(flags, from, to, color, piece_type).mover_color() == color,
            Move::made(flags, from, to, color, piece_type).mover_type() == piece_type,
            Move::made(flags, from, to, color, piece_type).flags() == flags & 0xf,
            from < 64 ==> Move::made(flags, from, to, color, piece_type).from_sq() == from,
            to < 64 ==> Move::made(flags, from, to, color, piece_type).to_sq() == to,
            flags < 16 ==> Move::made(flags, from, to, color, piece_type).flags() == flags,
    {
        lemma_move_round_trip(Move::made(flags, from, to, color, piece_type), flags, from, to);
        assert(flags < 16 ==> flags & 0xf == flags) by (bit_vector);
    }

    /// Encodes a move with `flags` (only the low four bits count).
    pub fn with_flags(flags: u16, from: usize, to: usize, color: Color, piece_type: PieceType) -> (r: Self)
        ensures
            r == Move::made(flags, from, to, color, piece_type),
            r.code() == encode(flags, from, to),
            r.ep_position() == 0,
            r.ep_piece_square() == 0,
            r.mover_color() == color,
            r.mover_type() == piece_type,
    {
        Self {
            _move: ((flags & 0xf) << 12u16) | (((from as u16) & 0x3f) << 6u16) | ((to as u16) & 0x3f),
            en_passant_bb_position: 0,
            en_passant_bb_piece_square: 0,
            color,
            piece_type,
        }
    }

    pub fn get_color(&self) -> (r: Color)
        ensures
            r == self.mover_color(),
    {
        self.color
    }

    pub fn get_piece_type(&self) -> (r: PieceType)
        ensures
            r == self.mover_type(),
    {
        self.piece_type
    }

    pub fn as_u64(&self) -> (r: u64)
        ensures
            r == self.code() as u64,
    {
        self._move as u64
    }

    pub fn get_flags(&self) -> (r: u16)
        ensures
            r == self.flags(),
            r < 16,
    {
        proof {
            lemma_code_parts(self._move);
        }
        (self._move >> 12u16) & 0x0f
    }

    pub fn get_from(&self) -> (r: usize)
        ensures
            r == self.from_sq(),
            r < 64,
    {
        proof {
            lemma_code_parts(self._move);
        }
        ((self._move >> 6u16) & 0x3f) as usize
    }

    pub fn get_to(&self) -> (r: usize)
        ensures
            r == self.to_sq(),
            r < 64,
    {
        proof {
            lemma_code_parts(self._move);
        }
        (self._move & 0x3f) as usize
    }

    pub fn is_normal(&self) -> (r: bool)
        ensures
            r == (self.flags() == NORMAL),
    {
        proof {
            lemma_code_parts(self._move);
        }
        (self._move >> 12u16) == NORMAL
    }

    pub fn is_double_pawn_push(&self) -> (r: bool)
        ensures
            r == (self.flags() == DOUBLE_PAWN_PUSH),
    {
        proof {
            lemma_code_parts(self._move);
        }
        (self._move >> 12u16) == DOUBLE_PAWN_PUSH
    }

    pub fn is_king_castle(&self) -> (r: bool)
        ensures
            r == (self.flags() == KING_CASTLE),
    {
        proof {
            lemma_code_parts(self._move);
        }
        (self._move >> 12u16) == KING_CASTLE
    }

    pub fn is_queen_castle(&self) -> (r: bool)
        ensures
            r == (self.flags() == QUEEN_CASTLE),
    {
        proof {
            lemma_code_parts(self._move);
        }
        (self._move >> 12u16) == QUEEN_CASTLE
    }

    pub fn is_capture(&self) -> (r: bool)
        ensures
            r == (self.flags() == CAPTURE),
    {
        proof {
            lemma_code_parts(self._move);
        }
        (self._move >> 12u16) == CAPTURE
    }

    pub fn is_en_passant(&self) -> (r: bool)
        ensures
            r == (self.flags() == EN_PASSANT),
    {
        proof {
            lemma_code_parts(self._move);
        }
        (self._move >> 12u16) == EN_PASSANT
    }

    pub fn is_knight_promotion(&self) -> (r: bool)
        ensures
            r == (self.flags() == KNIGHT_PROMOTION),
    {
        proof {
            lemma_code_parts(self._move);
        }
        (self._move >> 12u16) == KNIGHT_PROMOTION
    }

    pub fn is_bishop_promotion(&self) -> (r: bool)
        ensures
            r == (self.flags() == BISHOP_PROMOTION),
    {
        proof {
            lemma_code_parts(self._move);
        }
        (self._move >> 12u16) == BISHOP_PROMOTION
    }

    pub fn is_rook_promotion(&self) -> (r: bool)
        ensures
            r == (self.flags() == ROOK_PROMOTION),
    {
        proof {
            lemma_code_parts(self._move);
        }
        (self._move >> 12u16) == ROOK_PROMOTION
    }

    pub fn is_queen_promotion(&self) -> (r: bool)
        ensures
            r == (self.flags() == QUEEN_PROMOTION),
    {
        proof {
            lemma_code_parts(self._move);
        }
        (self._move >> 12u16) == QUEEN_PROMOTION
    }

    pub fn is_knight_promo_capture(&self) -> (r: bool)
        ensures
            r == (self.flags() == KNIGHT_PROMOTION_CAPTURE),
    {
        proof {
            lemma_code_parts(self._move);
        }
        (self._move >> 12u16) == KNIGHT_PROMOTION_CAPTURE
    }

    pub fn is_bishop_promo_capture(&self) -> (r: bool)
        ensures
            r == (self.flags() == BISHOP_PROMOTION_CAPTURE),
    {
        proof {
            lemma_code_parts(self._move);
        }
        (self._move >> 12u16) == BISHOP_PROMOTION_CAPTURE
    }

    pub fn is_rook_promo_capture(&self) -> (r: bool)
        ensures
            r == (self.flags() == ROOK_PROMOTION_CAPTURE),
    {
        proof {
            lemma_code_parts(self._move);
        }
        (self._move >> 12u16) == ROOK_PROMOTION_CAPTURE
    }

    pub fn is_queen_promo_capture(&self) -> (r: bool)
        ensures
            r == (self.flags() == QUEEN_PROMOTION_CAPTURE),
    {
        proof {
            lemma_code_parts(self._move);
        }
        (self._move >> 12u16) == QUEEN_PROMOTION_CAPTURE
    }

    /// Any of the four promotions with capture.
    pub fn is_promo_capture(&self) -> (r: bool)
        ensures
            r == (self.flags() >= KNIGHT_PROMOTION_CAPTURE),
    {
        proof {
            lemma_code_parts(self._move);
        }
        (self._move >> 12u16) >= KNIGHT_PROMOTION_CAPTURE
    }

    /// Any of the eight promotions, with or without capture.
    pub fn is_promotion(&self) -> (r: bool)
        ensures
            r == (self.flags() >= KNIGHT_PROMOTION),
    {
        proof {
            lemma_code_parts(self._move);
        }
        (self._move >> 12u16) >= KNIGHT_PROMOTION
    }

    pub fn set_en_passant_bb_position(&mut self, position: u64)
        ensures
            final(self).ep_position() == position,
            final(self).code() == old(self).code(),
            final(self).ep_piece_square() == old(self).ep_piece_square(),
            final(self).mover_color() == old(self).mover_color(),
            final(self).mover_type() == old(self).mover_type(),
    {
        self.en_passant_bb_position = position
    }

    pub fn get_en_passant_bb_position(&self) -> (r: u64)
        ensures
            r == self.ep_position(),
    {
        self.en_passant_bb_position
    }

    pub fn set_en_passant_bb_piece_square(&mut self, square: u64)
        ensures
            final(self).ep_piece_square() == square,
            final(self).code() == old(self).code(),
            final(self).ep_position() == old(self).ep_position(),
            final(self).mover_color() == old(self).mover_color(),
            final(self).mover_type() == old(self).mover_type(),
    {
        self.en_passant_bb_piece_square = square
    }

    pub fn get_en_passant_bb_piece_square(&self) -> (r: u64)
        ensures
            r == self.ep_piece_square(),
    {
        self.en_passant_bb_piece_square
    }

    /// Long algebraic notation: source square, destination square and, for a
    /// promotion, the lower-case letter of the new piece (e.g. "e2e4", "e7e8q").
    pub fn to_algebraic_notation(&self) -> (r: String)
        ensures
            r@ == move_notation(self.from_sq(), self.to_sq(), self.flags()),
    {
        let from = self.get_from();
        let to = self.get_to();
        let flags = self.get_flags();
        let mut bytes: Vec<u8> = Vec::new();
        bytes.push(97u8 + (from % 8) as u8);
        bytes.push(49u8 + (from / 8) as u8);
        bytes.push(97u8 + (to % 8) as u8);
        bytes.push(49u8 + (to / 8) as u8);
        let p = promotion_letter(flags);
        if p != 0 {
            bytes.push(p);
        }
        proof {
            assert(all_ascii(bytes@));
        }
        let r = string_from_ascii(bytes);
        proof {
            assert(r@ =~= move_notation(self.from_sq(), self.to_sq(), self.flags()));
        }
        r
    }
}

/// The byte of the letter naming the piece a promotion flag asks for, or 0.
pub open spec fn promotion_letter_spec(flags: u16) -> u8 {
    if flags == KNIGHT_PROMOTION || flags == KNIGHT_PROMOTION_CAPTURE {
        110u8
    } else if flags == BISHOP_PROMOTION || flags == BISHOP_PROMOTION_CAPTURE {
        98u8
    } else if flags == ROOK_PROMOTION || flags == ROOK_PROMOTION_CAPTURE {
        114u8
    } else if flags == QUEEN_PROMOTION || flags == QUEEN_PROMOTION_CAPTURE {
        113u8
    } else {
        0u8
    }
}

fn promotion_letter(flags: u16) -> (r: u8)
    ensures
        r == promotion_letter_spec(flags),
{
    if flags == KNIGHT_PROMOTION || flags == KNIGHT_PROMOTION_CAPTURE {
        110
    } else if flags == BISHOP_PROMOTION || flags == BISHOP_PROMOTION_CAPTURE {
        98
    } else if flags == ROOK_PROMOTION || flags == ROOK_PROMOTION_CAPTURE {
        114
    } else if flags == QUEEN_PROMOTION || flags == QUEEN_PROMOTION_CAPTURE {
        113
    } else {
        0
    }
}

/// The name of a square in lower case ("a1" .. "h8").
pub open spec fn square_name(sq: int) -> Seq<char> {
    seq![('a' as int + sq % 8) as char, ('1' as int + sq / 8) as char]
}

/// The long algebraic notation of a move.
pub open spec fn move_notation(from: int, to: int, flags: u16) -> Seq<char> {
    let p = promotion_letter_spec(flags);
    square_name(from) + square_name(to) + if p != 0 {
        seq![p as char]
    } else {
        Seq::<char>::empty()
    }
}

/// The letter that ends the notation of a promotion names the promoted piece: it is
/// the letter of that piece in a FEN string, in lower case ('n', 'b', 'r', 'q' for the
/// knight, bishop, rook and queen promotions, capturing or not), so the four promotions
/// of a pawn are written with four different letters; any other move is written with
/// its two squares alone.
pub proof fn lemma_promotion_letter(from: int, to: int, flags: u16)
    ensures
        KNIGHT_PROMOTION <= flags <= QUEEN_PROMOTION_CAPTURE ==> {
            &&& move_notation(from, to, flags).len() == 5
            &&& move_notation(from, to, flags)[4] == crate::utils::piece_letter(
                Color::Black,
                crate::board::promotion_type(flags),
            )
        },
        !(KNIGHT_PROMOTION <= flags <= QUEEN_PROMOTION_CAPTURE) ==> move_notation(from, to, flags).len() == 4,
        flags == ROOK_PROMOTION || flags == ROOK_PROMOTION_CAPTURE ==> move_notation(from, to, flags)[4] == 'r',
        flags == KNIGHT_PROMOTION || flags == KNIGHT_PROMOTION_CAPTURE ==> move_notation(from, to, flags)[4] == 'n',
        flags == BISHOP_PROMOTION || flags == BISHOP_PROMOTION_CAPTURE ==> move_notation(from, to, flags)[4] == 'b',
        flags == QUEEN_PROMOTION || flags == QUEEN_PROMOTION_CAPTURE ==> move_notation(from, to, flags)[4] == 'q',
        forall|f: u16, g: u16|
            KNIGHT_PROMOTION <= f <= QUEEN_PROMOTION && KNIGHT_PROMOTION <= g <= QUEEN_PROMOTION && f != g
                ==> #[trigger] move_notation(from, to, f)[4] != #[trigger] move_notation(from, to, g)[4],
{
    assert forall|f: u16| KNIGHT_PROMOTION <= f <= QUEEN_PROMOTION_CAPTURE implies #[trigger] move_notation(from, to, f).len() == 5
        && move_notation(from, to, f)[4] == crate::utils::piece_letter(Color::Black, crate::board::promotion_type(f)) by {
        let sq = square_name(from) + square_name(to);
        assert(sq.len() == 4);
        let p = promotion_letter_spec(f);
        assert(p != 0);
        assert((sq + seq![p as char])[4] == p as char);
    }
    assert forall|f: u16| !(KNIGHT_PROMOTION <= f <= QUEEN_PROMOTION_CAPTURE) implies #[trigger] move_notation(from, to, f).len()
        == 4 by {
        assert(promotion_letter_spec(f) == 0);
    }
}

/// Bit facts about a move code.
pub proof fn lemma_code_parts(m: u16)
    ensures
        (m >> 12u16) & 0x0f == m >> 12u16,
        m >> 12u16 < 16,
        (m >> 6u16) & 0x3f < 64,
        m & 0x3f < 64,
{
    assert((m >> 12u16) & 0x0f == m >> 12u16 && m >> 12u16 < 16 && (m >> 6u16) & 0x3f < 64 && m
        & 0x3f < 64) by (bit_vector);
}

/// The squares of a move are on the board, and its flags fit in four bits.
pub proof fn lemma_move_squares(m: Move)
    ensures
        0 <= m.from_sq() < 64,
        0 <= m.to_sq() < 64,
        m.flags() < 16,
{
    lemma_code_parts(m.code());
}

/// Decoding gives back what was encoded: the flags' low four bits, and each
/// square modulo 64.
pub proof fn lemma_encode_decode(flags: u16, from: usize, to: usize)
    ensures
        (encode(flags, from, to) >> 12u16) & 0x0f == flags & 0xf,
        ((encode(flags, from, to) >> 6u16) & 0x3f) as int == from as int % 64,
        (encode(flags, from, to) & 0x3f) as int == to as int % 64,
{
    let a = from as u16;
    let b = to as u16;
    assert((((flags & 0xf) << 12u16) | ((a & 0x3f) << 6u16) | (b & 0x3f)) >> 12u16 & 0x0f == flags
        & 0xf && ((((flags & 0xf) << 12u16) | ((a & 0x3f) << 6u16) | (b & 0x3f)) >> 6u16) & 0x3f
        == a & 0x3f && (((flags & 0xf) << 12u16) | ((a & 0x3f) << 6u16) | (b & 0x3f)) & 0x3f == b
        & 0x3f) by (bit_vector);
    assert((from as u16) & 0x3f == (from % 64) as u16 && (to as u16) & 0x3f == (to % 64) as u16)
        by (bit_vector);
}

pub fn get_promotion_flag_from_symbol(symbol: char) -> (r: (u16, u16))
    ensures
        r == (match symbol {
            'b' | 'B' => (BISHOP_PROMOTION, BISHOP_PROMOTION_CAPTURE),
            'n' | 'N' => (KNIGHT_PROMOTION, KNIGHT_PROMOTION_CAPTURE),
            'q' | 'Q' => (QUEEN_PROMOTION, QUEEN_PROMOTION_CAPTURE),
            'r' | 'R' => (ROOK_PROMOTION, ROOK_PROMOTION_CAPTURE),
            _ => (0u16, 0u16),
        }),
{
    match symbol {
        'b' | 'B' => (BISHOP_PROMOTION, BISHOP_PROMOTION_CAPTURE),
        'n' | 'N' => (KNIGHT_PROMOTION, KNIGHT_PROMOTION_CAPTURE),
        'q' | 'Q' => (QUEEN_PROMOTION, QUEEN_PROMOTION_CAPTURE),
        'r' | 'R' => (ROOK_PROMOTION, ROOK_PROMOTION_CAPTURE),
        _ => (0, 0),
    }
}

pub fn get_piece_type_from_promotion_flag(flag: u16) -> (r: PieceType)
    ensures
        r == crate::board::promotion_type(flag),
{
    if flag == KNIGHT_PROMOTION || flag == KNIGHT_PROMOTION_CAPTURE {
        PieceType::Knight
    } else if flag == BISHOP_PROMOTION || flag == BISHOP_PROMOTION_CAPTURE {
        PieceType::Bishop
    } else if flag == ROOK_PROMOTION || flag == ROOK_PROMOTION_CAPTURE {
        PieceType::Rook
    } else if flag == QUEEN_PROMOTION || flag == QUEEN_PROMOTION_CAPTURE {
        PieceType::Queen
    } else {
        PieceType::Empty
    }
}

/// A move built from `flags`, `from` and `to` reports back the flags' low four bits
/// and both squares modulo 64; for squares on the board, exactly those squares.
pub proof fn lemma_move_round_trip(m: Move, flags: u16, from: usize, to: usize)
    requires
        m.code() == encode(flags, from, to),
    ensures
        m.flags() == flags & 0xf,
        m.from_sq() == from as int % 64,
        m.to_sq() == to as int % 64,
        from < 64 ==> m.from_sq() == from,
        to < 64 ==> m.to_sq() == to,
{
    lemma_encode_decode(flags, from, to);
}

} // verus!
