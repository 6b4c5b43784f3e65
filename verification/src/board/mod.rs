use vstd::prelude::*;

use crate::bitwise_utils::{has_sq, pop_lsb};
use crate::board_utils::{
    castling_right_flag, get_castling_right_flag, is_pawn_promotion, color_index, get_color_index, get_piece_type_from_index,
    get_piece_type_index, piece_type_index, Side, BLACK_IDX, BISHOPS_IDX, KINGS_IDX,
    KNIGHTS_IDX, PAWNS_IDX, PIECE_INDEXES, QUEENS_IDX, ROOKS_IDX, WHITE_IDX,
};
use crate::enums::{opponent_of, Color, PieceType};
use crate::moves::{
    get_piece_type_from_promotion_flag, Move, BISHOP_PROMOTION, BISHOP_PROMOTION_CAPTURE, DOUBLE_PAWN_PUSH, EN_PASSANT,
    KING_CASTLE, KNIGHT_PROMOTION, KNIGHT_PROMOTION_CAPTURE, QUEEN_CASTLE, QUEEN_PROMOTION,
    QUEEN_PROMOTION_CAPTURE, ROOK_PROMOTION, ROOK_PROMOTION_CAPTURE,
};
use crate::positions::BBPositions;
use crate::zobrist::{
    ep_file, move_hash, get_piece_index, Zobrist, BLACK_KING_SIDE_CASTLE_INDEX,
    BLACK_QUEEN_SIDE_CASTLE_INDEX, WHITE_KING_SIDE_CASTLE_INDEX, WHITE_QUEEN_SIDE_CASTLE_INDEX,
};

pub mod fen;

verus! {

/// What a move changes and unmaking restores.
#[derive(Clone, Copy, Debug)]
pub struct Snapshot {
    pub bitboards: [u64; 8],
    pub en_passant_bb_position: u64,
    pub en_passant_bb_piece_square: u64,
    pub black_king_moved: bool,
    pub white_king_moved: bool,
    pub castling_rights: u8,
    pub hash: u64,
}

/// A position on bitboards: slot 0 holds the black pieces, slot 1 the white pieces,
/// slots 2..=7 the bishops, kings, knights, pawns, queens and rooks.
/// The castling rights use bit 3 (white king side), bit 2 (white queen side),
/// bit 1 (black king side) and bit 0 (black queen side).
/// A stack of snapshots lets the last moves be unmade.
#[derive(Clone)]
pub struct Board {
    bitboards: [u64; 8],
    en_passant_bb_position: u64,
    en_passant_bb_piece_square: u64,
    side_to_move: Color,
    black_king_moved: bool,
    white_king_moved: bool,
    castling_rights: u8,
    winner: Option<Color>,
    full_move_clock: u32,
    half_move_clock: u32,
    history: Vec<Snapshot>,
    moves_history: Vec<Move>,
    zobrist: Zobrist,
}

// ---------------------------------------------------------------------------
// Bitboard arithmetic of pieces
// ---------------------------------------------------------------------------

/// Toggles `bb` in the color slot and in the type slot.
pub open spec fn xor_piece(bbs: Seq<u64>, c: Color, pt: PieceType, bb: u64) -> Seq<u64> {
    let ci = color_index(c) as int;
    let ti = piece_type_index(pt) as int;
    bbs.update(ci, bbs[ci] ^ bb).update(ti, bbs[ti] ^ bb)
}

/// Sets `bb` in the color slot and in the type slot.
pub open spec fn or_piece(bbs: Seq<u64>, c: Color, pt: PieceType, bb: u64) -> Seq<u64> {
    let ci = color_index(c) as int;
    let ti = piece_type_index(pt) as int;
    bbs.update(ci, bbs[ci] | bb).update(ti, bbs[ti] | bb)
}

/// The first type slot (bishops, kings, knights, pawns, queens, rooks) that meets `bb`.
pub open spec fn type_at(bbs: Seq<u64>, bb: u64) -> PieceType {
    if bbs[2] & bb != 0 {
        PieceType::Bishop
    } else if bbs[3] & bb != 0 {
        PieceType::King
    } else if bbs[4] & bb != 0 {
        PieceType::Knight
    } else if bbs[5] & bb != 0 {
        PieceType::Pawn
    } else if bbs[6] & bb != 0 {
        PieceType::Queen
    } else if bbs[7] & bb != 0 {
        PieceType::Rook
    } else {
        PieceType::Empty
    }
}

/// White when the white slot meets `bb`, black otherwise (empty squares included).
pub open spec fn color_at(bbs: Seq<u64>, bb: u64) -> Color {
    if bbs[1] & bb != 0 {
        Color::White
    } else {
        Color::Black
    }
}

/// The number of moves black made among the last `n`, when the moves alternate and
/// `side` is to move now.
pub open spec fn black_moves(n: nat, side: Color) -> nat {
    if side == Color::White {
        (n + 1) / 2
    } else {
        n / 2
    }
}

// ---------------------------------------------------------------------------
// What a move does
// ---------------------------------------------------------------------------

pub open spec fn promotion_type(flags: u16) -> PieceType {
    if flags == KNIGHT_PROMOTION || flags == KNIGHT_PROMOTION_CAPTURE {
        PieceType::Knight
    } else if flags == BISHOP_PROMOTION || flags == BISHOP_PROMOTION_CAPTURE {
        PieceType::Bishop
    } else if flags == ROOK_PROMOTION || flags == ROOK_PROMOTION_CAPTURE {
        PieceType::Rook
    } else if flags == QUEEN_PROMOTION || flags == QUEEN_PROMOTION_CAPTURE {
        PieceType::Queen
    } else {
        PieceType::Empty
    }
}

/// A pawn move of `color` from its seventh rank to its eighth.
pub open spec fn pawn_promotes(color: Color, from: u64, to: u64) -> bool {
    (color == Color::Black && BBPositions::ROW_2@.contains(from) && BBPositions::ROW_1@.contains(
        to,
    )) || (color == Color::White && BBPositions::ROW_7@.contains(from)
        && BBPositions::ROW_8@.contains(to))
}

/// The type of the piece on the source square.
pub open spec fn mv_moving_type(bbs: Seq<u64>, m: Move) -> PieceType {
    type_at(bbs, 1u64 << (m.from_sq() as u64))
}

/// The type that lands on the destination square (the promoted type for a promotion).
pub open spec fn mv_landing_type(bbs: Seq<u64>, c: Color, m: Move) -> PieceType {
    let pt0 = mv_moving_type(bbs, m);
    let from = 1u64 << (m.from_sq() as u64);
    let to = 1u64 << (m.to_sq() as u64);
    if pt0 == PieceType::Pawn && m.flags() != DOUBLE_PAWN_PUSH && pawn_promotes(c, from, to) {
        promotion_type(m.flags())
    } else {
        pt0
    }
}

/// Bitboards once the mover has left its square (and an en passant victim is gone).
pub open spec fn mv_lifted(bbs: Seq<u64>, eps: u64, c: Color, m: Move) -> Seq<u64> {
    let pt0 = mv_moving_type(bbs, m);
    let b1 = if m.flags() == EN_PASSANT {
        xor_piece(bbs, opponent_of(c), pt0, eps)
    } else {
        bbs
    };
    xor_piece(b1, c, pt0, 1u64 << (m.from_sq() as u64))
}

/// The type captured on the destination square (`Empty` when none).
pub open spec fn mv_captured(bbs: Seq<u64>, eps: u64, c: Color, m: Move) -> PieceType {
    type_at(mv_lifted(bbs, eps, c, m), 1u64 << (m.to_sq() as u64))
}

/// Bitboards once the captured piece is removed and the mover is placed.
pub open spec fn mv_landed(bbs: Seq<u64>, eps: u64, c: Color, m: Move) -> Seq<u64> {
    let b2 = mv_lifted(bbs, eps, c, m);
    let to = 1u64 << (m.to_sq() as u64);
    let cap = mv_captured(bbs, eps, c, m);
    let b3 = if cap != PieceType::Empty {
        xor_piece(b2, opponent_of(c), cap, to)
    } else {
        b2
    };
    or_piece(b3, c, mv_landing_type(bbs, c, m), to)
}

/// Where the rook stands before and after a castle of `c` on `side`.
pub open spec fn rook_squares(c: Color, side: Side) -> (u64, u64) {
    match (c, side) {
        (Color::Black, Side::KingSide) => (BBPositions::H8, BBPositions::F8),
        (Color::Black, Side::QueenSide) => (BBPositions::A8, BBPositions::D8),
        (Color::White, Side::KingSide) => (BBPositions::H1, BBPositions::F1),
        (Color::White, Side::QueenSide) => (BBPositions::A1, BBPositions::D1),
    }
}

/// Bitboards after the move, the castling rook included.
pub open spec fn mv_bitboards(bbs: Seq<u64>, eps: u64, c: Color, m: Move) -> Seq<u64> {
    let b4 = mv_landed(bbs, eps, c, m);
    if mv_landing_type(bbs, c, m) == PieceType::King && m.flags() == KING_CASTLE {
        let (init, fin) = rook_squares(c, Side::KingSide);
        or_piece(xor_piece(b4, c, PieceType::Rook, init), c, PieceType::Rook, fin)
    } else if mv_landing_type(bbs, c, m) == PieceType::King && m.flags() == QUEEN_CASTLE {
        let (init, fin) = rook_squares(c, Side::QueenSide);
        or_piece(xor_piece(b4, c, PieceType::Rook, init), c, PieceType::Rook, fin)
    } else {
        b4
    }
}

/// Index of the castling key of `c` on `side`.
pub open spec fn castle_key_index(c: Color, side: Side) -> int {
    match (c, side) {
        (Color::White, Side::KingSide) => 0,
        (Color::White, Side::QueenSide) => 1,
        (Color::Black, Side::KingSide) => 2,
        (Color::Black, Side::QueenSide) => 3,
    }
}

/// The rights and hash after `c`'s move from `from` to `to` on one side: moving off
/// the own rook square drops the own right, landing on the opponent's rook square drops
/// the opponent's right; each dropped right flips its key in the hash.
pub open spec fn castle_side_update(
    z: Zobrist,
    rights: u8,
    hash: u64,
    c: Color,
    side: Side,
    from: u64,
    to: u64,
) -> (u8, u64) {
    let (own_rook, _) = rook_squares(c, side);
    let (opp_rook, _) = rook_squares(opponent_of(c), side);
    let fr = castling_right_flag(c, side);
    let or = castling_right_flag(opponent_of(c), side);
    let (r1, h1) = if from == own_rook && rights & fr != 0 {
        (rights & !fr, hash ^ z.castle_key(castle_key_index(c, side)))
    } else {
        (rights, hash)
    };
    if to == opp_rook && r1 & or != 0 {
        (r1 & !or, h1 ^ z.castle_key(castle_key_index(opponent_of(c), side)))
    } else {
        (r1, h1)
    }
}

pub open spec fn castle_update(
    z: Zobrist,
    rights: u8,
    hash: u64,
    c: Color,
    from: u64,
    to: u64,
) -> (u8, u64) {
    let (r1, h1) = castle_side_update(z, rights, hash, c, Side::KingSide, from, to);
    castle_side_update(z, r1, h1, c, Side::QueenSide, from, to)
}

/// The castling rights once the king (if it moved) gave up both of its side's rights.
pub open spec fn mv_rights_after_king(rights: u8, c: Color, landing: PieceType) -> u8 {
    if landing == PieceType::King {
        if c == Color::Black {
            rights & 0xC
        } else {
            rights & 0x3
        }
    } else {
        rights
    }
}

/// The en passant target square after the move: the one the move carries for a
/// double pawn push, none otherwise.
pub open spec fn mv_ep(bbs: Seq<u64>, m: Move) -> u64 {
    if mv_moving_type(bbs, m) == PieceType::Pawn && m.flags() == DOUBLE_PAWN_PUSH {
        m.ep_position()
    } else {
        0
    }
}

/// The en passant pawn square after the move.
pub open spec fn mv_eps(bbs: Seq<u64>, ep: u64, eps: u64, m: Move) -> u64 {
    if mv_moving_type(bbs, m) == PieceType::Pawn && m.flags() == DOUBLE_PAWN_PUSH {
        m.ep_piece_square()
    } else if m.flags() == EN_PASSANT || ep != 0 {
        0
    } else {
        eps
    }
}

/// The castling rights and the hash before the piece keys are updated.
pub open spec fn mv_rights_hash(b: Board, m: Move) -> (u8, u64) {
    let c = b.side();
    let landing = mv_landing_type(b.bbs(), c, m);
    let r1 = mv_rights_after_king(b.rights(), c, landing);
    castle_update(
        b.zob(),
        r1,
        b.hash(),
        c,
        1u64 << (m.from_sq() as u64),
        1u64 << (m.to_sq() as u64),
    )
}

/// The hash after the move.
pub open spec fn mv_hash(b: Board, m: Move) -> u64 {
    let c = b.side();
    move_hash(
        b.zob(),
        mv_rights_hash(b, m).1,
        mv_captured(b.bbs(), b.eps(), c, m),
        c,
        m.from_sq(),
        mv_landing_type(b.bbs(), c, m),
        m.to_sq(),
        None,
    )
}

/// A move may be made on `b`: the source square holds a piece of the side to move
/// and a promotion names its piece; the clocks have room to count it.
pub open spec fn move_allowed(b: Board, m: Move) -> bool {
    &&& color_at(b.bbs(), 1u64 << (m.from_sq() as u64)) == b.side()
    &&& mv_moving_type(b.bbs(), m) != PieceType::Empty
    &&& mv_landing_type(b.bbs(), b.side(), m) != PieceType::Empty
    &&& b.half() < u32::MAX
    &&& (b.side() == Color::Black ==> b.full() < u32::MAX)
}

/// `after` is `before` with move `m` made.
pub open spec fn move_made(before: Board, m: Move, after: Board) -> bool {
    let c = before.side();
    let landing = mv_landing_type(before.bbs(), c, m);
    &&& after.bbs() == mv_bitboards(before.bbs(), before.eps(), c, m)
    &&& after.ep() == mv_ep(before.bbs(), m)
    &&& after.eps() == mv_eps(before.bbs(), before.ep(), before.eps(), m)
    &&& after.side() == opponent_of(c)
    &&& after.bkm() == (before.bkm() || (landing == PieceType::King && c == Color::Black))
    &&& after.wkm() == (before.wkm() || (landing == PieceType::King && c == Color::White))
    &&& after.rights() == mv_rights_hash(before, m).0
    &&& after.hash() == mv_hash(before, m)
    &&& after.winner_of() == before.winner_of()
    &&& after.full() == (if c == Color::Black {
        (before.full() + 1) as u32
    } else {
        before.full()
    })
    &&& after.half() == (before.half() + 1) as u32
    &&& after.zob().same_keys(before.zob())
    &&& after.saved() == before.saved().push(before.snapshot())
    &&& after.played() == before.played().push(m)
}

/// `after` is `before` with its last saved state restored (or unchanged when
/// nothing is saved).
pub open spec fn move_unmade(before: Board, after: Board) -> bool {
    let n = before.saved().len();
    if n == 0 {
        after == before
    } else {
        let s = before.saved()[n - 1];
        &&& after.bbs() == s.bbs()
        &&& after.ep() == s.en_passant_bb_position
        &&& after.eps() == s.en_passant_bb_piece_square
        &&& after.bkm() == s.black_king_moved
        &&& after.wkm() == s.white_king_moved
        &&& after.rights() == s.castling_rights
        &&& after.hash() == s.hash
        &&& after.side() == opponent_of(before.side())
        &&& after.full() == (if before.side() == Color::White {
            (before.full() - 1) as u32
        } else {
            before.full()
        })
        &&& after.half() == (before.half() - 1) as u32
        &&& after.winner_of() == None::<Color>
        &&& after.zob().same_keys(before.zob())
        &&& after.saved() == before.saved().drop_last()
        &&& after.played() == before.played()
    }
}

impl Snapshot {
    pub open spec fn bbs(self) -> Seq<u64> {
        self.bitboards@
    }
}

impl Board {
    pub const BLACK_CASTLING_RIGHTS: u8 = 0x3;
    pub const BLACK_KING_SIDE_CASTLE_ROOK_FINAL_POS: u64 = BBPositions::F8;
    pub const BLACK_KING_SIDE_CASTLE_ROOK_INITIAL_POS: u64 = BBPositions::H8;
    pub const BLACK_KING_SIDE_CASTLING_RIGHT: u8 = 0x2;
    pub const BLACK_QUEEN_SIDE_CASTLE_ROOK_FINAL_POS: u64 = BBPositions::D8;
    pub const BLACK_QUEEN_SIDE_CASTLE_ROOK_INITIAL_POS: u64 = BBPositions::A8;
    pub const BLACK_QUEEN_SIDE_CASTLING_RIGHT: u8 = 0x1;
    pub const WHITE_CASTLING_RIGHTS: u8 = 0xC;
    pub const WHITE_KING_SIDE_CASTLE_ROOK_FINAL_POS: u64 = BBPositions::F1;
    pub const WHITE_KING_SIDE_CASTLE_ROOK_INITIAL_POS: u64 = BBPositions::H1;
    pub const WHITE_KING_SIDE_CASTLING_RIGHT: u8 = 0x8;
    pub const WHITE_QUEEN_SIDE_CASTLE_ROOK_FINAL_POS: u64 = BBPositions::D1;
    pub const WHITE_QUEEN_SIDE_CASTLE_ROOK_INITIAL_POS: u64 = BBPositions::A1;
    pub const WHITE_QUEEN_SIDE_CASTLING_RIGHT: u8 = 0x4;

    // ---------------- model ----------------

    pub closed spec fn bbs(self) -> Seq<u64> {
        self.bitboards@
    }

    pub closed spec fn ep(self) -> u64 {
        self.en_passant_bb_position
    }

    pub closed spec fn eps(self) -> u64 {
        self.en_passant_bb_piece_square
    }

    pub closed spec fn side(self) -> Color {
        self.side_to_move
    }

    pub closed spec fn bkm(self) -> bool {
        self.black_king_moved
    }

    pub closed spec fn wkm(self) -> bool {
        self.white_king_moved
    }

    pub closed spec fn rights(self) -> u8 {
        self.castling_rights
    }

    pub closed spec fn winner_of(self) -> Option<Color> {
        self.winner
    }

    pub closed spec fn full(self) -> u32 {
        self.full_move_clock
    }

    pub closed spec fn half(self) -> u32 {
        self.half_move_clock
    }

    pub closed spec fn zob(self) -> Zobrist {
        self.zobrist
    }

    pub closed spec fn hash(self) -> u64 {
        self.zobrist.hash_value()
    }

    /// The saved states, oldest first.
    pub closed spec fn saved(self) -> Seq<Snapshot> {
        self.history@
    }

    /// Every move made, oldest first (unmaking does not drop them).
    pub closed spec fn played(self) -> Seq<Move> {
        self.moves_history@
    }

    /// The part of the board that a snapshot records.
    pub closed spec fn snapshot(self) -> Snapshot {
        Snapshot {
            bitboards: self.bitboards,
            en_passant_bb_position: self.ep(),
            en_passant_bb_piece_square: self.eps(),
            black_king_moved: self.bkm(),
            white_king_moved: self.wkm(),
            castling_rights: self.rights(),
            hash: self.hash(),
        }
    }

    /// The board's invariant: the hashing keys are in place and the clocks are not
    /// below the number of moves that unmaking can take back.
    pub closed spec fn wf(self) -> bool {
        &&& self.zobrist.wf()
        &&& self.half_move_clock >= self.history@.len()
        &&& self.full_move_clock >= black_moves(self.history@.len(), self.side_to_move)
    }

    /// The white king-side right is held (and the king has not moved), etc.
    pub open spec fn king_side_right(self, color: Color) -> bool {
        if color == Color::Black {
            !self.bkm() && self.rights() & 0x2 != 0
        } else {
            !self.wkm() && self.rights() & 0x8 != 0
        }
    }

    pub open spec fn queen_side_right(self, color: Color) -> bool {
        if color == Color::Black {
            !self.bkm() && self.rights() & 0x1 != 0
        } else {
            !self.wkm() && self.rights() & 0x4 != 0
        }
    }

    // ---------------- construction ----------------

    /// The starting position with all castling rights.
    pub fn new() -> (r: Self)
        ensures
            r.wf(),
            r.bbs() == initial_bitboards(),
            r.rights() == 0xF,
            r.side() == Color::White,
            r.ep() == 0,
            r.eps() == 0,
            !r.bkm() && !r.wkm(),
            r.winner_of() == None::<Color>,
            r.full() == 1,
            r.half() == 0,
            r.saved().len() == 0,
            r.played().len() == 0,
            r.hash() == position_hash(r.zob(), r),
    {
        let mut board = Self::empty();
        board.reset();
        let ghost b0 = board;
        board.refresh_hash();
        proof {
            crate::zobrist::lemma_position_hash_same_keys(board.zobrist, b0.zobrist, board, b0);
        }
        board
    }

    /// An empty board, white to move, no rights; the hash is computed for it.
    pub fn empty() -> (r: Self)
        ensures
            r.wf(),
            r.bbs() == seq![0u64, 0, 0, 0, 0, 0, 0, 0],
            r.rights() == 0,
            r.side() == Color::White,
            r.ep() == 0,
            r.eps() == 0,
            !r.bkm() && !r.wkm(),
            r.winner_of() == None::<Color>,
            r.full() == 1,
            r.half() == 0,
            r.saved().len() == 0,
            r.played().len() == 0,
            r.hash() == position_hash(r.zob(), r),
    {
        let mut board = Board {
            bitboards: [0; 8],
            en_passant_bb_position: 0,
            en_passant_bb_piece_square: 0,
            side_to_move: Color::White,
            black_king_moved: false,
            white_king_moved: false,
            castling_rights: 0,
            winner: None,
            full_move_clock: 1,
            half_move_clock: 0,
            history: Vec::new(),
            moves_history: Vec::new(),
            zobrist: Zobrist::new(),
        };
        assert(board.bitboards@ =~= seq![0u64, 0, 0, 0, 0, 0, 0, 0]);
        let ghost b0 = board;
        board.refresh_hash();
        proof {
            crate::zobrist::lemma_position_hash_same_keys(board.zobrist, b0.zobrist, board, b0);
        }
        board
    }

    /// Recomputes the hash from scratch and stores it.
    fn refresh_hash(&mut self)
        requires
            old(self).zobrist.wf(),
        ensures
            final(self).zobrist.same_keys(old(self).zobrist),
            final(self).zobrist.wf(),
            final(self).hash() == position_hash(old(self).zobrist, *old(self)),
            final(self).bbs() == old(self).bbs(),
            final(self).ep() == old(self).ep(),
            final(self).eps() == old(self).eps(),
            final(self).side() == old(self).side(),
            final(self).bkm() == old(self).bkm(),
            final(self).wkm() == old(self).wkm(),
            final(self).rights() == old(self).rights(),
            final(self).winner_of() == old(self).winner_of(),
            final(self).full() == old(self).full(),
            final(self).half() == old(self).half(),
            final(self).saved() == old(self).saved(),
            final(self).played() == old(self).played(),
    {
        let h = self.zobrist.hash_for(self);
        self.zobrist.set_hash(h);
    }

    /// Puts every piece on its starting square and grants all castling rights;
    /// nothing else changes.
    pub fn reset(&mut self)
        ensures
            final(self).bbs() == initial_bitboards(),
            final(self).rights() == 0xF,
            final(self).ep() == old(self).ep(),
            final(self).eps() == old(self).eps(),
            final(self).side() == old(self).side(),
            final(self).bkm() == old(self).bkm(),
            final(self).wkm() == old(self).wkm(),
            final(self).winner_of() == old(self).winner_of(),
            final(self).full() == old(self).full(),
            final(self).half() == old(self).half(),
            final(self).zob() == old(self).zob(),
            final(self).saved() == old(self).saved(),
            final(self).played() == old(self).played(),
            final(self).hash() == old(self).hash(),
            old(self).wf() ==> final(self).wf(),
    {
        self.bitboards[PAWNS_IDX] = 0x00FF00000000FF00;
        self.bitboards[WHITE_IDX] = 0x000000000000FFFF;
        self.bitboards[BLACK_IDX] = 0xFFFF000000000000;
        self.bitboards[ROOKS_IDX] = 0x8100000000000081;
        self.bitboards[KNIGHTS_IDX] = 0x4200000000000042;
        self.bitboards[BISHOPS_IDX] = 0x2400000000000024;
        self.bitboards[QUEENS_IDX] = 0x0800000000000008;
        self.bitboards[KINGS_IDX] = 0x1000000000000010;
        self.castling_rights = 0xF;
        assert(self.bitboards@ =~= initial_bitboards());
    }

    // ---------------- queries ----------------

    pub fn set_winner(&mut self, winner: Option<Color>)
        ensures
            final(self).winner_of() == winner,
            final(self).bbs() == old(self).bbs(),
            final(self).ep() == old(self).ep(),
            final(self).eps() == old(self).eps(),
            final(self).side() == old(self).side(),
            final(self).bkm() == old(self).bkm(),
            final(self).wkm() == old(self).wkm(),
            final(self).rights() == old(self).rights(),
            final(self).full() == old(self).full(),
            final(self).half() == old(self).half(),
            final(self).hash() == old(self).hash(),
            final(self).zob() == old(self).zob(),
            final(self).saved() == old(self).saved(),
            final(self).played() == old(self).played(),
            old(self).wf() ==> final(self).wf(),
    {
        self.winner = winner;
    }

    pub fn get_winner(&self) -> (r: Option<Color>)
        ensures
            r == self.winner_of(),
    {
        self.winner
    }

    pub fn is_game_finished(&self) -> (r: bool)
        ensures
            r == self.winner_of().is_some(),
    {
        self.winner.is_some()
    }

    pub fn get_side_to_move(&self) -> (r: Color)
        ensures
            r == self.side(),
    {
        self.side_to_move
    }

    /// The castling rights byte.
    pub fn get_castling_rights(&self) -> (r: u8)
        ensures
            r == self.rights(),
    {
        self.castling_rights
    }

    /// A copy of the eight bitboards.
    pub fn get_bitboards(&self) -> (r: [u64; 8])
        ensures
            r@ == self.bbs(),
    {
        self.bitboards
    }

    pub fn get_half_move_clock(&self) -> (r: u32)
        ensures
            r == self.half(),
    {
        self.half_move_clock
    }

    pub fn get_full_move_clock(&self) -> (r: u32)
        ensures
            r == self.full(),
    {
        self.full_move_clock
    }

    pub fn has_king_side_castle_right(&self, color: Color) -> (r: bool)
        ensures
            r == self.king_side_right(color),
    {
        if color.is_black() {
            return !self.black_king_moved && self.castling_rights & 0x2 != 0;
        }
        !self.white_king_moved && self.castling_rights & 0x8 != 0
    }

    pub fn has_queen_side_castle_right(&self, color: Color) -> (r: bool)
        ensures
            r == self.queen_side_right(color),
    {
        if color.is_black() {
            return !self.black_king_moved && self.castling_rights & 0x1 != 0;
        }
        !self.white_king_moved && self.castling_rights & 0x4 != 0
    }

    /// The en passant target square as a bitboard (0 when none).
    pub fn get_en_passant(&self) -> (r: u64)
        ensures
            r == self.ep(),
    {
        self.en_passant_bb_position
    }

    /// The square of the pawn that an en passant capture would take (0 when none).
    pub fn get_en_passant_square(&self) -> (r: u64)
        ensures
            r == self.eps(),
    {
        self.en_passant_bb_piece_square
    }

    pub fn get_en_passant_bb_position(&self) -> (r: u64)
        ensures
            r == self.ep(),
    {
        self.en_passant_bb_position
    }

    pub fn get_en_passant_piece_square_bb(&self) -> (r: u64)
        ensures
            r == self.eps(),
    {
        self.en_passant_bb_piece_square
    }

    pub fn get_piece_positions(&self, color: Color, piece_type: PieceType) -> (r: u64)
        requires
            piece_type != PieceType::Empty,
        ensures
            r == self.bbs()[piece_type_index(piece_type) as int] & self.bbs()[color_index(
                color,
            ) as int],
    {
        self.bitboards[get_piece_type_index(piece_type)] & self.bitboards[get_color_index(color)]
    }

    pub fn get_player_pieces_positions(&self, color: Color) -> (r: u64)
        ensures
            r == self.bbs()[color_index(color) as int],
    {
        self.bitboards[get_color_index(color)]
    }

    pub fn get_occupied_squares(&self) -> (r: u64)
        ensures
            r == self.bbs()[1] | self.bbs()[0],
    {
        self.bitboards[WHITE_IDX] | self.bitboards[BLACK_IDX]
    }

    pub fn get_empty_squares(&self) -> (r: u64)
        ensures
            r == !(self.bbs()[1] | self.bbs()[0]),
    {
        !self.get_occupied_squares()
    }

    /// Adds a piece of `color` and `piece_type` on the squares of `bb_position`.
    pub fn place_piece(&mut self, color: Color, piece_type: PieceType, bb_position: u64)
        requires
            piece_type != PieceType::Empty,
        ensures
            final(self).bbs() == or_piece(old(self).bbs(), color, piece_type, bb_position),
            final(self).ep() == old(self).ep(),
            final(self).eps() == old(self).eps(),
            final(self).side() == old(self).side(),
            final(self).bkm() == old(self).bkm(),
            final(self).wkm() == old(self).wkm(),
            final(self).rights() == old(self).rights(),
            final(self).winner_of() == old(self).winner_of(),
            final(self).full() == old(self).full(),
            final(self).half() == old(self).half(),
            final(self).zob() == old(self).zob(),
            final(self).saved() == old(self).saved(),
            final(self).played() == old(self).played(),
            old(self).wf() ==> final(self).wf(),
    {
        let ci = get_color_index(color);
        let ti = get_piece_type_index(piece_type);
        self.bitboards[ci] = self.bitboards[ci] | bb_position;
        self.bitboards[ti] = self.bitboards[ti] | bb_position;
        assert(self.bitboards@ =~= or_piece(old(self).bbs(), color, piece_type, bb_position));
    }

    /// Toggles a piece of `color` and `piece_type` on the squares of `bb_position`:
    /// removes it when it stands there.
    pub fn remove_piece(&mut self, color: Color, piece_type: PieceType, bb_position: u64)
        requires
            piece_type != PieceType::Empty,
        ensures
            final(self).bbs() == xor_piece(old(self).bbs(), color, piece_type, bb_position),
            final(self).ep() == old(self).ep(),
            final(self).eps() == old(self).eps(),
            final(self).side() == old(self).side(),
            final(self).bkm() == old(self).bkm(),
            final(self).wkm() == old(self).wkm(),
            final(self).rights() == old(self).rights(),
            final(self).winner_of() == old(self).winner_of(),
            final(self).full() == old(self).full(),
            final(self).half() == old(self).half(),
            final(self).zob() == old(self).zob(),
            final(self).saved() == old(self).saved(),
            final(self).played() == old(self).played(),
            old(self).wf() ==> final(self).wf(),
    {
        let ci = get_color_index(color);
        let ti = get_piece_type_index(piece_type);
        self.bitboards[ci] = self.bitboards[ci] ^ bb_position;
        self.bitboards[ti] = self.bitboards[ti] ^ bb_position;
        assert(self.bitboards@ =~= xor_piece(old(self).bbs(), color, piece_type, bb_position));
    }

    /// The color on `square`: white when the white slot holds it, black otherwise.
    pub fn get_piece_color(&self, square: usize) -> (r: Color)
        requires
            square < 64,
        ensures
            r == color_at(self.bbs(), 1u64 << (square as u64)),
    {
        self.get_piece_color_by_bb_pos(1u64 << (square as u64))
    }

    pub fn get_piece_color_by_bb_pos(&self, bb_position: u64) -> (r: Color)
        ensures
            r == color_at(self.bbs(), bb_position),
    {
        if self.bitboards[WHITE_IDX] & bb_position != 0 {
            return Color::White;
        }
        Color::Black
    }

    /// The type on `square`, or `Empty`.
    pub fn get_piece_type(&self, square: usize) -> (r: PieceType)
        requires
            square < 64,
        ensures
            r == type_at(self.bbs(), 1u64 << (square as u64)),
    {
        self.get_piece_type_by_bb_pos(1u64 << (square as u64))
    }

    pub fn get_piece_type_by_bb_pos(&self, bb_position: u64) -> (r: PieceType)
        ensures
            r == type_at(self.bbs(), bb_position),
    {
        let mut k: usize = 0;
        while k < 6
            invariant
                k <= 6,
                forall|j: int| 0 <= j < k ==> self.bbs()[PIECE_INDEXES@[j] as int] & bb_position
                    == 0,
            decreases 6 - k,
        {
            let piece_index = PIECE_INDEXES[k];
            if self.bitboards[piece_index] & bb_position != 0 {
                return get_piece_type_from_index(piece_index);
            }
            k = k + 1;
        }
        PieceType::Empty
    }

    pub fn get_zobrist_hash(&self) -> (r: u64)
        ensures
            r == self.hash(),
    {
        self.zobrist.get_hash()
    }
}

impl Board {
    fn save_current_state(&mut self, m: Move)
        ensures
            final(self).saved() == old(self).saved().push(old(self).snapshot()),
            final(self).played() == old(self).played().push(m),
            final(self).bbs() == old(self).bbs(),
            final(self).ep() == old(self).ep(),
            final(self).eps() == old(self).eps(),
            final(self).side() == old(self).side(),
            final(self).bkm() == old(self).bkm(),
            final(self).wkm() == old(self).wkm(),
            final(self).rights() == old(self).rights(),
            final(self).winner_of() == old(self).winner_of(),
            final(self).full() == old(self).full(),
            final(self).half() == old(self).half(),
            final(self).zob() == old(self).zob(),
    {
        let snap = Snapshot {
            bitboards: self.bitboards,
            en_passant_bb_position: self.en_passant_bb_position,
            en_passant_bb_piece_square: self.en_passant_bb_piece_square,
            black_king_moved: self.black_king_moved,
            white_king_moved: self.white_king_moved,
            castling_rights: self.castling_rights,
            hash: self.zobrist.get_hash(),
        };
        self.history.push(snap);
        self.moves_history.push(m);
    }

    /// Takes back the last move: restores the saved pieces, en passant squares, king
    /// flags, castling rights and hash, steps the clocks back, hands the move back to
    /// the other side and clears the winner. Does nothing when no move is saved.
    pub fn unmake_last_move(&mut self)
        requires
            old(self).wf(),
        ensures
            final(self).wf(),
            move_unmade(*old(self), *final(self)),
    {
        if self.history.len() == 0 {
            return;
        }
        let snap = self.history.pop().unwrap();
        self.castling_rights = snap.castling_rights;
        self.bitboards = snap.bitboards;
        self.en_passant_bb_position = snap.en_passant_bb_position;
        self.en_passant_bb_piece_square = snap.en_passant_bb_piece_square;
        self.black_king_moved = snap.black_king_moved;
        self.white_king_moved = snap.white_king_moved;
        self.zobrist.set_hash(snap.hash);
        if self.side_to_move.is_white() {
            self.full_move_clock = self.full_move_clock - 1;
        }
        self.half_move_clock = self.half_move_clock - 1;
        self.side_to_move = self.side_to_move.opponent();
        if self.winner.is_some() {
            self.winner = None;
        }
        assert(self.history@ =~= old(self).history@.drop_last());
    }

    /// Whether `m` may be made (see `move_allowed`).
    pub fn is_move_allowed(&self, m: &Move) -> (r: bool)
        ensures
            r == move_allowed(*self, *m),
    {
        let from_square = m.get_from();
        let to_square = m.get_to();
        let from: u64 = 1u64 << (from_square as u64);
        let to: u64 = 1u64 << (to_square as u64);
        let color = self.get_piece_color_by_bb_pos(from);
        let moving = self.get_piece_type_by_bb_pos(from);
        let landing = if moving == PieceType::Pawn && m.get_flags() != DOUBLE_PAWN_PUSH
            && is_pawn_promotion(self.side_to_move, from, to) {
            get_piece_type_from_promotion_flag(m.get_flags())
        } else {
            moving
        };
        color == self.side_to_move && moving != PieceType::Empty && landing != PieceType::Empty
            && self.half_move_clock < 4294967295 && (self.side_to_move == Color::White
            || self.full_move_clock < 4294967295)
    }

    /// Makes a move: lifts the mover (and an en passant victim), captures on the
    /// destination, lands the mover (promoted if it is a pawn reaching the last rank),
    /// moves the castling rook, clears or sets the en passant squares, drops the
    /// castling rights that the move loses, counts the clocks, hands the move to the
    /// opponent and updates the hash. The previous state is saved for unmaking.
    pub fn move_piece(&mut self, m: &Move)
        requires
            old(self).wf(),
            move_allowed(*old(self), *m),
        ensures
            final(self).wf(),
            move_made(*old(self), *m, *final(self)),
    {
        let ghost b0 = *self;
        let from_square = m.get_from();
        let to_square = m.get_to();
        let color = self.get_piece_color(from_square);
        self.save_current_state(*m);
        let mut piece_type = self.get_piece_type(from_square);
        let from: u64 = 1u64 << (from_square as u64);
        let to: u64 = 1u64 << (to_square as u64);
        if m.is_en_passant() {
            let victim = self.en_passant_bb_piece_square;
            self.remove_piece(color.opponent(), piece_type, victim);
            self.en_passant_bb_position = 0;
            self.en_passant_bb_piece_square = 0;
        }
        if self.en_passant_bb_position != 0 {
            self.en_passant_bb_position = 0;
            self.en_passant_bb_piece_square = 0;
        }
        self.remove_piece(color, piece_type, from);
        if piece_type == PieceType::Pawn {
            if m.is_double_pawn_push() {
                self.en_passant_bb_position = m.get_en_passant_bb_position();
                self.en_passant_bb_piece_square = m.get_en_passant_bb_piece_square();
            } else if is_pawn_promotion(color, from, to) {
                piece_type = get_piece_type_from_promotion_flag(m.get_flags());
            }
        }
        assert(piece_type == mv_landing_type(b0.bbs(), color, *m));
        assert(self.bitboards@ == mv_lifted(b0.bbs(), b0.eps(), color, *m));
        let opponent_piece = self.get_piece_type(to_square);
        if opponent_piece != PieceType::Empty {
            self.remove_piece(color.opponent(), opponent_piece, to);
        }
        self.place_piece(color, piece_type, to);
        assert(self.bitboards@ == mv_landed(b0.bbs(), b0.eps(), color, *m));
        if piece_type == PieceType::King {
            self.handle_king_move(color, m);
        }
        assert(self.bitboards@ == mv_bitboards(b0.bbs(), b0.eps(), color, *m));
        if self.side_to_move.is_black() {
            self.full_move_clock = self.full_move_clock + 1;
        }
        self.half_move_clock = self.half_move_clock + 1;
        self.side_to_move = self.side_to_move.opponent();
        self.update_castling_rights(color, from, to);
        self.zobrist.update_hash_on_move(
            opponent_piece,
            color,
            from_square,
            piece_type,
            to_square,
            None,
        );
    }

    /// The king of `color` moved: it loses both castling rights of its side, and a
    /// castle also moves the rook.
    fn handle_king_move(&mut self, color: Color, m: &Move)
        ensures
            final(self).bitboards@ == (if m.flags() == KING_CASTLE {
                let (init, fin) = rook_squares(color, Side::KingSide);
                or_piece(
                    xor_piece(old(self).bitboards@, color, PieceType::Rook, init),
                    color,
                    PieceType::Rook,
                    fin,
                )
            } else if m.flags() == QUEEN_CASTLE {
                let (init, fin) = rook_squares(color, Side::QueenSide);
                or_piece(
                    xor_piece(old(self).bitboards@, color, PieceType::Rook, init),
                    color,
                    PieceType::Rook,
                    fin,
                )
            } else {
                old(self).bitboards@
            }),
            final(self).castling_rights == mv_rights_after_king(
                old(self).castling_rights,
                color,
                PieceType::King,
            ),
            final(self).black_king_moved == (old(self).black_king_moved || color == Color::Black),
            final(self).white_king_moved == (old(self).white_king_moved || color == Color::White),
            final(self).ep() == old(self).ep(),
            final(self).eps() == old(self).eps(),
            final(self).side() == old(self).side(),
            final(self).winner_of() == old(self).winner_of(),
            final(self).full() == old(self).full(),
            final(self).half() == old(self).half(),
            final(self).saved() == old(self).saved(),
            final(self).played() == old(self).played(),
            final(self).zob() == old(self).zob(),
    {
        if color.is_black() {
            self.black_king_moved = true;
            self.castling_rights = self.castling_rights & Board::WHITE_CASTLING_RIGHTS;
            if m.is_king_castle() {
                self.remove_piece(color, PieceType::Rook, Board::BLACK_KING_SIDE_CASTLE_ROOK_INITIAL_POS);
                self.place_piece(color, PieceType::Rook, Board::BLACK_KING_SIDE_CASTLE_ROOK_FINAL_POS);
            } else if m.is_queen_castle() {
                self.remove_piece(color, PieceType::Rook, Board::BLACK_QUEEN_SIDE_CASTLE_ROOK_INITIAL_POS);
                self.place_piece(color, PieceType::Rook, Board::BLACK_QUEEN_SIDE_CASTLE_ROOK_FINAL_POS);
            }
        } else {
            self.white_king_moved = true;
            self.castling_rights = self.castling_rights & Board::BLACK_CASTLING_RIGHTS;
            if m.is_king_castle() {
                self.remove_piece(color, PieceType::Rook, Board::WHITE_KING_SIDE_CASTLE_ROOK_INITIAL_POS);
                self.place_piece(color, PieceType::Rook, Board::WHITE_KING_SIDE_CASTLE_ROOK_FINAL_POS);
            } else if m.is_queen_castle() {
                self.remove_piece(color, PieceType::Rook, Board::WHITE_QUEEN_SIDE_CASTLE_ROOK_INITIAL_POS);
                self.place_piece(color, PieceType::Rook, Board::WHITE_QUEEN_SIDE_CASTLE_ROOK_FINAL_POS);
            }
        }
    }

    /// Drops the castling rights that a move from `from` to `to` by `color` loses.
    fn update_castling_rights(&mut self, color: Color, from: u64, to: u64)
        requires
            old(self).zobrist.wf(),
        ensures
            (final(self).castling_rights, final(self).zobrist.hash_value()) == castle_update(
                old(self).zobrist,
                old(self).castling_rights,
                old(self).zobrist.hash_value(),
                color,
                from,
                to,
            ),
            final(self).zobrist.same_keys(old(self).zobrist),
            final(self).zobrist.wf(),
            final(self).bbs() == old(self).bbs(),
            final(self).ep() == old(self).ep(),
            final(self).eps() == old(self).eps(),
            final(self).side() == old(self).side(),
            final(self).bkm() == old(self).bkm(),
            final(self).wkm() == old(self).wkm(),
            final(self).winner_of() == old(self).winner_of(),
            final(self).full() == old(self).full(),
            final(self).half() == old(self).half(),
            final(self).saved() == old(self).saved(),
            final(self).played() == old(self).played(),
    {
        let ghost z0 = self.zobrist;
        self.update_castling_side(color, Side::KingSide, from, to);
        self.update_castling_side(color, Side::QueenSide, from, to);
    }

    fn update_castling_side(&mut self, color: Color, side: Side, from: u64, to: u64)
        requires
            old(self).zobrist.wf(),
        ensures
            (final(self).castling_rights, final(self).zobrist.hash_value()) == castle_side_update(
                old(self).zobrist,
                old(self).castling_rights,
                old(self).zobrist.hash_value(),
                color,
                side,
                from,
                to,
            ),
            final(self).zobrist.same_keys(old(self).zobrist),
            final(self).zobrist.wf(),
            final(self).bbs() == old(self).bbs(),
            final(self).ep() == old(self).ep(),
            final(self).eps() == old(self).eps(),
            final(self).side() == old(self).side(),
            final(self).bkm() == old(self).bkm(),
            final(self).wkm() == old(self).wkm(),
            final(self).winner_of() == old(self).winner_of(),
            final(self).full() == old(self).full(),
            final(self).half() == old(self).half(),
            final(self).saved() == old(self).saved(),
            final(self).played() == old(self).played(),
    {
        let (friendly_rook_pos, opponent_rook_pos) = match (color, side) {
            (Color::White, Side::KingSide) => (BBPositions::H1, BBPositions::H8),
            (Color::White, Side::QueenSide) => (BBPositions::A1, BBPositions::A8),
            (Color::Black, Side::KingSide) => (BBPositions::H8, BBPositions::H1),
            (Color::Black, Side::QueenSide) => (BBPositions::A8, BBPositions::A1),
        };
        let friendly_castling_right = get_castling_right_flag(color, side);
        if from == friendly_rook_pos && (self.castling_rights & friendly_castling_right) != 0 {
            self.castling_rights = self.castling_rights & !friendly_castling_right;
            self.update_hash_on_lose_castle(color, side);
        }
        let opponent_castling_right = get_castling_right_flag(color.opponent(), side);
        if to == opponent_rook_pos && (self.castling_rights & opponent_castling_right) != 0 {
            self.castling_rights = self.castling_rights & !opponent_castling_right;
            self.update_hash_on_lose_castle(color.opponent(), side);
        }
    }

    fn update_hash_on_lose_castle(&mut self, color: Color, side: Side)
        requires
            old(self).zobrist.wf(),
        ensures
            final(self).zobrist.hash_value() == old(self).zobrist.hash_value()
                ^ old(self).zobrist.castle_key(castle_key_index(color, side)),
            final(self).zobrist.same_keys(old(self).zobrist),
            final(self).zobrist.wf(),
            final(self).rights() == old(self).rights(),
            final(self).bbs() == old(self).bbs(),
            final(self).ep() == old(self).ep(),
            final(self).eps() == old(self).eps(),
            final(self).side() == old(self).side(),
            final(self).bkm() == old(self).bkm(),
            final(self).wkm() == old(self).wkm(),
            final(self).winner_of() == old(self).winner_of(),
            final(self).full() == old(self).full(),
            final(self).half() == old(self).half(),
            final(self).saved() == old(self).saved(),
            final(self).played() == old(self).played(),
    {
        match (color, side) {
            (Color::White, Side::KingSide) => self.zobrist.update_hash_on_white_lose_king_side_castle(),
            (Color::White, Side::QueenSide) => self.zobrist.update_hash_on_white_lose_queen_side_castle(),
            (Color::Black, Side::KingSide) => self.zobrist.update_hash_on_black_lose_king_side_castle(),
            (Color::Black, Side::QueenSide) => self.zobrist.update_hash_on_black_lose_queen_side_castle(),
        }
    }
}

/// The bitboards of the starting position.
pub open spec fn initial_bitboards() -> Seq<u64> {
    seq![
        0xFFFF000000000000u64,
        0x000000000000FFFF,
        0x2400000000000024,
        0x1000000000000010,
        0x4200000000000042,
        0x00FF00000000FF00,
        0x0800000000000008,
        0x8100000000000081,
    ]
}

/// The hash of a board computed from scratch with the keys of `z`: the side key when
/// black is to move, the key of each castling right held, the key of the file of the
/// en passant pawn, and the key of every piece on its square.
pub open spec fn position_hash(z: Zobrist, b: Board) -> u64 {
    header_hash(z, b) ^ pieces_hash(z, b.bbs(), 64)
}

/// The part of `position_hash` that does not depend on the pieces.
pub open spec fn header_hash(z: Zobrist, b: Board) -> u64 {
    let h0: u64 = if b.side() == Color::Black {
        z.side_key()
    } else {
        0
    };
    let h1 = if b.king_side_right(Color::Black) {
        h0 ^ z.castle_key(BLACK_KING_SIDE_CASTLE_INDEX as int)
    } else {
        h0
    };
    let h2 = if b.queen_side_right(Color::Black) {
        h1 ^ z.castle_key(BLACK_QUEEN_SIDE_CASTLE_INDEX as int)
    } else {
        h1
    };
    let h3 = if b.king_side_right(Color::White) {
        h2 ^ z.castle_key(WHITE_KING_SIDE_CASTLE_INDEX as int)
    } else {
        h2
    };
    let h4 = if b.queen_side_right(Color::White) {
        h3 ^ z.castle_key(WHITE_QUEEN_SIDE_CASTLE_INDEX as int)
    } else {
        h3
    };
    let h5 = if b.eps() != 0 {
        h4 ^ z.ep_key(ep_file(b.eps()))
    } else {
        h4
    };
    h5
}

/// XOR of the keys of the pieces on squares `0..n`.
pub open spec fn pieces_hash(z: Zobrist, bbs: Seq<u64>, n: nat) -> u64
    decreases n,
{
    if n == 0 {
        0
    } else {
        let sq = (n - 1) as nat;
        let bb = 1u64 << (sq as u64);
        let pt = type_at(bbs, bb);
        let rest = pieces_hash(z, bbs, sq);
        if pt != PieceType::Empty {
            rest ^ z.piece_key(color_at(bbs, bb), pt, sq as int)
        } else {
            rest
        }
    }
}

/// The key of the piece on square `sq` of `bbs`, or 0 when the square is empty.
pub open spec fn square_key(z: Zobrist, bbs: Seq<u64>, sq: int) -> u64 {
    let bb = 1u64 << (sq as u64);
    if type_at(bbs, bb) != PieceType::Empty {
        z.piece_key(color_at(bbs, bb), type_at(bbs, bb), sq)
    } else {
        0
    }
}

/// Each square holds at most one piece: at most one type slot has it, it is not in both
/// color slots, and it is in a color slot exactly when it is in a type slot.
pub open spec fn one_piece_per_square(bbs: Seq<u64>) -> bool {
    &&& bbs.len() == 8
    &&& forall|q: u64, i: int, j: int|
        #![trigger has_sq(bbs[i], q), has_sq(bbs[j], q)]
        q < 64 && 2 <= i < j < 8 ==> !(has_sq(bbs[i], q) && has_sq(bbs[j], q))
    &&& forall|q: u64| q < 64 ==> !(#[trigger] has_sq(bbs[0], q) && has_sq(bbs[1], q))
    &&& forall|q: u64|
        q < 64 ==> ((#[trigger] has_sq(bbs[0], q) || has_sq(bbs[1], q)) <==> type_at(bbs, 1u64 << q) != PieceType::Empty)
}

/// Toggling a piece on square `f` toggles `f` in its color slot and its type slot.
proof fn lemma_xor_slots(bbs: Seq<u64>, c: Color, pt: PieceType, f: u64)
    requires
        bbs.len() == 8,
        pt != PieceType::Empty,
        f < 64,
    ensures
        xor_piece(bbs, c, pt, 1u64 << f).len() == 8,
        forall|i: int, q: u64|
            0 <= i < 8 && q < 64 ==> #[trigger] has_sq(xor_piece(bbs, c, pt, 1u64 << f)[i], q) == (has_sq(bbs[i], q) != (q == f
                && (i == color_index(c) as int || i == piece_type_index(pt) as int))),
{
    crate::bit_lemmas::lemma_has_sq_ops();
}

/// Setting a piece on square `t` sets `t` in its color slot and its type slot.
proof fn lemma_or_slots(bbs: Seq<u64>, c: Color, pt: PieceType, t: u64)
    requires
        bbs.len() == 8,
        pt != PieceType::Empty,
        t < 64,
    ensures
        or_piece(bbs, c, pt, 1u64 << t).len() == 8,
        forall|i: int, q: u64|
            0 <= i < 8 && q < 64 ==> #[trigger] has_sq(or_piece(bbs, c, pt, 1u64 << t)[i], q) == (has_sq(bbs[i], q) || (q == t
                && (i == color_index(c) as int || i == piece_type_index(pt) as int))),
{
    crate::bit_lemmas::lemma_has_sq_ops();
}

/// Bitboards that agree on square `q` in every slot give `q` the same key.
proof fn lemma_same_square(z: Zobrist, a: Seq<u64>, b: Seq<u64>, q: u64)
    requires
        a.len() == 8,
        b.len() == 8,
        q < 64,
        forall|i: int| 0 <= i < 8 ==> #[trigger] has_sq(a[i], q) == has_sq(b[i], q),
    ensures
        square_key(z, a, q as int) == square_key(z, b, q as int),
{
    assert(has_sq(a[1], q) == has_sq(b[1], q));
    assert(has_sq(a[2], q) == has_sq(b[2], q));
    assert(has_sq(a[3], q) == has_sq(b[3], q));
    assert(has_sq(a[4], q) == has_sq(b[4], q));
    assert(has_sq(a[5], q) == has_sq(b[5], q));
    assert(has_sq(a[6], q) == has_sq(b[6], q));
    assert(has_sq(a[7], q) == has_sq(b[7], q));
}

/// On bitboards with one piece per square, a square holding a piece of type `pt` is in
/// that type's slot alone among the type slots, and in the slot of its color alone.
proof fn lemma_square_slots(bbs: Seq<u64>, q: u64)
    requires
        one_piece_per_square(bbs),
        q < 64,
    ensures
        forall|i: int|
            2 <= i < 8 ==> #[trigger] has_sq(bbs[i], q) == (type_at(bbs, 1u64 << q) != PieceType::Empty && i
                == piece_type_index(type_at(bbs, 1u64 << q)) as int),
        type_at(bbs, 1u64 << q) != PieceType::Empty ==> (has_sq(bbs[color_index(color_at(bbs, 1u64 << q)) as int], q)
            && !has_sq(bbs[color_index(opponent_of(color_at(bbs, 1u64 << q))) as int], q)),
        type_at(bbs, 1u64 << q) == PieceType::Empty ==> !has_sq(bbs[0], q) && !has_sq(bbs[1], q),
{
    assert(!(has_sq(bbs[0], q) && has_sq(bbs[1], q)));
    assert forall|k: int| 0 <= k < 8 implies #[trigger] has_sq(bbs[k], q) == (bbs[k] & (1u64 << q) != 0) by {
    }
    assert(has_sq(bbs[2], q) == (bbs[2] & (1u64 << q) != 0));
    assert(has_sq(bbs[3], q) == (bbs[3] & (1u64 << q) != 0));
    assert(has_sq(bbs[4], q) == (bbs[4] & (1u64 << q) != 0));
    assert(has_sq(bbs[5], q) == (bbs[5] & (1u64 << q) != 0));
    assert(has_sq(bbs[6], q) == (bbs[6] & (1u64 << q) != 0));
    assert(has_sq(bbs[7], q) == (bbs[7] & (1u64 << q) != 0));
    assert forall|i: int|
        2 <= i < 8 implies #[trigger] has_sq(bbs[i], q) == (type_at(bbs, 1u64 << q) != PieceType::Empty && i
            == piece_type_index(type_at(bbs, 1u64 << q)) as int) by {
        assert forall|j: int| 2 <= j < 8 && j != i implies !(has_sq(bbs[i], q) && #[trigger] has_sq(bbs[j], q)) by {
            if i < j {
                assert(!(has_sq(bbs[i], q) && has_sq(bbs[j], q)));
            } else {
                assert(!(has_sq(bbs[j], q) && has_sq(bbs[i], q)));
            }
        }
        if has_sq(bbs[i], q) {
            assert(type_at(bbs, 1u64 << q) != PieceType::Empty);
        }
    }
}

/// The moves whose hash update the piece part of the position hash follows: not a
/// castle, not an en passant capture and not a promotion, by a piece of `c` from one
/// square to another without a piece of `c`.
pub open spec fn plain_move(bbs: Seq<u64>, c: Color, m: Move) -> bool {
    &&& m.from_sq() != m.to_sq()
    &&& mv_moving_type(bbs, m) != PieceType::Empty
    &&& color_at(bbs, 1u64 << (m.from_sq() as u64)) == c
    &&& (type_at(bbs, 1u64 << (m.to_sq() as u64)) != PieceType::Empty ==> color_at(bbs, 1u64 << (m.to_sq() as u64)) != c)
    &&& m.flags() != EN_PASSANT
    &&& m.flags() != KING_CASTLE
    &&& m.flags() != QUEEN_CASTLE
    &&& mv_landing_type(bbs, c, m) == mv_moving_type(bbs, m)
}

/// What a plain move does to the squares, on bitboards with one piece per square: its
/// source is emptied, its destination holds the mover instead of what stood there (a
/// piece of the opponent, the one captured, or nothing), and every other square keeps
/// its piece.
proof fn lemma_plain_move_squares(z: Zobrist, bbs: Seq<u64>, eps: u64, c: Color, m: Move)
    requires
        one_piece_per_square(bbs),
        plain_move(bbs, c, m),
    ensures
        forall|q: int|
            0 <= q < 64 && q != m.from_sq() && q != m.to_sq() ==> #[trigger] square_key(z, mv_bitboards(bbs, eps, c, m), q)
                == square_key(z, bbs, q),
        square_key(z, bbs, m.from_sq()) == z.piece_key(c, mv_moving_type(bbs, m), m.from_sq()),
        square_key(z, mv_bitboards(bbs, eps, c, m), m.from_sq()) == 0,
        square_key(z, mv_bitboards(bbs, eps, c, m), m.to_sq()) == z.piece_key(c, mv_moving_type(bbs, m), m.to_sq()),
        square_key(z, bbs, m.to_sq()) == (if mv_captured(bbs, eps, c, m) != PieceType::Empty {
            z.piece_key(opponent_of(c), mv_captured(bbs, eps, c, m), m.to_sq())
        } else {
            0
        }),
{
    crate::moves::lemma_move_squares(m);
    let f = m.from_sq() as u64;
    let t = m.to_sq() as u64;
    let pt = mv_moving_type(bbs, m);
    let oc = opponent_of(c);
    crate::enums::lemma_opponent_involutive(c);
    let b2 = xor_piece(bbs, c, pt, 1u64 << f);
    assert(mv_lifted(bbs, eps, c, m) == b2);
    lemma_xor_slots(bbs, c, pt, f);
    let cap = mv_captured(bbs, eps, c, m);
    let b3 = if cap != PieceType::Empty { xor_piece(b2, oc, cap, 1u64 << t) } else { b2 };
    if cap != PieceType::Empty {
        lemma_xor_slots(b2, oc, cap, t);
    }
    let after = or_piece(b3, c, pt, 1u64 << t);
    lemma_or_slots(b3, c, pt, t);
    assert(mv_bitboards(bbs, eps, c, m) == after);
    lemma_square_slots(bbs, f);
    lemma_square_slots(bbs, t);
    assert forall|i: int| 0 <= i < 8 implies #[trigger] has_sq(b2[i], t) == has_sq(bbs[i], t) by {
    }
    lemma_same_square(z, b2, bbs, t);
    assert(cap == type_at(bbs, 1u64 << t)) by {
        assert(has_sq(b2[2], t) == has_sq(bbs[2], t));
        assert(has_sq(b2[3], t) == has_sq(bbs[3], t));
        assert(has_sq(b2[4], t) == has_sq(bbs[4], t));
        assert(has_sq(b2[5], t) == has_sq(bbs[5], t));
        assert(has_sq(b2[6], t) == has_sq(bbs[6], t));
        assert(has_sq(b2[7], t) == has_sq(bbs[7], t));
    }
    assert forall|q: int| 0 <= q < 64 && q != m.from_sq() && q != m.to_sq() implies #[trigger] square_key(z, after, q)
        == square_key(z, bbs, q) by {
        let qq = q as u64;
        assert forall|i: int| 0 <= i < 8 implies #[trigger] has_sq(after[i], qq) == has_sq(bbs[i], qq) by {
            assert(has_sq(b2[i], qq) == has_sq(bbs[i], qq));
            assert(has_sq(b3[i], qq) == has_sq(b2[i], qq));
        }
        lemma_same_square(z, after, bbs, qq);
    }
    // The source square is left empty.
    assert forall|i: int| 0 <= i < 8 implies #[trigger] has_sq(after[i], f) == false by {
        assert(has_sq(b3[i], f) == has_sq(b2[i], f));
        if i >= 2 {
            assert(has_sq(bbs[i], f) == (i == piece_type_index(pt) as int));
        }
    }
    assert(type_at(after, 1u64 << f) == PieceType::Empty) by {
        assert(!has_sq(after[2], f) && !has_sq(after[3], f) && !has_sq(after[4], f) && !has_sq(after[5], f)
            && !has_sq(after[6], f) && !has_sq(after[7], f));
    }
    // The destination holds the mover.
    assert forall|i: int| 2 <= i < 8 implies #[trigger] has_sq(after[i], t) == (i == piece_type_index(pt) as int) by {
        assert(has_sq(b2[i], t) == has_sq(bbs[i], t));
    }
    assert(has_sq(after[color_index(c) as int], t));
    assert(!has_sq(after[color_index(oc) as int], t)) by {
        assert(has_sq(b2[color_index(oc) as int], t) == has_sq(bbs[color_index(oc) as int], t));
    }
    assert(type_at(after, 1u64 << t) == pt) by {
        assert(has_sq(after[2], t) == (2 == piece_type_index(pt) as int));
        assert(has_sq(after[3], t) == (3 == piece_type_index(pt) as int));
        assert(has_sq(after[4], t) == (4 == piece_type_index(pt) as int));
        assert(has_sq(after[5], t) == (5 == piece_type_index(pt) as int));
        assert(has_sq(after[6], t) == (6 == piece_type_index(pt) as int));
        assert(has_sq(after[7], t) == (7 == piece_type_index(pt) as int));
    }
    assert(color_at(after, 1u64 << t) == c) by {
        assert(has_sq(after[1], t) == (c == Color::White));
    }
    assert(color_at(bbs, 1u64 << f) == c);
}

/// The hash a move keeps follows the pieces of the position: after a plain move (not a
/// castle, not en passant and not a promotion, by a piece of the side to move onto a
/// square without a piece of its own) on bitboards with one piece per square, the new
/// hash is the old one, with the castle keys of the rights the move gives up on rook
/// squares, changed by exactly what the piece part of the position hash
/// (`pieces_hash`) changes by from the old bitboards to the new ones, and by the side
/// key after a move of white. A captured piece thus leaves the hash with its key.
pub proof fn lemma_move_hash_follows_pieces(b0: Board, m: Move, b1: Board)
    requires
        move_made(b0, m, b1),
        one_piece_per_square(b0.bbs()),
        plain_move(b0.bbs(), b0.side(), m),
    ensures
        ({
            let z = b0.zob();
            let delta = pieces_hash(z, b0.bbs(), 64) ^ pieces_hash(z, b1.bbs(), 64);
            let h = mv_rights_hash(b0, m).1 ^ delta;
            b1.hash() == if b0.side() == Color::White {
                h ^ z.side_key()
            } else {
                h
            }
        }),
{
    let z = b0.zob();
    let bbs = b0.bbs();
    let c = b0.side();
    let after = mv_bitboards(bbs, b0.eps(), c, m);
    crate::moves::lemma_move_squares(m);
    lemma_plain_move_squares(z, bbs, b0.eps(), c, m);
    lemma_pieces_hash_two_squares(z, bbs, after, m.from_sq(), m.to_sq(), 64);
    let pt = mv_moving_type(bbs, m);
    let cap = mv_captured(bbs, b0.eps(), c, m);
    let kf = z.piece_key(c, pt, m.from_sq());
    let kt = z.piece_key(c, pt, m.to_sq());
    let kc = z.piece_key(opponent_of(c), cap, m.to_sq());
    let h0 = mv_rights_hash(b0, m).1;
    if cap != PieceType::Empty {
        crate::bit_lemmas::lemma_xor_facts(h0, kf, kc, kt);
    } else {
        crate::bit_lemmas::lemma_xor_facts(h0, kf, 0, kt);
    }
}

/// One more square adds its key to the pieces hash.
proof fn lemma_pieces_hash_step(z: Zobrist, bbs: Seq<u64>, n: nat)
    requires
        0 < n <= 64,
    ensures
        pieces_hash(z, bbs, n) == pieces_hash(z, bbs, (n - 1) as nat) ^ square_key(z, bbs, n - 1),
{
    let sq = (n - 1) as nat;
    let rest = pieces_hash(z, bbs, sq);
    crate::bit_lemmas::lemma_xor_facts(0, rest, 0, 0);
    assert((sq as int) as u64 == sq as u64);
    assert(square_key(z, bbs, sq as int) == if type_at(bbs, 1u64 << (sq as u64)) != PieceType::Empty {
        z.piece_key(color_at(bbs, 1u64 << (sq as u64)), type_at(bbs, 1u64 << (sq as u64)), sq as int)
    } else {
        0
    });
}

/// Two piece hashes of bitboards whose squares carry the same keys but on `s1` and
/// `s2` differ by the changes of the keys on those two squares.
proof fn lemma_pieces_hash_two_squares(z: Zobrist, a: Seq<u64>, b: Seq<u64>, s1: int, s2: int, n: nat)
    requires
        0 <= s1 < 64,
        0 <= s2 < 64,
        s1 != s2,
        n <= 64,
        forall|q: int| 0 <= q < 64 && q != s1 && q != s2 ==> #[trigger] square_key(z, a, q) == square_key(z, b, q),
    ensures
        pieces_hash(z, a, n) ^ pieces_hash(z, b, n) == (if s1 < n {
            square_key(z, a, s1) ^ square_key(z, b, s1)
        } else {
            0
        }) ^ (if s2 < n {
            square_key(z, a, s2) ^ square_key(z, b, s2)
        } else {
            0
        }),
    decreases n,
{
    if n == 0 {
        crate::bit_lemmas::lemma_xor_facts(0, 0, 0, 0);
    } else {
        let k = (n - 1) as nat;
        lemma_pieces_hash_two_squares(z, a, b, s1, s2, k);
        lemma_pieces_hash_step(z, a, n);
        lemma_pieces_hash_step(z, b, n);
        let pa = pieces_hash(z, a, k);
        let pb = pieces_hash(z, b, k);
        let ka = square_key(z, a, k as int);
        let kb = square_key(z, b, k as int);
        let e1 = if s1 < k { square_key(z, a, s1) ^ square_key(z, b, s1) } else { 0 };
        let e2 = if s2 < k { square_key(z, a, s2) ^ square_key(z, b, s2) } else { 0 };
        crate::bit_lemmas::lemma_xor_facts(pa, ka, pb, kb);
        crate::bit_lemmas::lemma_xor_facts(e1 ^ e2, ka, kb, 0);
        crate::bit_lemmas::lemma_xor_facts(ka, kb, 0, 0);
        crate::bit_lemmas::lemma_xor_facts(e1, e2, ka ^ kb, 0);
        crate::bit_lemmas::lemma_xor_facts(e2, ka ^ kb, 0, 0);
        crate::bit_lemmas::lemma_xor_facts(ka ^ kb, e2, 0, 0);
        crate::bit_lemmas::lemma_xor_facts(e1 ^ e2, 0, 0, 0);
        crate::bit_lemmas::lemma_xor_facts(e1, 0, 0, 0);
        if k as int == s1 {
            assert(e1 == 0);
        } else if k as int == s2 {
            assert(e2 == 0);
        } else {
            assert(ka == kb);
        }
    }
}

/// Unmaking a move gives back the position before it: the same pieces, side to move,
/// castling rights, en passant squares, king flags, clocks and hash; the winner is
/// cleared, the saved states are those before the move, and the move stays recorded.
pub proof fn lemma_unmake_undoes_move(b0: Board, m: Move, b1: Board, b2: Board)
    requires
        b0.wf(),
        move_allowed(b0, m),
        move_made(b0, m, b1),
        move_unmade(b1, b2),
    ensures
        b2.bbs() == b0.bbs(),
        b2.ep() == b0.ep(),
        b2.eps() == b0.eps(),
        b2.side() == b0.side(),
        b2.bkm() == b0.bkm(),
        b2.wkm() == b0.wkm(),
        b2.rights() == b0.rights(),
        b2.full() == b0.full(),
        b2.half() == b0.half(),
        b2.hash() == b0.hash(),
        b2.winner_of() == None::<Color>,
        b2.zob().same_keys(b0.zob()),
        b2.saved() == b0.saved(),
        b2.played() == b0.played().push(m),
{
    assert(b1.saved().len() > 0);
    assert(b1.saved()[b1.saved().len() - 1] == b0.snapshot());
    assert(b1.saved().drop_last() =~= b0.saved());
    crate::enums::lemma_opponent_involutive(b0.side());
}

/// Placing a piece on squares that hold no piece of its color or type, then
/// toggling it off, gives back the bitboards.
pub proof fn lemma_remove_undoes_place(bbs: Seq<u64>, c: Color, pt: PieceType, bb: u64)
    requires
        bbs.len() == 8,
        pt != PieceType::Empty,
        bbs[color_index(c) as int] & bb == 0,
        bbs[piece_type_index(pt) as int] & bb == 0,
    ensures
        xor_piece(or_piece(bbs, c, pt, bb), c, pt, bb) == bbs,
{
    let ci = color_index(c) as int;
    let ti = piece_type_index(pt) as int;
    lemma_or_xor(bbs[ci], bb);
    lemma_or_xor(bbs[ti], bb);
    assert(xor_piece(or_piece(bbs, c, pt, bb), c, pt, bb) =~= bbs);
}

proof fn lemma_or_xor(x: u64, y: u64)
    requires
        x & y == 0,
    ensures
        (x | y) ^ y == x,
{
    assert(x & y == 0 ==> (x | y) ^ y == x) by (bit_vector);
}

/// `b` holds the position of `b0` again: pieces, en passant squares, side, king
/// flags, rights, clocks, hash, hashing keys and saved states (the winner and the
/// list of played moves aside).
pub open spec fn restored(b: Board, b0: Board) -> bool {
    &&& b.bbs() == b0.bbs()
    &&& b.ep() == b0.ep()
    &&& b.eps() == b0.eps()
    &&& b.side() == b0.side()
    &&& b.bkm() == b0.bkm()
    &&& b.wkm() == b0.wkm()
    &&& b.rights() == b0.rights()
    &&& b.full() == b0.full()
    &&& b.half() == b0.half()
    &&& b.hash() == b0.hash()
    &&& b.zob().same_keys(b0.zob())
    &&& b.saved() == b0.saved()
}

/// Making a move, doing anything that gives the position after the move back (a
/// search below it), then unmaking the move, gives the position before the move back.
pub proof fn lemma_unmake_after_search(b0: Board, m: Move, b1: Board, b1_after: Board, b2: Board)
    requires
        b0.wf(),
        move_allowed(b0, m),
        move_made(b0, m, b1),
        restored(b1_after, b1),
        move_unmade(b1_after, b2),
    ensures
        restored(b2, b0),
        b2.winner_of() == None::<Color>,
{
    assert(b1.saved().len() > 0);
    assert(b1.saved()[b1.saved().len() - 1] == b0.snapshot());
    assert(b1.saved().drop_last() =~= b0.saved());
    crate::enums::lemma_opponent_involutive(b0.side());
}

/// Facts of "is a subset of" on castling-rights bytes.
proof fn lemma_rights_subset_facts()
    by (bit_vector)
    ensures
        forall|r: u8, m: u8| #[trigger] ((r & m) & !r) == 0u8,
        forall|r: u8| #[trigger] (r & !r) == 0u8,
        forall|a: u8, b: u8, c: u8| #![trigger (a & !b), (b & !c)] (a & !b) == 0u8 && (b & !c) == 0u8 ==> (a & !c) == 0u8,
{
}

/// A move never grants a castling right: the rights after it are among those before.
pub proof fn lemma_rights_only_lost(b0: Board, m: Move, b1: Board)
    requires
        move_made(b0, m, b1),
    ensures
        b1.rights() & !b0.rights() == 0,
{
    lemma_rights_subset_facts();
    let c = b0.side();
    let landing = mv_landing_type(b0.bbs(), c, m);
    let r0 = b0.rights();
    let r1 = mv_rights_after_king(r0, c, landing);
    assert(r1 & !r0 == 0);
    let from = 1u64 << (m.from_sq() as u64);
    let to = 1u64 << (m.to_sq() as u64);
    let (r2, h2) = castle_side_update(b0.zob(), r1, b0.hash(), c, Side::KingSide, from, to);
    assert(r2 & !r1 == 0) by {
        let fr = castling_right_flag(c, Side::KingSide);
        let or = castling_right_flag(opponent_of(c), Side::KingSide);
        let ra = if from == rook_squares(c, Side::KingSide).0 && r1 & fr != 0 { r1 & !fr } else { r1 };
        assert(ra & !r1 == 0);
        assert(r2 & !ra == 0);
    }
    let (r3, h3) = castle_side_update(b0.zob(), r2, h2, c, Side::QueenSide, from, to);
    assert(r3 & !r2 == 0) by {
        let fr = castling_right_flag(c, Side::QueenSide);
        let ra = if from == rook_squares(c, Side::QueenSide).0 && r2 & fr != 0 { r2 & !fr } else { r2 };
        assert(ra & !r2 == 0);
        assert(r3 & !ra == 0);
    }
    assert(b1.rights() == r3);
    assert(r2 & !r0 == 0);
}

} // verus!
