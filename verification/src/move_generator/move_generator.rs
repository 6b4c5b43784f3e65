use vstd::prelude::*;

use crate::bit_lemmas::{lemma_has_sq_ops, lemma_lsb_unique, single, lemma_no_square_empty, lemma_squares_empty, lemma_squares_members, lemma_squares_pop, squares_of};
use crate::bitwise_utils::{east_one, has_sq, is_lsb, pop_lsb, step_spec, to_bitboard_position, west_one, Direction};
use crate::board::{color_at, lemma_unmake_undoes_move, move_allowed, move_made, move_unmade, mv_landing_type, mv_moving_type, type_at, Board};
use crate::positions::BBPositions;
use crate::board_utils::{color_index, piece_type_index};
use crate::moves::{
    Move, BISHOP_PROMOTION, BISHOP_PROMOTION_CAPTURE, CAPTURE, DOUBLE_PAWN_PUSH, EN_PASSANT,
    KING_CASTLE, KNIGHT_PROMOTION, KNIGHT_PROMOTION_CAPTURE, NORMAL, QUEEN_CASTLE,
    QUEEN_PROMOTION, QUEEN_PROMOTION_CAPTURE, ROOK_PROMOTION, ROOK_PROMOTION_CAPTURE,
};
use crate::move_generator::tables::{
    BLACK_KING_SIDE_PATH_TO_ROOK, BLACK_PAWN_ATTACKS, BLACK_QUEEN_SIDE_PATH_TO_ROOK, KING_MOVES, KNIGHT_MOVES,
    WHITE_PAWN_ATTACKS,
    WHITE_KING_SIDE_PATH_TO_ROOK, WHITE_QUEEN_SIDE_PATH_TO_ROOK,
};
use crate::move_generator::utils::{ep_discovered_check, is_en_passant_discovered_check, is_promotion_square, look_up_pawn_attacks, rank_uncovered};
use crate::utils::{is_pawn_in_initial_position, pawn_initial_position};
use crate::enums::{opponent_of, Color, PieceType};
use crate::move_generator::attack_data::{opponent_pieces, own_king, AttackData};
use crate::move_generator::checks::{gives_check, own_pieces, opponent_of_type, taken_from_king, checker_on, king_in_check, king_in_double_check, on_check_line, pin_line, pinned, pins_square};
use crate::move_generator::magics::{
    fill_magics_lookup_table, magic_found_fits, magic_table_complete, magic_table_sound, magics_fit, MagicSearch, BISHOP_MAGICS,
    BISHOP_SHIFTS, ROOK_MAGICS, ROOK_SHIFTS,
};
use crate::move_generator::raw_move_generator::{
    bishop_moves_spec, count_bits, keys_unique, lemma_rook_bishop_apart, pattern_entry, pow2, rook_moves_spec, slider_mask, table_entry_sound, RawMoveGenerator, Slider,
};
use crate::move_generator::tables::{BISHOP_RELEVANT_SQUARES, ROOK_RELEVANT_SQUARES};


verus! {

/// The bishop moves from `square` with the occupied relevant squares as blockers.
pub open spec fn diagonal_attacks_spec(occupied: u64, square: int) -> u64 {
    bishop_moves_spec(occupied & BISHOP_RELEVANT_SQUARES@[square], 0, 1u64 << (square as u64))
}

/// The rook moves from `square` with the occupied relevant squares as blockers.
pub open spec fn orthogonal_attacks_spec(occupied: u64, square: int) -> u64 {
    rook_moves_spec(occupied & ROOK_RELEVANT_SQUARES@[square], 0, 1u64 << (square as u64))
}

/// The moves to the `targets` from `from`: a capture where an opponent piece stands,
/// a normal move elsewhere.
pub open spec fn created_moves(targets: Seq<u64>, from: usize, color: Color, piece_type: PieceType, opponent: u64) -> Seq<Move> {
    targets.map_values(
        |t: u64|
            Move::made(if has_sq(opponent, t) { CAPTURE } else { NORMAL }, from, t as usize, color, piece_type),
    )
}

/// The square two steps ahead of a pawn of `color` on `x` (as a bitboard).
pub open spec fn pawn_two_ahead(color: Color, x: int) -> u64 {
    step_spec(pawn_dir(color), step_spec(pawn_dir(color), 1u64 << (x as u64)))
}

/// The square one step ahead of a pawn is not the square two steps ahead.
pub proof fn lemma_one_not_two(color: Color, x: u64, y: u64)
    requires
        x < 64,
        y < 64,
        has_sq(step_spec(pawn_dir(color), 1u64 << x), y),
    ensures
        !has_sq(pawn_two_ahead(color, x as int), y),
{
    assert(x < 64 ==> ((1u64 << x) << 8u64) & (((1u64 << x) << 8u64) << 8u64) == 0 && ((1u64 << x) >> 8u64) & (((1u64
        << x) >> 8u64) >> 8u64) == 0) by (bit_vector);
    lemma_has_sq_ops();
    let a = step_spec(pawn_dir(color), 1u64 << x);
    let b = pawn_two_ahead(color, x as int);
    assert(has_sq(a & b, y) == (has_sq(a, y) && has_sq(b, y)));
}

/// `sq` is on the last rank of `color`, where its pawns promote.
pub open spec fn promotion_rank(color: Color, sq: int) -> bool {
    (color == Color::White && 56 <= sq <= 63) || (color == Color::Black && 0 <= sq <= 7)
}

/// The flags and en passant squares of a move of `piece_type` for `side` from `from`
/// to `to`: a pawn moves quietly, pushes two, takes, takes en passant or promotes
/// (exactly on the last rank); other pieces move quietly or take, the king also
/// castles; only a double push carries en passant squares, the square the pawn
/// passes and the square it lands on.
pub open spec fn flags_fit(side: Color, piece_type: PieceType, from: int, to: int, m: Move) -> bool {
    &&& piece_type != PieceType::Empty
    &&& (m.flags() == DOUBLE_PAWN_PUSH ==> piece_type == PieceType::Pawn && m.ep_position() == step_spec(
        pawn_dir(side),
        1u64 << (from as u64),
    ) && m.ep_piece_square() == 1u64 << (to as u64))
    &&& (m.flags() != DOUBLE_PAWN_PUSH ==> m.ep_position() == 0 && m.ep_piece_square() == 0)
    &&& (piece_type != PieceType::Pawn ==> m.flags() == NORMAL || m.flags() == CAPTURE || m.flags() == KING_CASTLE
        || m.flags() == QUEEN_CASTLE)
    &&& (m.flags() == KING_CASTLE || m.flags() == QUEEN_CASTLE ==> piece_type == PieceType::King)
    &&& (piece_type == PieceType::Pawn && m.flags() != EN_PASSANT && m.flags() != DOUBLE_PAWN_PUSH ==> (m.flags()
        >= KNIGHT_PROMOTION <==> promotion_rank(side, to)))
}

/// `m` can be made on `b` as far as its pieces go (`move_allowed` without the clock
/// limits): it starts on a piece of the side to move, and a piece lands.
pub open spec fn makeable(b: Board, m: Move) -> bool {
    &&& color_at(b.bbs(), 1u64 << (m.from_sq() as u64)) == b.side()
    &&& mv_moving_type(b.bbs(), m) != PieceType::Empty
    &&& mv_landing_type(b.bbs(), b.side(), m) != PieceType::Empty
}

/// No square holds pieces of both colors.
pub open spec fn colors_apart(b: Board) -> bool {
    b.bbs()[0] & b.bbs()[1] == 0
}

/// A square of the last row is on its rank.
pub proof fn lemma_last_rows(t: u64)
    requires
        t < 64,
    ensures
        BBPositions::ROW_8@.contains(1u64 << t) ==> 56 <= t <= 63,
        BBPositions::ROW_1@.contains(1u64 << t) ==> t <= 7,
{
    if BBPositions::ROW_8@.contains(1u64 << t) {
        let i = choose|i: int| 0 <= i < 8 && BBPositions::ROW_8@[i] == 1u64 << t;
        crate::bit_lemmas::lemma_shift_injective((56 + i) as u64, t);
    }
    if BBPositions::ROW_1@.contains(1u64 << t) {
        let i = choose|i: int| 0 <= i < 8 && BBPositions::ROW_1@[i] == 1u64 << t;
        crate::bit_lemmas::lemma_shift_injective(i as u64, t);
    }
}

/// A move the generator may hand out can be made, on a board whose colors do not
/// share a square, unless it takes en passant onto the last rank.
pub proof fn lemma_generated_makeable(b: Board, m: Move)
    requires
        generated_move_ok(b.bbs(), b.side(), m),
        colors_apart(b),
        !(m.flags() == EN_PASSANT && promotion_rank(b.side(), m.to_sq())),
    ensures
        makeable(b, m),
{
    crate::moves::lemma_move_squares(m);
    lemma_has_sq_ops();
    lemma_last_rows(m.to_sq() as u64);
    let f = m.from_sq() as u64;
    assert(has_sq(b.bbs()[0] & b.bbs()[1], f) == (has_sq(b.bbs()[0], f) && has_sq(b.bbs()[1], f)));
}

/// The moves of a list the generator may hand out can be made (see
/// `lemma_generated_makeable`).
pub proof fn lemma_list_makeable(b: Board, ms: Seq<Move>)
    requires
        all_ok(ms, b.bbs(), b.side()),
    ensures
        colors_apart(b) ==> forall|i: int|
            0 <= i < ms.len() && !(ms[i].flags() == EN_PASSANT && promotion_rank(b.side(), ms[i].to_sq())) ==> #[trigger] makeable(
                b,
                ms[i],
            ),
{
    assert forall|i: int|
        0 <= i < ms.len() && colors_apart(b) && !(ms[i].flags() == EN_PASSANT && promotion_rank(b.side(), ms[i].to_sq()))
        implies #[trigger] makeable(b, ms[i]) by {
        lemma_generated_makeable(b, ms[i]);
    }
}

/// A move the generator hands out may be made when the clocks have room (on a board
/// whose colors do not share a square, and unless it takes en passant onto the last
/// rank), and unmaking it after making it gives the position back.
pub proof fn lemma_generated_move_undone(b0: Board, ms: Seq<Move>, i: int, b1: Board, b2: Board)
    requires
        b0.wf(),
        generator_list(b0, ms),
        0 <= i < ms.len(),
        colors_apart(b0),
        !(ms[i].flags() == EN_PASSANT && promotion_rank(b0.side(), ms[i].to_sq())),
        b0.half() < u32::MAX,
        b0.side() == Color::Black ==> b0.full() < u32::MAX,
        move_made(b0, ms[i], b1),
        move_unmade(b1, b2),
    ensures
        move_allowed(b0, ms[i]),
        b2.bbs() == b0.bbs(),
        b2.ep() == b0.ep(),
        b2.eps() == b0.eps(),
        b2.side() == b0.side(),
        b2.bkm() == b0.bkm(),
        b2.wkm() == b0.wkm(),
        b2.rights() == b0.rights(),
        b2.full() == b0.full(),
        b2.half() == b0.half(),
        b2.hash() == b0.hash(),
        b2.winner_of() == None::<Color>,
{
    assert(makeable(b0, ms[i]));
    lemma_unmake_undoes_move(b0, ms[i], b1, b2);
}

/// A move the generator may hand out for `side` on the bitboards `bbs`: the mover is
/// a piece of `side` on the source square, of the move's type; a capture (with or
/// without promotion) lands on an opponent piece, a quiet move, double push or plain
/// promotion on none; castling apart, no move lands on a piece of `side`; an en
/// passant capture is a pawn's, off its starting rank, onto a square its pawn
/// attacks; the flags and en
/// passant squares fit the move (`flags_fit`); and a pawn's move two squares ahead
/// onto a square free of opponent pieces, en passant apart, is a double push.
pub open spec fn generated_move_ok(bbs: Seq<u64>, side: Color, m: Move) -> bool {
    let friendly = bbs[color_index(side) as int];
    let opp = bbs[color_index(opponent_of(side)) as int];
    &&& m.mover_color() == side
    &&& 0 <= m.from_sq() < 64
    &&& has_sq(friendly, m.from_sq() as u64)
    &&& type_at(bbs, 1u64 << (m.from_sq() as u64)) == m.mover_type()
    &&& (m.flags() == CAPTURE || m.flags() >= KNIGHT_PROMOTION_CAPTURE ==> has_sq(opp, m.to_sq() as u64))
    &&& (m.flags() == NORMAL || m.flags() == DOUBLE_PAWN_PUSH || KNIGHT_PROMOTION <= m.flags() <= QUEEN_PROMOTION ==> !has_sq(
        opp,
        m.to_sq() as u64,
    ))
    &&& (m.flags() != KING_CASTLE && m.flags() != QUEEN_CASTLE ==> !has_sq(friendly, m.to_sq() as u64))
    &&& (m.flags() == EN_PASSANT ==> m.mover_type() == PieceType::Pawn && has_sq(
        pawn_attacks_of(side, m.from_sq() as int),
        m.to_sq() as u64,
    ) && !pawn_initial_position(1u64 << (m.from_sq() as u64), side == Color::White))
    &&& flags_fit(side, m.mover_type(), m.from_sq() as int, m.to_sq() as int, m)
    &&& (m.mover_type() == PieceType::Pawn && has_sq(pawn_two_ahead(side, m.from_sq()), m.to_sq() as u64) && !has_sq(
        opp,
        m.to_sq() as u64,
    ) && m.flags() != EN_PASSANT ==> m.flags() == DOUBLE_PAWN_PUSH)
}

pub open spec fn all_ok(moves: Seq<Move>, bbs: Seq<u64>, side: Color) -> bool {
    forall|i: int| 0 <= i < moves.len() ==> generated_move_ok(bbs, side, #[trigger] moves[i])
}

/// A piece of the side to move of type `piece_type` stands on `square`.
pub open spec fn own_piece(board: Board, square: usize, piece_type: PieceType) -> bool {
    &&& square < 64
    &&& has_sq(board.bbs()[color_index(board.side()) as int], square as u64)
    &&& type_at(board.bbs(), 1u64 << (square as u64)) == piece_type
}

/// The four promotions of a pawn from `from` to `to`, knight first.
pub open spec fn promotion_moves(capture: bool, from: usize, to: usize, color: Color) -> Seq<Move> {
    if capture {
        seq![
            Move::made(KNIGHT_PROMOTION_CAPTURE, from, to, color, PieceType::Pawn),
            Move::made(BISHOP_PROMOTION_CAPTURE, from, to, color, PieceType::Pawn),
            Move::made(ROOK_PROMOTION_CAPTURE, from, to, color, PieceType::Pawn),
            Move::made(QUEEN_PROMOTION_CAPTURE, from, to, color, PieceType::Pawn),
        ]
    } else {
        seq![
            Move::made(KNIGHT_PROMOTION, from, to, color, PieceType::Pawn),
            Move::made(BISHOP_PROMOTION, from, to, color, PieceType::Pawn),
            Move::made(ROOK_PROMOTION, from, to, color, PieceType::Pawn),
            Move::made(QUEEN_PROMOTION, from, to, color, PieceType::Pawn),
        ]
    }
}

/// Moves made for the squares of a bitboard that keeps clear of the friendly pieces
/// are moves the generator may hand out.
pub proof fn lemma_created_ok(board: Board, targets: u64, from: usize, piece_type: PieceType)
    requires
        own_piece(board, from, piece_type),
        piece_type != PieceType::Pawn,
        piece_type != PieceType::Empty,
        targets & board.bbs()[color_index(board.side()) as int] == 0,
    ensures
        all_ok(
            created_moves(
                squares_of(targets),
                from,
                board.side(),
                piece_type,
                board.bbs()[color_index(opponent_of(board.side())) as int],
            ),
            board.bbs(),
            board.side(),
        ),
{
    let friendly = board.bbs()[color_index(board.side()) as int];
    let opp = board.bbs()[color_index(opponent_of(board.side())) as int];
    let ms = created_moves(squares_of(targets), from, board.side(), piece_type, opp);
    lemma_squares_members(targets, 0);
    lemma_has_sq_ops();
    assert forall|i: int| 0 <= i < ms.len() implies generated_move_ok(board.bbs(), board.side(), #[trigger] ms[i]) by {
        let t = squares_of(targets)[i];
        assert(t < 64 && has_sq(targets, t));
        assert(has_sq(targets & friendly, t) == (has_sq(targets, t) && has_sq(friendly, t)));
        let fl = if has_sq(opp, t) { CAPTURE } else { NORMAL };
        Move::lemma_made(fl, from, t as usize, board.side(), piece_type);
        assert(ms[i] == Move::made(fl, from, t as usize, board.side(), piece_type));
    }
}

/// Every move but king moves and en passant captures lands on a square of `mask`.
pub open spec fn lands_in(moves: Seq<Move>, mask: u64) -> bool {
    forall|i: int|
        0 <= i < moves.len() && (#[trigger] moves[i]).mover_type() != PieceType::King && moves[i].flags() != EN_PASSANT
            ==> has_sq(mask, moves[i].to_sq() as u64)
}

/// Moves made to the squares of `targets`, all inside `mask`, land in `mask`; they are
/// moves of `piece_type`.
pub proof fn lemma_created_lands(targets: u64, mask: u64, from: usize, color: Color, piece_type: PieceType, opponent: u64)
    requires
        forall|s: u64| s < 64 && #[trigger] has_sq(targets, s) ==> has_sq(mask, s),
    ensures
        lands_in(created_moves(squares_of(targets), from, color, piece_type, opponent), mask),
        forall|i: int|
            0 <= i < squares_of(targets).len() ==> (#[trigger] created_moves(squares_of(targets), from, color, piece_type, opponent)[i]).mover_type()
                == piece_type,
{
    let ms = created_moves(squares_of(targets), from, color, piece_type, opponent);
    lemma_squares_members(targets, 0);
    assert forall|i: int| 0 <= i < ms.len() implies #[trigger] ms[i].mover_type() == piece_type && has_sq(mask, ms[i].to_sq() as u64) by {
        let t = squares_of(targets)[i];
        assert(t < 64 && has_sq(targets, t));
        let fl = if has_sq(opponent, t) { CAPTURE } else { NORMAL };
        Move::lemma_made(fl, from, t as usize, color, piece_type);
        assert(ms[i] == Move::made(fl, from, t as usize, color, piece_type));
    }
}

/// The promotions of a pawn landing in `mask` land in it.
pub proof fn lemma_promotions_land(a: Seq<Move>, capture: bool, from: usize, to: usize, color: Color, mask: u64)
    requires
        lands_in(a, mask),
        to < 64,
        has_sq(mask, to as u64),
    ensures
        lands_in(a + promotion_moves(capture, from, to, color), mask),
{
    let ps = promotion_moves(capture, from, to, color);
    Move::lemma_made(KNIGHT_PROMOTION_CAPTURE, from, to, color, PieceType::Pawn);
    Move::lemma_made(BISHOP_PROMOTION_CAPTURE, from, to, color, PieceType::Pawn);
    Move::lemma_made(ROOK_PROMOTION_CAPTURE, from, to, color, PieceType::Pawn);
    Move::lemma_made(QUEEN_PROMOTION_CAPTURE, from, to, color, PieceType::Pawn);
    Move::lemma_made(KNIGHT_PROMOTION, from, to, color, PieceType::Pawn);
    Move::lemma_made(BISHOP_PROMOTION, from, to, color, PieceType::Pawn);
    Move::lemma_made(ROOK_PROMOTION, from, to, color, PieceType::Pawn);
    Move::lemma_made(QUEEN_PROMOTION, from, to, color, PieceType::Pawn);
    assert(lands_in(ps, mask));
    lemma_lands_append(a, ps, mask);
}

/// Every en passant capture of the list lands on a square of `ep`.
pub open spec fn ep_lands(moves: Seq<Move>, ep: u64) -> bool {
    forall|i: int| 0 <= i < moves.len() && (#[trigger] moves[i]).flags() == EN_PASSANT ==> has_sq(ep, moves[i].to_sq() as u64)
}

/// No move of the list from position `n` on is an en passant capture.
pub open spec fn no_en_passant_after(moves: Seq<Move>, n: int) -> bool {
    forall|i: int| n <= i < moves.len() ==> (#[trigger] moves[i]).flags() != EN_PASSANT
}

/// Growing a list, keeping what it held, by moves whose en passant captures land on
/// `ep` keeps its en passant captures on `ep`.
pub proof fn lemma_ep_lands_grow(a: Seq<Move>, b: Seq<Move>, ep: u64)
    requires
        ep_lands(a, ep),
        a.len() <= b.len(),
        forall|i: int| 0 <= i < a.len() ==> b[i] == a[i],
        forall|i: int| a.len() <= i < b.len() && (#[trigger] b[i]).flags() == EN_PASSANT ==> has_sq(ep, b[i].to_sq() as u64),
    ensures
        ep_lands(b, ep),
{
    assert forall|i: int| 0 <= i < b.len() && (#[trigger] b[i]).flags() == EN_PASSANT implies has_sq(ep, b[i].to_sq() as u64) by {
        if i < a.len() {
            assert(b[i] == a[i]);
        }
    }
}

/// Growing a list with no en passant capture from `n` on, by moves that hold none,
/// leaves none from `n` on.
pub proof fn lemma_no_en_passant_grow(a: Seq<Move>, b: Seq<Move>, n: int)
    requires
        no_en_passant_after(a, n),
        0 <= n <= a.len() <= b.len(),
        forall|i: int| 0 <= i < a.len() ==> b[i] == a[i],
        no_en_passant_after(b, a.len() as int),
    ensures
        no_en_passant_after(b, n),
{
    assert forall|i: int| n <= i < b.len() implies (#[trigger] b[i]).flags() != EN_PASSANT by {
        if i < a.len() {
            assert(b[i] == a[i]);
        }
    }
}

/// Promotions are no en passant captures.
pub proof fn lemma_promotions_not_en_passant(a: Seq<Move>, capture: bool, from: usize, to: usize, color: Color)
    ensures
        no_en_passant_after(a + promotion_moves(capture, from, to, color), a.len() as int),
{
    Move::lemma_made(KNIGHT_PROMOTION_CAPTURE, from, to, color, PieceType::Pawn);
    Move::lemma_made(BISHOP_PROMOTION_CAPTURE, from, to, color, PieceType::Pawn);
    Move::lemma_made(ROOK_PROMOTION_CAPTURE, from, to, color, PieceType::Pawn);
    Move::lemma_made(QUEEN_PROMOTION_CAPTURE, from, to, color, PieceType::Pawn);
    Move::lemma_made(KNIGHT_PROMOTION, from, to, color, PieceType::Pawn);
    Move::lemma_made(BISHOP_PROMOTION, from, to, color, PieceType::Pawn);
    Move::lemma_made(ROOK_PROMOTION, from, to, color, PieceType::Pawn);
    Move::lemma_made(QUEEN_PROMOTION, from, to, color, PieceType::Pawn);
    let ps = promotion_moves(capture, from, to, color);
    assert forall|i: int| a.len() <= i < (a + ps).len() implies (#[trigger] (a + ps)[i]).flags() != EN_PASSANT by {
        assert((a + ps)[i] == ps[i - a.len()]);
    }
}

/// Moves made onto the squares of `targets` are quiet moves or captures, never en
/// passant captures.
pub proof fn lemma_created_not_en_passant(a: Seq<Move>, targets: u64, from: usize, color: Color, t: PieceType, opponent: u64)
    ensures
        no_en_passant_after(a + created_moves(squares_of(targets), from, color, t, opponent), a.len() as int),
{
    let ms = created_moves(squares_of(targets), from, color, t, opponent);
    assert forall|i: int| a.len() <= i < (a + ms).len() implies (#[trigger] (a + ms)[i]).flags() != EN_PASSANT by {
        assert((a + ms)[i] == ms[i - a.len()]);
        let y = squares_of(targets)[i - a.len()];
        let fl = if has_sq(opponent, y) { CAPTURE } else { NORMAL };
        Move::lemma_made(fl, from, y as usize, color, t);
    }
}

/// The four promotion flags of a kind: plain ones (8 to 11) or captures (12 to 15).
pub open spec fn same_promotion_kind(f: u16, g: u16) -> bool {
    &&& KNIGHT_PROMOTION <= f <= QUEEN_PROMOTION_CAPTURE
    &&& KNIGHT_PROMOTION <= g <= QUEEN_PROMOTION_CAPTURE
    &&& (f >= KNIGHT_PROMOTION_CAPTURE <==> g >= KNIGHT_PROMOTION_CAPTURE)
}

/// Promotions come in whole sets: with a promotion of a pawn from `from` to `to`,
/// the list holds the promotions to all four pieces of the same kind.
pub open spec fn promotions_whole(moves: Seq<Move>) -> bool {
    forall|i: int, g: u16|
        0 <= i < moves.len() && (#[trigger] moves[i]).flags() >= KNIGHT_PROMOTION && #[trigger] same_promotion_kind(
            moves[i].flags(),
            g,
        ) ==> moves.contains(Move::made(g, moves[i].from_sq() as usize, moves[i].to_sq() as usize, moves[i].mover_color(), PieceType::Pawn))
}

/// Two lists with whole promotion sets give one.
pub proof fn lemma_whole_append(a: Seq<Move>, b: Seq<Move>)
    requires
        promotions_whole(a),
        promotions_whole(b),
    ensures
        promotions_whole(a + b),
{
    assert forall|i: int, g: u16|
        0 <= i < (a + b).len() && (#[trigger] (a + b)[i]).flags() >= KNIGHT_PROMOTION && #[trigger] same_promotion_kind(
            (a + b)[i].flags(),
            g,
        ) implies (a + b).contains(
        Move::made(g, (a + b)[i].from_sq() as usize, (a + b)[i].to_sq() as usize, (a + b)[i].mover_color(), PieceType::Pawn),
    ) by {
        let m = (a + b)[i];
        let w = Move::made(g, m.from_sq() as usize, m.to_sq() as usize, m.mover_color(), PieceType::Pawn);
        if i < a.len() {
            assert(a[i] == m);
            let j = choose|j: int| 0 <= j < a.len() && a[j] == w;
            assert((a + b)[j] == w);
        } else {
            assert(b[i - a.len()] == m);
            let j = choose|j: int| 0 <= j < b.len() && b[j] == w;
            assert((a + b)[a.len() + j] == w);
        }
    }
}

/// A list without promotions has whole promotion sets.
pub proof fn lemma_whole_none(b: Seq<Move>)
    requires
        forall|i: int| 0 <= i < b.len() ==> (#[trigger] b[i]).flags() < KNIGHT_PROMOTION,
    ensures
        promotions_whole(b),
{
}

/// Pushing a move that is no promotion keeps the promotion sets whole.
pub proof fn lemma_whole_push(a: Seq<Move>, m: Move)
    requires
        promotions_whole(a),
        m.flags() < KNIGHT_PROMOTION,
    ensures
        promotions_whole(a.push(m)),
{
    assert(a.push(m) =~= a + seq![m]);
    lemma_whole_none(seq![m]);
    lemma_whole_append(a, seq![m]);
}

/// The four promotions of a pawn make a whole set.
pub proof fn lemma_promotions_whole(capture: bool, from: usize, to: usize, color: Color)
    requires
        from < 64,
        to < 64,
    ensures
        promotions_whole(promotion_moves(capture, from, to, color)),
{
    let ps = promotion_moves(capture, from, to, color);
    Move::lemma_made(KNIGHT_PROMOTION_CAPTURE, from, to, color, PieceType::Pawn);
    Move::lemma_made(BISHOP_PROMOTION_CAPTURE, from, to, color, PieceType::Pawn);
    Move::lemma_made(ROOK_PROMOTION_CAPTURE, from, to, color, PieceType::Pawn);
    Move::lemma_made(QUEEN_PROMOTION_CAPTURE, from, to, color, PieceType::Pawn);
    Move::lemma_made(KNIGHT_PROMOTION, from, to, color, PieceType::Pawn);
    Move::lemma_made(BISHOP_PROMOTION, from, to, color, PieceType::Pawn);
    Move::lemma_made(ROOK_PROMOTION, from, to, color, PieceType::Pawn);
    Move::lemma_made(QUEEN_PROMOTION, from, to, color, PieceType::Pawn);
    assert forall|i: int, g: u16|
        0 <= i < ps.len() && (#[trigger] ps[i]).flags() >= KNIGHT_PROMOTION && #[trigger] same_promotion_kind(ps[i].flags(), g)
        implies ps.contains(Move::made(g, ps[i].from_sq() as usize, ps[i].to_sq() as usize, ps[i].mover_color(), PieceType::Pawn)) by {
        if capture {
            if g == KNIGHT_PROMOTION_CAPTURE { assert(ps[0] == Move::made(g, from, to, color, PieceType::Pawn)); }
            else if g == BISHOP_PROMOTION_CAPTURE { assert(ps[1] == Move::made(g, from, to, color, PieceType::Pawn)); }
            else if g == ROOK_PROMOTION_CAPTURE { assert(ps[2] == Move::made(g, from, to, color, PieceType::Pawn)); }
            else { assert(ps[3] == Move::made(g, from, to, color, PieceType::Pawn)); }
        } else {
            if g == KNIGHT_PROMOTION { assert(ps[0] == Move::made(g, from, to, color, PieceType::Pawn)); }
            else if g == BISHOP_PROMOTION { assert(ps[1] == Move::made(g, from, to, color, PieceType::Pawn)); }
            else if g == ROOK_PROMOTION { assert(ps[2] == Move::made(g, from, to, color, PieceType::Pawn)); }
            else { assert(ps[3] == Move::made(g, from, to, color, PieceType::Pawn)); }
        }
    }
}

/// Moves made onto the squares of `targets` are no promotions.
pub proof fn lemma_created_whole(targets: u64, from: usize, color: Color, t: PieceType, opponent: u64)
    ensures
        promotions_whole(created_moves(squares_of(targets), from, color, t, opponent)),
{
    let ms = created_moves(squares_of(targets), from, color, t, opponent);
    assert forall|i: int| 0 <= i < ms.len() implies (#[trigger] ms[i]).flags() < KNIGHT_PROMOTION by {
        let y = squares_of(targets)[i];
        let fl = if has_sq(opponent, y) { CAPTURE } else { NORMAL };
        Move::lemma_made(fl, from, y as usize, color, t);
    }
    lemma_whole_none(ms);
}

/// Growing a list, keeping what it held, by moves that are no promotions keeps the
/// promotion sets whole.
pub proof fn lemma_whole_grow(a: Seq<Move>, b: Seq<Move>)
    requires
        promotions_whole(a),
        a.len() <= b.len(),
        forall|i: int| 0 <= i < a.len() ==> b[i] == a[i],
        forall|i: int| a.len() <= i < b.len() ==> (#[trigger] b[i]).flags() < KNIGHT_PROMOTION,
    ensures
        promotions_whole(b),
{
    let c = b.subrange(a.len() as int, b.len() as int);
    assert(b =~= a + c);
    assert forall|i: int| 0 <= i < c.len() implies (#[trigger] c[i]).flags() < KNIGHT_PROMOTION by {
        assert(c[i] == b[a.len() + i]);
    }
    lemma_whole_none(c);
    lemma_whole_append(a, c);
}

/// Growing a list by king moves keeps it landing in `mask`.
pub proof fn lemma_lands_kings(a: Seq<Move>, b: Seq<Move>, mask: u64)
    requires
        lands_in(a, mask),
        b.len() >= a.len(),
        forall|i: int| 0 <= i < a.len() ==> b[i] == a[i],
        forall|i: int| a.len() <= i < b.len() ==> (#[trigger] b[i]).mover_type() == PieceType::King,
    ensures
        lands_in(b, mask),
{
    assert forall|i: int|
        0 <= i < b.len() && (#[trigger] b[i]).mover_type() != PieceType::King && b[i].flags() != EN_PASSANT implies has_sq(
        mask,
        b[i].to_sq() as u64,
    ) by {
        assert(i < a.len());
        assert(b[i] == a[i]);
    }
}

/// Landing in `mask` survives appending moves that land in it.
pub proof fn lemma_lands_append(a: Seq<Move>, b: Seq<Move>, mask: u64)
    requires
        lands_in(a, mask),
        lands_in(b, mask),
    ensures
        lands_in(a + b, mask),
{
    assert forall|i: int|
        0 <= i < (a + b).len() && (#[trigger] (a + b)[i]).mover_type() != PieceType::King && (a + b)[i].flags() != EN_PASSANT
            implies has_sq(mask, (a + b)[i].to_sq() as u64) by {
        if i < a.len() {
            assert((a + b)[i] == a[i]);
        } else {
            assert((a + b)[i] == b[i - a.len()]);
        }
    }
}

/// Pushing a move that lands in `mask`, or is a king move or an en passant capture.
pub proof fn lemma_lands_push(a: Seq<Move>, m: Move, mask: u64)
    requires
        lands_in(a, mask),
        m.mover_type() != PieceType::King && m.flags() != EN_PASSANT ==> has_sq(mask, m.to_sq() as u64),
    ensures
        lands_in(a.push(m), mask),
{
    assert forall|i: int|
        0 <= i < a.push(m).len() && (#[trigger] a.push(m)[i]).mover_type() != PieceType::King && a.push(m)[i].flags() != EN_PASSANT
            implies has_sq(mask, a.push(m)[i].to_sq() as u64) by {
        if i < a.len() {
            assert(a.push(m)[i] == a[i]);
        }
    }
}

/// Every move but king moves lands on the line its piece keeps to: a square of
/// `lines[from]`.
pub open spec fn keeps_to(moves: Seq<Move>, lines: Seq<u64>) -> bool {
    forall|i: int|
        0 <= i < moves.len() && (#[trigger] moves[i]).mover_type() != PieceType::King ==> has_sq(
            lines[moves[i].from_sq()],
            moves[i].to_sq() as u64,
        )
}

/// Moves from `from` to the squares of `targets`, all on `lines[from]`, keep to it.
pub proof fn lemma_created_keeps(targets: u64, lines: Seq<u64>, from: usize, color: Color, piece_type: PieceType, opponent: u64)
    requires
        from < 64,
        forall|s: u64| s < 64 && #[trigger] has_sq(targets, s) ==> has_sq(lines[from as int], s),
    ensures
        keeps_to(created_moves(squares_of(targets), from, color, piece_type, opponent), lines),
{
    let ms = created_moves(squares_of(targets), from, color, piece_type, opponent);
    lemma_squares_members(targets, 0);
    assert forall|i: int| 0 <= i < ms.len() implies #[trigger] has_sq(lines[ms[i].from_sq()], ms[i].to_sq() as u64) by {
        let t = squares_of(targets)[i];
        assert(t < 64 && has_sq(targets, t));
        let fl = if has_sq(opponent, t) { CAPTURE } else { NORMAL };
        Move::lemma_made(fl, from, t as usize, color, piece_type);
        assert(ms[i] == Move::made(fl, from, t as usize, color, piece_type));
    }
}

/// Keeping to the lines survives appending moves that keep to them.
pub proof fn lemma_keeps_append(a: Seq<Move>, b: Seq<Move>, lines: Seq<u64>)
    requires
        keeps_to(a, lines),
        keeps_to(b, lines),
    ensures
        keeps_to(a + b, lines),
{
    assert forall|i: int| 0 <= i < (a + b).len() && (#[trigger] (a + b)[i]).mover_type() != PieceType::King implies has_sq(
        lines[(a + b)[i].from_sq()],
        (a + b)[i].to_sq() as u64,
    ) by {
        if i < a.len() {
            assert((a + b)[i] == a[i]);
        } else {
            assert((a + b)[i] == b[i - a.len()]);
        }
    }
}

/// Pushing a move that keeps to its line, or is a king move.
pub proof fn lemma_keeps_push(a: Seq<Move>, m: Move, lines: Seq<u64>)
    requires
        keeps_to(a, lines),
        m.mover_type() != PieceType::King ==> has_sq(lines[m.from_sq()], m.to_sq() as u64),
    ensures
        keeps_to(a.push(m), lines),
{
    assert forall|i: int| 0 <= i < a.push(m).len() && (#[trigger] a.push(m)[i]).mover_type() != PieceType::King implies has_sq(
        lines[a.push(m)[i].from_sq()],
        a.push(m)[i].to_sq() as u64,
    ) by {
        if i < a.len() {
            assert(a.push(m)[i] == a[i]);
        }
    }
}

/// The promotions of a pawn landing on its line keep to it.
pub proof fn lemma_promotions_keep(a: Seq<Move>, capture: bool, from: usize, to: usize, color: Color, lines: Seq<u64>)
    requires
        keeps_to(a, lines),
        from < 64,
        to < 64,
        has_sq(lines[from as int], to as u64),
    ensures
        keeps_to(a + promotion_moves(capture, from, to, color), lines),
{
    let ps = promotion_moves(capture, from, to, color);
    Move::lemma_made(KNIGHT_PROMOTION_CAPTURE, from, to, color, PieceType::Pawn);
    Move::lemma_made(BISHOP_PROMOTION_CAPTURE, from, to, color, PieceType::Pawn);
    Move::lemma_made(ROOK_PROMOTION_CAPTURE, from, to, color, PieceType::Pawn);
    Move::lemma_made(QUEEN_PROMOTION_CAPTURE, from, to, color, PieceType::Pawn);
    Move::lemma_made(KNIGHT_PROMOTION, from, to, color, PieceType::Pawn);
    Move::lemma_made(BISHOP_PROMOTION, from, to, color, PieceType::Pawn);
    Move::lemma_made(ROOK_PROMOTION, from, to, color, PieceType::Pawn);
    Move::lemma_made(QUEEN_PROMOTION, from, to, color, PieceType::Pawn);
    assert(keeps_to(ps, lines));
    lemma_keeps_append(a, ps, lines);
}

/// Growing a list by king moves keeps it on the lines.
pub proof fn lemma_keeps_kings(a: Seq<Move>, b: Seq<Move>, lines: Seq<u64>)
    requires
        keeps_to(a, lines),
        b.len() >= a.len(),
        forall|i: int| 0 <= i < a.len() ==> b[i] == a[i],
        forall|i: int| a.len() <= i < b.len() ==> (#[trigger] b[i]).mover_type() == PieceType::King,
    ensures
        keeps_to(b, lines),
{
    assert forall|i: int| 0 <= i < b.len() && (#[trigger] b[i]).mover_type() != PieceType::King implies has_sq(
        lines[b[i].from_sq()],
        b[i].to_sq() as u64,
    ) by {
        assert(i < a.len());
        assert(b[i] == a[i]);
    }
}

/// Every king move but castling lands on a square of `allowed`.
pub open spec fn king_steps_in(moves: Seq<Move>, allowed: u64) -> bool {
    forall|i: int|
        0 <= i < moves.len() && (#[trigger] moves[i]).mover_type() == PieceType::King && moves[i].flags() != KING_CASTLE
            && moves[i].flags() != QUEEN_CASTLE ==> has_sq(allowed, moves[i].to_sq() as u64)
}

/// No move of the list is a king move.
pub open spec fn no_king_moves(moves: Seq<Move>) -> bool {
    forall|i: int| 0 <= i < moves.len() ==> (#[trigger] moves[i]).mover_type() != PieceType::King
}

/// A list without king moves, grown by king moves that land in `allowed` (castling
/// apart), has its king moves land in `allowed`.
pub proof fn lemma_king_steps(a: Seq<Move>, b: Seq<Move>, allowed: u64)
    requires
        no_king_moves(a),
        b.len() >= a.len(),
        forall|i: int| 0 <= i < a.len() ==> b[i] == a[i],
        forall|i: int|
            a.len() <= i < b.len() && (#[trigger] b[i]).flags() != KING_CASTLE && b[i].flags() != QUEEN_CASTLE ==> has_sq(
                allowed,
                b[i].to_sq() as u64,
            ),
    ensures
        king_steps_in(b, allowed),
{
    assert forall|i: int|
        0 <= i < b.len() && (#[trigger] b[i]).mover_type() == PieceType::King && b[i].flags() != KING_CASTLE
            && b[i].flags() != QUEEN_CASTLE implies has_sq(allowed, b[i].to_sq() as u64) by {
        if i < a.len() {
            assert(b[i] == a[i]);
        }
    }
}

/// Appending the moves of a piece other than the king keeps a list free of king moves.
pub proof fn lemma_no_kings_append(a: Seq<Move>, targets: Seq<u64>, from: usize, color: Color, piece_type: PieceType, opponent: u64)
    requires
        no_king_moves(a),
        piece_type != PieceType::King,
    ensures
        no_king_moves(a + created_moves(targets, from, color, piece_type, opponent)),
{
    let b = created_moves(targets, from, color, piece_type, opponent);
    assert forall|i: int| 0 <= i < (a + b).len() implies (#[trigger] (a + b)[i]).mover_type() != PieceType::King by {
        if i < a.len() {
            assert((a + b)[i] == a[i]);
        } else {
            let t = targets[i - a.len()];
            let fl = if has_sq(opponent, t) { CAPTURE } else { NORMAL };
            Move::lemma_made(fl, from, t as usize, color, piece_type);
            assert((a + b)[i] == b[i - a.len()]);
        }
    }
}

/// Pushing a move that, as a king step, lands in `allowed`.
pub proof fn lemma_king_steps_push(a: Seq<Move>, m: Move, allowed: u64)
    requires
        king_steps_in(a, allowed),
        m.mover_type() == PieceType::King && m.flags() != KING_CASTLE && m.flags() != QUEEN_CASTLE ==> has_sq(
            allowed,
            m.to_sq() as u64,
        ),
    ensures
        king_steps_in(a.push(m), allowed),
{
    assert forall|i: int|
        0 <= i < a.push(m).len() && (#[trigger] a.push(m)[i]).mover_type() == PieceType::King && a.push(m)[i].flags()
            != KING_CASTLE && a.push(m)[i].flags() != QUEEN_CASTLE implies has_sq(allowed, a.push(m)[i].to_sq() as u64) by {
        if i < a.len() {
            assert(a.push(m)[i] == a[i]);
        }
    }
}

/// The squares between the king and the queen-side rook of `color`.
pub open spec fn queen_side_path(color: Color) -> u64 {
    if color == Color::Black {
        BLACK_QUEEN_SIDE_PATH_TO_ROOK
    } else {
        WHITE_QUEEN_SIDE_PATH_TO_ROOK
    }
}

/// The squares between the king and the king-side rook of `color`.
pub open spec fn king_side_path(color: Color) -> u64 {
    if color == Color::Black {
        BLACK_KING_SIDE_PATH_TO_ROOK
    } else {
        WHITE_KING_SIDE_PATH_TO_ROOK
    }
}

/// The castling king moves of the list are made out of check, with the right held, the
/// squares between king and rook empty, and the king two files along, passing and
/// landing on squares of `allowed`.
pub open spec fn castles_ok(moves: Seq<Move>, board: Board, in_check: bool, occupied: u64, allowed: u64) -> bool {
    forall|i: int|
        0 <= i < moves.len() ==> {
            let m = #[trigger] moves[i];
            &&& m.mover_type() == PieceType::King && m.flags() == QUEEN_CASTLE ==> {
                &&& !in_check
                &&& board.queen_side_right(board.side())
                &&& occupied & queen_side_path(board.side()) == 0
                &&& m.to_sq() + 2 == m.from_sq()
                &&& has_sq(allowed, (m.from_sq() - 1) as u64)
                &&& has_sq(allowed, m.to_sq() as u64)
            }
            &&& m.mover_type() == PieceType::King && m.flags() == KING_CASTLE ==> {
                &&& !in_check
                &&& board.king_side_right(board.side())
                &&& occupied & king_side_path(board.side()) == 0
                &&& m.to_sq() == m.from_sq() + 2
                &&& has_sq(allowed, (m.from_sq() + 1) as u64)
                &&& has_sq(allowed, m.to_sq() as u64)
            }
        }
}

/// Pushing a move that is no castling move, or a castling move as `castles_ok` asks.
pub proof fn lemma_castles_push(a: Seq<Move>, m: Move, board: Board, in_check: bool, occupied: u64, allowed: u64)
    requires
        castles_ok(a, board, in_check, occupied, allowed),
        castles_ok(seq![m], board, in_check, occupied, allowed),
    ensures
        castles_ok(a.push(m), board, in_check, occupied, allowed),
{
    assert forall|i: int| 0 <= i < a.push(m).len() implies {
        let mm = #[trigger] a.push(m)[i];
        &&& mm.mover_type() == PieceType::King && mm.flags() == QUEEN_CASTLE ==> {
            &&& !in_check
            &&& board.queen_side_right(board.side())
            &&& occupied & queen_side_path(board.side()) == 0
            &&& mm.to_sq() + 2 == mm.from_sq()
            &&& has_sq(allowed, (mm.from_sq() - 1) as u64)
            &&& has_sq(allowed, mm.to_sq() as u64)
        }
        &&& mm.mover_type() == PieceType::King && mm.flags() == KING_CASTLE ==> {
            &&& !in_check
            &&& board.king_side_right(board.side())
            &&& occupied & king_side_path(board.side()) == 0
            &&& mm.to_sq() == mm.from_sq() + 2
            &&& has_sq(allowed, (mm.from_sq() + 1) as u64)
            &&& has_sq(allowed, mm.to_sq() as u64)
        }
    } by {
        if i < a.len() {
            assert(a.push(m)[i] == a[i]);
        } else {
            assert(a.push(m)[i] == seq![m][0]);
        }
    }
}

/// The king of the side to move (on `king_square`) may stand on `y`: no opponent
/// piece takes the square from it and it is not next to the opponent king.
pub open spec fn safe_for_king(board: Board, king_square: int, king_bb: u64, y: u64) -> bool {
    &&& !taken_from_king(board, king_square, king_bb, y)
    &&& forall|k2: u64|
        is_lsb(opponent_of_type(board, PieceType::King), k2) ==> !#[trigger] has_sq(KING_MOVES@[k2 as int], y)
}

/// The list holds a move of a piece of type `t` from `x` to `y`.
pub open spec fn has_move(moves: Seq<Move>, x: u64, y: u64, t: PieceType) -> bool {
    exists|i: int|
        0 <= i < moves.len() && (#[trigger] moves[i]).from_sq() == x && moves[i].to_sq() == y && moves[i].mover_type() == t
}

/// Knights, rooks, bishops and queens: the pieces whose moves are the squares they reach.
pub open spec fn is_reaching_piece(t: PieceType) -> bool {
    t == PieceType::Knight || t == PieceType::Rook || t == PieceType::Bishop || t == PieceType::Queen
}

/// A piece of type `t` on `x` reaches `y` among the pieces `occupied`: a knight's
/// jump, or a rook's, bishop's or queen's moves with those pieces as blockers.
pub open spec fn reaches_on(occupied: u64, t: PieceType, x: u64, y: u64) -> bool {
    match t {
        PieceType::Knight => has_sq(KNIGHT_MOVES@[x as int], y),
        PieceType::Rook => has_sq(orthogonal_attacks_spec(occupied, x as int), y),
        PieceType::Bishop => has_sq(diagonal_attacks_spec(occupied, x as int), y),
        PieceType::Queen => has_sq(orthogonal_attacks_spec(occupied, x as int), y) || has_sq(
            diagonal_attacks_spec(occupied, x as int),
            y,
        ),
        _ => false,
    }
}

/// A piece of type `t` on `x` reaches `y` on `board` (see `reaches_on`).
pub open spec fn reaches(board: Board, t: PieceType, x: u64, y: u64) -> bool {
    reaches_on(own_pieces(board) | opponent_pieces(board), t, x, y)
}

/// A move of the piece on `x` to `y` obeys the rules the position sets (the king on
/// `king_square`): `y` holds no piece of the side to move; it lies on the line of
/// every slider pinning the piece; and in check, which is no double check, it holds
/// a checking piece or lies on the line from a checking slider to the king.
pub open spec fn target_allowed(board: Board, king_square: int, king_bb: u64, x: u64, y: u64) -> bool {
    &&& !has_sq(own_pieces(board), y)
    &&& forall|t: PieceType, s: u64|
        #[trigger] pins_square(board, king_square, king_bb, t, s, x) ==> has_sq(pin_line(s, king_square, king_bb), y)
    &&& king_in_check(board, king_square, king_bb) ==> !king_in_double_check(board, king_square, king_bb) && (checker_on(
        board,
        king_square,
        king_bb,
        y,
    ) || on_check_line(board, king_square, king_bb, y))
}

/// The moves owed so far: a piece of type `t` of the side to move on `x`, a square of
/// `all` no longer in `left`, and a target `y`: for a knight, bishop, rook or queen a
/// square it reaches, free of its own pieces, on `lines[x]` and in `mask`; for a pawn
/// a `pawn_target`.
pub open spec fn owed(board: Board, all: u64, left: u64, lines: Seq<u64>, mask: u64, defenders: u64, x: u64, y: u64, t: PieceType) -> bool {
    &&& x < 64
    &&& y < 64
    &&& has_sq(all, x)
    &&& !has_sq(left, x)
    &&& own_piece(board, x as usize, t)
    &&& if t == PieceType::Pawn {
        pawn_target(
            board.side(),
            x,
            own_pieces(board),
            opponent_pieces(board),
            own_pieces(board) | opponent_pieces(board),
            lines[x as int],
            mask,
            defenders,
            y,
        )
    } else {
        &&& is_reaching_piece(t)
        &&& reaches(board, t, x, y)
        &&& !has_sq(own_pieces(board), y)
        &&& has_sq(lines[x as int], y)
        &&& has_sq(mask, y)
    }
}

/// The en passant captures owed so far: a pawn of the side to move on `x`, a square of
/// `all` no longer in `left`, taking on `y` as `ep_target` allows with the pin lines,
/// the check mask and the rank test of the attack data `ad`.
pub open spec fn ep_owed(board: Board, ad: AttackData, all: u64, left: u64, x: u64, y: u64) -> bool {
    &&& x < 64
    &&& y < 64
    &&& has_sq(all, x)
    &&& !has_sq(left, x)
    &&& own_piece(board, x as usize, PieceType::Pawn)
    &&& ep_target(
        board.side(),
        x,
        own_pieces(board),
        board.ep(),
        ad.friendly_pins_moves_bbs@[x as int],
        ad.defenders_bb | ad.attack_bb,
        ep_discovered_check(board.side(), ad, x as usize, board.bbs(), board.eps()),
        y,
    )
}

/// Looking at the piece on `square`: the en passant captures owed stay in the grown
/// list, and those owed for `square` are the ones the list now holds.
pub proof fn lemma_ep_owed_step(board: Board, ad: AttackData, all: u64, left: u64, before: Seq<Move>, after: Seq<Move>, square: usize)
    requires
        forall|x: u64, y: u64| #[trigger] ep_owed(board, ad, all, left, x, y) ==> has_move(before, x, y, PieceType::Pawn),
        after.len() >= before.len(),
        forall|i: int| 0 <= i < before.len() ==> after[i] == before[i],
        square < 64,
        forall|y: u64|
            #[trigger] ep_owed(board, ad, all, left & !(1u64 << (square as u64)), square as u64, y) ==> has_move(
                after,
                square as u64,
                y,
                PieceType::Pawn,
            ),
    ensures
        forall|x: u64, y: u64|
            #[trigger] ep_owed(board, ad, all, left & !(1u64 << (square as u64)), x, y) ==> has_move(after, x, y, PieceType::Pawn),
{
    lemma_has_sq_ops();
    assert forall|x: u64, y: u64| #[trigger] ep_owed(board, ad, all, left & !(1u64 << (square as u64)), x, y) implies has_move(
        after,
        x,
        y,
        PieceType::Pawn,
    ) by {
        if x != square as u64 {
            assert(ep_owed(board, ad, all, left, x, y));
            lemma_has_move_kept(before, after, x, y, PieceType::Pawn);
        }
    }
}

/// With the attack data `ad` of `board` exact, every en passant capture owed at the
/// end of the walk over the pieces is in `moves` for each square `k` of the own king,
/// as the rules of the board allow it.
pub proof fn lemma_ep_complete(board: Board, ad: AttackData, all: u64, moves_pre: Seq<Move>, moves: Seq<Move>)
    requires
        ad.settled(board),
        ad.in_check == king_in_check(board, ad.king_square as int, ad.king_bb_position),
        ad.in_double_check == king_in_double_check(board, ad.king_square as int, ad.king_bb_position),
        ad.in_check ==> forall|s: u64|
            s < 64 ==> #[trigger] has_sq(ad.attack_bb, s) == checker_on(board, ad.king_square as int, ad.king_bb_position, s),
        forall|x: u64|
            x < 64 && !#[trigger] pinned(board, ad.king_square as int, ad.king_bb_position, x) ==> ad.friendly_pins_moves_bbs@[x as int]
                == u64::MAX,
        forall|x: u64|
            x < 64 && #[trigger] pinned(board, ad.king_square as int, ad.king_bb_position, x) ==> exists|t: PieceType, s: u64|
                #[trigger] pins_square(board, ad.king_square as int, ad.king_bb_position, t, s, x) && ad.friendly_pins_moves_bbs@[x as int]
                    == pin_line(s, ad.king_square as int, ad.king_bb_position),
        ad.in_check && !ad.in_double_check ==> forall|x: u64|
            x < 64 ==> #[trigger] has_sq(ad.defenders_bb, x) == on_check_line(board, ad.king_square as int, ad.king_bb_position, x),
        all == own_pieces(board),
        forall|x: u64, y: u64| #[trigger] ep_owed(board, ad, all, 0, x, y) ==> has_move(moves_pre, x, y, PieceType::Pawn),
        !ad.in_double_check ==> moves == moves_pre,
    ensures
        forall|k: u64|
            #![trigger is_lsb(own_king(board), k)]
            is_lsb(own_king(board), k) ==> forall|x: u64, y: u64|
                x < 64 && y < 64 && own_piece(board, x as usize, PieceType::Pawn) && !pawn_initial_position(
                    1u64 << x,
                    board.side() == Color::White,
                ) && has_sq(board.ep(), y) && has_sq(pawn_attacks_of(board.side(), x as int), y) && target_allowed(
                    board,
                    k as int,
                    own_king(board),
                    x,
                    y,
                ) && !rank_uncovered(board.side(), own_king(board), k as int, x as int, board.bbs(), board.eps())
                    ==> #[trigger] has_move(moves, x, y, PieceType::Pawn),
{
    let ks = ad.king_square;
    let lines = ad.friendly_pins_moves_bbs@;
    let mask = ad.defenders_bb | ad.attack_bb;
    lemma_has_sq_ops();
    assert forall|k: u64|
        #![trigger is_lsb(own_king(board), k)]
        is_lsb(own_king(board), k) implies forall|x: u64, y: u64|
            x < 64 && y < 64 && own_piece(board, x as usize, PieceType::Pawn) && !pawn_initial_position(
                1u64 << x,
                board.side() == Color::White,
            ) && has_sq(board.ep(), y) && has_sq(pawn_attacks_of(board.side(), x as int), y) && target_allowed(
                board,
                k as int,
                own_king(board),
                x,
                y,
            ) && !rank_uncovered(board.side(), own_king(board), k as int, x as int, board.bbs(), board.eps())
                ==> #[trigger] has_move(moves, x, y, PieceType::Pawn) by {
        crate::bit_lemmas::lemma_bit_identities();
        lemma_lsb_unique(own_king(board), k, ks as u64);
        assert forall|x: u64, y: u64|
            x < 64 && y < 64 && own_piece(board, x as usize, PieceType::Pawn) && !pawn_initial_position(
                1u64 << x,
                board.side() == Color::White,
            ) && has_sq(board.ep(), y) && has_sq(pawn_attacks_of(board.side(), x as int), y) && target_allowed(
                board,
                k as int,
                own_king(board),
                x,
                y,
            ) && !rank_uncovered(board.side(), own_king(board), k as int, x as int, board.bbs(), board.eps())
            implies #[trigger] has_move(moves, x, y, PieceType::Pawn) by {
            assert(!ad.in_double_check);
            if pinned(board, k as int, own_king(board), x) {
                let (t2, s2) = choose|t2: PieceType, s2: u64|
                    #[trigger] pins_square(board, k as int, own_king(board), t2, s2, x) && lines[x as int] == pin_line(
                        s2,
                        k as int,
                        own_king(board),
                    );
                assert(pins_square(board, k as int, own_king(board), t2, s2, x));
            }
            assert(has_sq(lines[x as int], y));
            if checker_on(board, k as int, own_king(board), y) {
                let t3 = choose|t3: PieceType| #[trigger] gives_check(board, k as int, own_king(board), t3, y);
                assert(has_sq(opponent_of_type(board, t3), y));
                assert(has_sq(opponent_pieces(board), y));
            }
            assert(has_sq(mask, y));
            assert(!ep_discovered_check(board.side(), ad, x as usize, board.bbs(), board.eps()));
            assert(ep_owed(board, ad, all, 0, x, y));
        }
    }
}

/// A list that keeps the moves of `a` in place keeps their moves.
pub proof fn lemma_has_move_kept(a: Seq<Move>, b: Seq<Move>, x: u64, y: u64, t: PieceType)
    requires
        has_move(a, x, y, t),
        b.len() >= a.len(),
        forall|i: int| 0 <= i < a.len() ==> b[i] == a[i],
    ensures
        has_move(b, x, y, t),
{
    let i = choose|i: int|
        0 <= i < a.len() && (#[trigger] a[i]).from_sq() == x && a[i].to_sq() == y && a[i].mover_type() == t;
    assert(b[i] == a[i]);
}

/// Appending the moves made to the squares of `targets` gives a move to each of them.
pub proof fn lemma_created_has(a: Seq<Move>, targets: u64, from: usize, y: u64, color: Color, piece_type: PieceType, opponent: u64)
    requires
        from < 64,
        y < 64,
        has_sq(targets, y),
    ensures
        has_move(a + created_moves(squares_of(targets), from, color, piece_type, opponent), from as u64, y, piece_type),
{
    lemma_squares_members(targets, 0);
    let sq = squares_of(targets);
    assert(sq.contains(y));
    let j = choose|j: int| 0 <= j < sq.len() && sq[j] == y;
    let b = created_moves(sq, from, color, piece_type, opponent);
    let fl = if has_sq(opponent, y) { CAPTURE } else { NORMAL };
    Move::lemma_made(fl, from, y as usize, color, piece_type);
    assert(b[j] == Move::made(fl, from, y as usize, color, piece_type));
    assert((a + b)[a.len() + j] == b[j]);
}

/// Looking at the piece on `square`: what was owed stays in the grown list, and the
/// moves owed for `square` are those the list now holds.
pub proof fn lemma_owed_step(
    board: Board,
    all: u64,
    left: u64,
    lines: Seq<u64>,
    mask: u64,
    defenders: u64,
    before: Seq<Move>,
    after: Seq<Move>,
    square: usize,
    piece_type: PieceType,
)
    requires
        forall|x: u64, y: u64, t: PieceType| #[trigger] owed(board, all, left, lines, mask, defenders, x, y, t) ==> has_move(before, x, y, t),
        after.len() >= before.len(),
        forall|i: int| 0 <= i < before.len() ==> after[i] == before[i],
        square < 64,
        own_piece(board, square, piece_type),
        forall|y: u64|
            #[trigger] owed(board, all, left & !(1u64 << (square as u64)), lines, mask, defenders, square as u64, y, piece_type) ==> has_move(
                after,
                square as u64,
                y,
                piece_type,
            ),
    ensures
        forall|x: u64, y: u64, t: PieceType|
            #[trigger] owed(board, all, left & !(1u64 << (square as u64)), lines, mask, defenders, x, y, t) ==> has_move(after, x, y, t),
{
    lemma_has_sq_ops();
    assert forall|x: u64, y: u64, t: PieceType|
        #[trigger] owed(board, all, left & !(1u64 << (square as u64)), lines, mask, defenders, x, y, t) implies has_move(after, x, y, t) by {
        if x == square as u64 {
            assert(t == piece_type);
        } else {
            assert(owed(board, all, left, lines, mask, defenders, x, y, t));
            lemma_has_move_kept(before, after, x, y, t);
        }
    }
}

/// The squares a pawn of `color` on `x` attacks.
pub open spec fn pawn_attacks_of(color: Color, x: int) -> u64 {
    if color == Color::White {
        WHITE_PAWN_ATTACKS@[x]
    } else {
        BLACK_PAWN_ATTACKS@[x]
    }
}

/// The direction pawns of `color` move in.
pub open spec fn pawn_dir(color: Color) -> Direction {
    if color == Color::White {
        Direction::North
    } else {
        Direction::South
    }
}

/// A target the generator owes the pawn of `color` on `x`, for the pieces of its side
/// (`friendly`), of the opponent (`opponent`) and all (`occupied`), its allowed line
/// `line`, the squares `mask` a move must land on and the blocking squares
/// `defenders`: a capture of an opponent piece on a square it attacks, the step onto
/// the empty square ahead, or from its starting rank the double step over it onto
/// an empty square.
pub open spec fn pawn_target(
    color: Color,
    x: u64,
    friendly: u64,
    opponent: u64,
    occupied: u64,
    line: u64,
    mask: u64,
    defenders: u64,
    y: u64,
) -> bool {
    let dir = pawn_dir(color);
    let one = step_spec(dir, 1u64 << x) & !occupied;
    let two = step_spec(dir, one) & !occupied;
    ||| has_sq(pawn_attacks_of(color, x as int), y) && !has_sq(friendly, y) && has_sq(line, y) && has_sq(mask, y) && has_sq(
        opponent,
        y,
    )
    ||| has_sq((one & line) & defenders, y)
    ||| pawn_initial_position(1u64 << x, color == Color::White) && has_sq((two & line) & defenders, y)
}

/// An en passant capture of a pawn of `color` on `x` (off its starting rank) onto the
/// en passant square `y` of `ep` that it attacks, free of its own pieces (`friendly`),
/// on its pin line `line` and in `mask`, unless taking would uncover a check.
pub open spec fn ep_target(color: Color, x: u64, friendly: u64, ep: u64, line: u64, mask: u64, uncovered: bool, y: u64) -> bool {
    &&& !pawn_initial_position(1u64 << x, color == Color::White)
    &&& has_sq(pawn_attacks_of(color, x as int), y)
    &&& !has_sq(friendly, y)
    &&& has_sq(ep, y)
    &&& has_sq(line, y)
    &&& has_sq(mask, y)
    &&& !uncovered
}

/// A pawn of `color` on `x` goes to `y` by the pawn rules, among the opponent's
/// pieces `opponent` and all pieces `occupied`: it takes an opponent piece on a
/// square it attacks, steps onto the empty square ahead, or from its starting rank
/// steps over that empty square onto the empty one beyond.
pub open spec fn pawn_rule(color: Color, opponent: u64, occupied: u64, x: u64, y: u64) -> bool {
    let dir = pawn_dir(color);
    let one = step_spec(dir, 1u64 << x) & !occupied;
    let two = step_spec(dir, one) & !occupied;
    ||| has_sq(pawn_attacks_of(color, x as int), y) && has_sq(opponent, y)
    ||| has_sq(one, y)
    ||| pawn_initial_position(1u64 << x, color == Color::White) && has_sq(two, y)
}

/// A pawn of the side to move on `x` goes to `y` by the pawn rules on `board`.
pub open spec fn pawn_reaches(board: Board, x: u64, y: u64) -> bool {
    pawn_rule(board.side(), opponent_pieces(board), own_pieces(board) | opponent_pieces(board), x, y)
}

/// Every move of the list follows the moves of its piece: a knight, bishop, rook or
/// queen goes to a square it reaches, a pawn (en passant apart) by a pawn rule, a
/// king (castling apart) to a square next to it.
pub open spec fn follows_rules(moves: Seq<Move>, color: Color, opponent: u64, occupied: u64) -> bool {
    forall|i: int|
        0 <= i < moves.len() ==> {
            let m = #[trigger] moves[i];
            &&& is_reaching_piece(m.mover_type()) ==> reaches_on(occupied, m.mover_type(), m.from_sq() as u64, m.to_sq() as u64)
            &&& m.mover_type() == PieceType::Pawn && m.flags() != EN_PASSANT ==> pawn_rule(
                color,
                opponent,
                occupied,
                m.from_sq() as u64,
                m.to_sq() as u64,
            )
            &&& m.mover_type() == PieceType::King && m.flags() != KING_CASTLE && m.flags() != QUEEN_CASTLE ==> has_sq(
                KING_MOVES@[m.from_sq()],
                m.to_sq() as u64,
            )
        }
}

/// Following the rules survives appending moves that follow them.
pub proof fn lemma_follows_append(a: Seq<Move>, b: Seq<Move>, color: Color, opponent: u64, occupied: u64)
    requires
        follows_rules(a, color, opponent, occupied),
        follows_rules(b, color, opponent, occupied),
    ensures
        follows_rules(a + b, color, opponent, occupied),
{
    assert forall|i: int| 0 <= i < (a + b).len() implies {
        let m = #[trigger] (a + b)[i];
        &&& is_reaching_piece(m.mover_type()) ==> reaches_on(occupied, m.mover_type(), m.from_sq() as u64, m.to_sq() as u64)
        &&& m.mover_type() == PieceType::Pawn && m.flags() != EN_PASSANT ==> pawn_rule(
            color,
            opponent,
            occupied,
            m.from_sq() as u64,
            m.to_sq() as u64,
        )
        &&& m.mover_type() == PieceType::King && m.flags() != KING_CASTLE && m.flags() != QUEEN_CASTLE ==> has_sq(
            KING_MOVES@[m.from_sq()],
            m.to_sq() as u64,
        )
    } by {
        if i < a.len() {
            assert((a + b)[i] == a[i]);
        } else {
            assert((a + b)[i] == b[i - a.len()]);
        }
    }
}

/// Pushing a move that follows the rules.
pub proof fn lemma_follows_push(a: Seq<Move>, m: Move, color: Color, opponent: u64, occupied: u64)
    requires
        follows_rules(a, color, opponent, occupied),
        follows_rules(seq![m], color, opponent, occupied),
    ensures
        follows_rules(a.push(m), color, opponent, occupied),
{
    assert(a.push(m) =~= a + seq![m]);
    lemma_follows_append(a, seq![m], color, opponent, occupied);
}

/// Moves made from `from` to squares of `targets` that a piece of type `t` (not a
/// pawn) goes to follow the rules.
pub proof fn lemma_created_follows(targets: u64, from: usize, color: Color, t: PieceType, opponent: u64, occupied: u64)
    requires
        from < 64,
        t != PieceType::Pawn,
        forall|y: u64|
            y < 64 && #[trigger] has_sq(targets, y) ==> (is_reaching_piece(t) ==> reaches_on(occupied, t, from as u64, y)) && (t
                == PieceType::King ==> has_sq(KING_MOVES@[from as int], y)),
    ensures
        follows_rules(created_moves(squares_of(targets), from, color, t, opponent), color, opponent, occupied),
{
    let ms = created_moves(squares_of(targets), from, color, t, opponent);
    lemma_squares_members(targets, 0);
    assert forall|i: int| 0 <= i < ms.len() implies {
        let m = #[trigger] ms[i];
        &&& is_reaching_piece(m.mover_type()) ==> reaches_on(occupied, m.mover_type(), m.from_sq() as u64, m.to_sq() as u64)
        &&& m.mover_type() == PieceType::Pawn && m.flags() != EN_PASSANT ==> pawn_rule(
            color,
            opponent,
            occupied,
            m.from_sq() as u64,
            m.to_sq() as u64,
        )
        &&& m.mover_type() == PieceType::King && m.flags() != KING_CASTLE && m.flags() != QUEEN_CASTLE ==> has_sq(
            KING_MOVES@[m.from_sq()],
            m.to_sq() as u64,
        )
    } by {
        let y = squares_of(targets)[i];
        assert(y < 64 && has_sq(targets, y));
        let fl = if has_sq(opponent, y) { CAPTURE } else { NORMAL };
        Move::lemma_made(fl, from, y as usize, color, t);
        assert(ms[i] == Move::made(fl, from, y as usize, color, t));
    }
}

/// The promotions of a pawn that goes from `from` to `to` by a pawn rule follow the
/// rules.
pub proof fn lemma_promotions_follow(a: Seq<Move>, capture: bool, from: usize, to: usize, color: Color, opponent: u64, occupied: u64)
    requires
        follows_rules(a, color, opponent, occupied),
        from < 64,
        to < 64,
        pawn_rule(color, opponent, occupied, from as u64, to as u64),
    ensures
        follows_rules(a + promotion_moves(capture, from, to, color), color, opponent, occupied),
{
    let ps = promotion_moves(capture, from, to, color);
    Move::lemma_made(KNIGHT_PROMOTION_CAPTURE, from, to, color, PieceType::Pawn);
    Move::lemma_made(BISHOP_PROMOTION_CAPTURE, from, to, color, PieceType::Pawn);
    Move::lemma_made(ROOK_PROMOTION_CAPTURE, from, to, color, PieceType::Pawn);
    Move::lemma_made(QUEEN_PROMOTION_CAPTURE, from, to, color, PieceType::Pawn);
    Move::lemma_made(KNIGHT_PROMOTION, from, to, color, PieceType::Pawn);
    Move::lemma_made(BISHOP_PROMOTION, from, to, color, PieceType::Pawn);
    Move::lemma_made(ROOK_PROMOTION, from, to, color, PieceType::Pawn);
    Move::lemma_made(QUEEN_PROMOTION, from, to, color, PieceType::Pawn);
    assert(follows_rules(ps, color, opponent, occupied));
    lemma_follows_append(a, ps, color, opponent, occupied);
}

/// A promotion of a pawn from `from` to `to` is a move of the pawn between them.
pub proof fn lemma_promotion_has(a: Seq<Move>, capture: bool, from: usize, to: usize, color: Color)
    requires
        from < 64,
        to < 64,
    ensures
        has_move(a + promotion_moves(capture, from, to, color), from as u64, to as u64, PieceType::Pawn),
{
    let ps = promotion_moves(capture, from, to, color);
    Move::lemma_made(KNIGHT_PROMOTION_CAPTURE, from, to, color, PieceType::Pawn);
    Move::lemma_made(KNIGHT_PROMOTION, from, to, color, PieceType::Pawn);
    assert((a + ps)[a.len() as int] == ps[0]);
}

/// No move of `s` at an index from `lo` up to `hi` repeats another there.
#[verifier::opaque]
pub open spec fn distinct_between(s: Seq<Move>, lo: int, hi: int) -> bool {
    forall|i: int, j: int| lo <= i < j < hi ==> #[trigger] s[i] != #[trigger] s[j]
}

/// A run of at most one move repeats none.
pub proof fn lemma_distinct_short(s: Seq<Move>, lo: int, hi: int)
    requires
        hi <= lo + 1,
    ensures
        distinct_between(s, lo, hi),
{
    reveal(distinct_between);
}

/// Two runs of distinct moves, none of the first equal to one of the second, make one.
pub proof fn lemma_distinct_join(s: Seq<Move>, lo: int, mid: int, hi: int)
    requires
        0 <= lo <= mid <= hi <= s.len(),
        distinct_between(s, lo, mid),
        distinct_between(s, mid, hi),
        forall|i: int, j: int| #![trigger s[i], s[j]] lo <= i < mid && mid <= j < hi ==> s[i] != s[j],
    ensures
        distinct_between(s, lo, hi),
{
    reveal(distinct_between);
    assert forall|i: int, j: int| lo <= i < j < hi implies #[trigger] s[i] != #[trigger] s[j] by {
        if i < mid && mid <= j {
        }
    }
}

/// A run of distinct moves stays so when the list grows behind it.
pub proof fn lemma_distinct_kept(a: Seq<Move>, b: Seq<Move>, lo: int, hi: int)
    requires
        0 <= lo <= hi <= a.len() <= b.len(),
        forall|i: int| 0 <= i < a.len() ==> b[i] == a[i],
        distinct_between(a, lo, hi),
    ensures
        distinct_between(b, lo, hi),
{
    reveal(distinct_between);
    assert forall|i: int, j: int| lo <= i < j < hi implies #[trigger] b[i] != #[trigger] b[j] by {
        assert(b[i] == a[i]);
        assert(b[j] == a[j]);
    }
}

/// The moves created for `targets` from `from` are distinct quiet moves or captures
/// from `from` onto the squares of `targets`.
pub proof fn lemma_created_distinct(before: Seq<Move>, targets: u64, from: usize, color: Color, piece_type: PieceType, opponent: u64)
    requires
        from < 64,
    ensures
        distinct_between(
            before + created_moves(squares_of(targets), from, color, piece_type, opponent),
            before.len() as int,
            (before.len() + squares_of(targets).len()) as int,
        ),
        forall|i: int|
            before.len() <= i < before.len() + squares_of(targets).len() ==> {
                let m = #[trigger] (before + created_moves(squares_of(targets), from, color, piece_type, opponent))[i];
                &&& m.from_sq() == from
                &&& m.flags() == NORMAL || m.flags() == CAPTURE
                &&& 0 <= m.to_sq() < 64
                &&& has_sq(targets, m.to_sq() as u64)
            },
{
    reveal(distinct_between);
    let sq = squares_of(targets);
    let c = created_moves(sq, from, color, piece_type, opponent);
    let s = before + c;
    crate::bit_lemmas::lemma_squares_members(targets, 0);
    crate::bit_lemmas::lemma_squares_increasing(targets, 0);
    assert forall|i: int| before.len() <= i < s.len() implies {
        let m = #[trigger] s[i];
        &&& m.from_sq() == from
        &&& m.flags() == NORMAL || m.flags() == CAPTURE
        &&& 0 <= m.to_sq() < 64
        &&& has_sq(targets, m.to_sq() as u64)
    } by {
        let t = sq[i - before.len()];
        let fl = if has_sq(opponent, t) { CAPTURE } else { NORMAL };
        Move::lemma_made(fl, from, t as usize, color, piece_type);
        assert(s[i] == c[i - before.len()]);
    }
    assert forall|i: int, j: int| before.len() <= i < j < s.len() implies #[trigger] s[i] != #[trigger] s[j] by {
        let ti = sq[i - before.len()];
        let tj = sq[j - before.len()];
        let fi = if has_sq(opponent, ti) { CAPTURE } else { NORMAL };
        let fj = if has_sq(opponent, tj) { CAPTURE } else { NORMAL };
        Move::lemma_made(fi, from, ti as usize, color, piece_type);
        Move::lemma_made(fj, from, tj as usize, color, piece_type);
        assert(s[i] == c[i - before.len()]);
        assert(s[j] == c[j - before.len()]);
        assert(ti < tj);
    }
}

/// The four promotions are distinct moves from `from` to `to`, with the capturing
/// promotion flags for a capture and the quiet ones otherwise.
pub proof fn lemma_promotions_distinct(a: Seq<Move>, capture: bool, from: usize, to: usize, color: Color)
    requires
        from < 64,
        to < 64,
    ensures
        distinct_between(a + promotion_moves(capture, from, to, color), a.len() as int, (a.len() + 4) as int),
        (a + promotion_moves(capture, from, to, color)).len() == a.len() + 4,
        forall|i: int|
            a.len() <= i < a.len() + 4 ==> {
                let m = #[trigger] (a + promotion_moves(capture, from, to, color))[i];
                &&& m.from_sq() == from
                &&& m.to_sq() == to
                &&& capture ==> KNIGHT_PROMOTION_CAPTURE <= m.flags() <= QUEEN_PROMOTION_CAPTURE
                &&& !capture ==> KNIGHT_PROMOTION <= m.flags() <= QUEEN_PROMOTION
            },
{
    reveal(distinct_between);
    let ps = promotion_moves(capture, from, to, color);
    let s = a + ps;
    Move::lemma_made(KNIGHT_PROMOTION_CAPTURE, from, to, color, PieceType::Pawn);
    Move::lemma_made(BISHOP_PROMOTION_CAPTURE, from, to, color, PieceType::Pawn);
    Move::lemma_made(ROOK_PROMOTION_CAPTURE, from, to, color, PieceType::Pawn);
    Move::lemma_made(QUEEN_PROMOTION_CAPTURE, from, to, color, PieceType::Pawn);
    Move::lemma_made(KNIGHT_PROMOTION, from, to, color, PieceType::Pawn);
    Move::lemma_made(BISHOP_PROMOTION, from, to, color, PieceType::Pawn);
    Move::lemma_made(ROOK_PROMOTION, from, to, color, PieceType::Pawn);
    Move::lemma_made(QUEEN_PROMOTION, from, to, color, PieceType::Pawn);
    assert forall|i: int| a.len() <= i < a.len() + 4 implies #[trigger] s[i] == ps[i - a.len()] by {
    }
    assert forall|i: int, j: int| a.len() <= i < j < a.len() + 4 implies #[trigger] s[i] != #[trigger] s[j] by {
        assert(s[i] == ps[i - a.len()]);
        assert(s[j] == ps[j - a.len()]);
        assert(s[i].flags() != s[j].flags());
    }
}

/// After the moves of the piece on `square` are added, the list still repeats no move
/// and starts none of them on a square still to be visited.
pub proof fn lemma_square_done(before_moves: Seq<Move>, moves: Seq<Move>, before: u64, after: u64, square: u64)
    requires
        square < 64,
        has_sq(before, square),
        after == before & !(1u64 << square),
        distinct_between(before_moves, 0, before_moves.len() as int),
        forall|i: int| 0 <= i < before_moves.len() ==> !has_sq(before, (#[trigger] before_moves[i]).from_sq() as u64),
        moves.len() >= before_moves.len(),
        forall|i: int| 0 <= i < before_moves.len() ==> moves[i] == before_moves[i],
        distinct_between(moves, before_moves.len() as int, moves.len() as int),
        forall|i: int| before_moves.len() <= i < moves.len() ==> (#[trigger] moves[i]).from_sq() == square,
    ensures
        distinct_between(moves, 0, moves.len() as int),
        forall|i: int| 0 <= i < moves.len() ==> !has_sq(after, (#[trigger] moves[i]).from_sq() as u64),
{
    reveal(distinct_between);
    lemma_has_sq_ops();
    lemma_distinct_kept(before_moves, moves, 0, before_moves.len() as int);
    assert forall|i: int, j: int| #![trigger moves[i], moves[j]]
        0 <= i < before_moves.len() && before_moves.len() <= j < moves.len() implies moves[i] != moves[j] by {
        assert(moves[i] == before_moves[i]);
        crate::moves::lemma_move_squares(moves[i]);
        assert(!has_sq(before, moves[i].from_sq() as u64));
    }
    lemma_distinct_join(moves, 0, before_moves.len() as int, moves.len() as int);
    assert forall|i: int| 0 <= i < moves.len() implies !has_sq(after, (#[trigger] moves[i]).from_sq() as u64) by {
        crate::moves::lemma_move_squares(moves[i]);
        if i < before_moves.len() {
            assert(moves[i] == before_moves[i]);
            assert(!has_sq(before, before_moves[i].from_sq() as u64));
        }
    }
}

/// Every move in a list that only grew by good moves is good.
pub proof fn lemma_all_ok_append(a: Seq<Move>, b: Seq<Move>, bbs: Seq<u64>, side: Color)
    requires
        all_ok(a, bbs, side),
        all_ok(b, bbs, side),
    ensures
        all_ok(a + b, bbs, side),
{
    assert forall|i: int| 0 <= i < (a + b).len() implies generated_move_ok(bbs, side, #[trigger] (a + b)[i]) by {
        if i < a.len() {
            assert((a + b)[i] == a[i]);
        } else {
            assert((a + b)[i] == b[i - a.len()]);
        }
    }
}

/// A list of moves the move generator may hand out for `board` (see `get_moves`):
/// every move legal as `get_moves` states it, none listed twice, and every move these
/// rules allow there.
pub open spec fn generator_list(board: Board, r: Seq<Move>) -> bool {
    &&& (all_ok(r, board.bbs(), board.side()))
    &&& (forall|i: int, j: int| 0 <= i < j < r.len() ==> #[trigger] r[i] != #[trigger] r[j])
    &&& (ep_lands(r, board.ep()))
    &&& (promotions_whole(r))
    &&& (colors_apart(board) ==> forall|i: int|
        0 <= i < r.len() && !(r[i].flags() == EN_PASSANT && promotion_rank(board.side(), r[i].to_sq())) ==> #[trigger] makeable(
            board,
            r[i],
        ))
    &&& (follows_rules(r, board.side(), opponent_pieces(board), own_pieces(board) | opponent_pieces(board)))
    &&& (forall|k: u64|
        #![trigger is_lsb(own_king(board), k)]
        is_lsb(own_king(board), k) && king_in_double_check(board, k as int, own_king(board))
            ==> forall|i: int| 0 <= i < r.len() ==> #[trigger] r[i].mover_type() == PieceType::King)
    &&& (forall|k: u64|
        #![trigger is_lsb(own_king(board), k)]
        is_lsb(own_king(board), k) && king_in_check(board, k as int, own_king(board))
            ==> forall|i: int|
            0 <= i < r.len() && (#[trigger] r[i]).mover_type() != PieceType::King && r[i].flags() != EN_PASSANT
                ==> checker_on(board, k as int, own_king(board), r[i].to_sq() as u64)
                || on_check_line(board, k as int, own_king(board), r[i].to_sq() as u64))
    &&& (forall|k: u64|
        #![trigger is_lsb(own_king(board), k)]
        is_lsb(own_king(board), k) ==> forall|i: int|
            0 <= i < r.len() && (#[trigger] r[i]).mover_type() != PieceType::King && pinned(
                board,
                k as int,
                own_king(board),
                r[i].from_sq() as u64,
            ) ==> exists|t: PieceType, s: u64|
                #[trigger] pins_square(board, k as int, own_king(board), t, s, r[i].from_sq() as u64)
                    && has_sq(pin_line(s, k as int, own_king(board)), r[i].to_sq() as u64))
    &&& (forall|k: u64|
        #![trigger is_lsb(own_king(board), k)]
        is_lsb(own_king(board), k) ==> forall|i: int|
            0 <= i < r.len() && (#[trigger] r[i]).mover_type() == PieceType::King && r[i].flags() != KING_CASTLE
                && r[i].flags() != QUEEN_CASTLE ==> safe_for_king(board, k as int, own_king(board), r[i].to_sq() as u64))
    &&& (forall|k: u64|
        #![trigger is_lsb(own_king(board), k)]
        is_lsb(own_king(board), k) ==> forall|i: int|
            0 <= i < r.len() && (#[trigger] r[i]).mover_type() == PieceType::King && r[i].flags() == QUEEN_CASTLE ==> {
                &&& !king_in_check(board, k as int, own_king(board))
                &&& board.queen_side_right(board.side())
                &&& (own_pieces(board) | opponent_pieces(board)) & queen_side_path(board.side()) == 0
                &&& r[i].to_sq() + 2 == r[i].from_sq()
                &&& safe_for_king(board, k as int, own_king(board), (r[i].from_sq() - 1) as u64)
                &&& safe_for_king(board, k as int, own_king(board), r[i].to_sq() as u64)
            })
    &&& (forall|k: u64|
        #![trigger is_lsb(own_king(board), k)]
        is_lsb(own_king(board), k) ==> forall|i: int|
            0 <= i < r.len() && (#[trigger] r[i]).mover_type() == PieceType::King && r[i].flags() == KING_CASTLE ==> {
                &&& !king_in_check(board, k as int, own_king(board))
                &&& board.king_side_right(board.side())
                &&& (own_pieces(board) | opponent_pieces(board)) & king_side_path(board.side()) == 0
                &&& r[i].to_sq() == r[i].from_sq() + 2
                &&& safe_for_king(board, k as int, own_king(board), (r[i].from_sq() + 1) as u64)
                &&& safe_for_king(board, k as int, own_king(board), r[i].to_sq() as u64)
            })
    &&& (forall|k: u64|
        #![trigger is_lsb(own_king(board), k)]
        is_lsb(own_king(board), k) ==> forall|x: u64, y: u64, t: PieceType|
            x < 64 && y < 64 && is_reaching_piece(t) && own_piece(board, x as usize, t) && reaches(board, t, x, y)
                && target_allowed(board, k as int, own_king(board), x, y) ==> #[trigger] has_move(r, x, y, t))
    &&& (forall|k: u64|
        #![trigger is_lsb(own_king(board), k)]
        is_lsb(own_king(board), k) ==> forall|x: u64, y: u64|
            x < 64 && y < 64 && own_piece(board, x as usize, PieceType::Pawn) && pawn_reaches(board, x, y)
                && target_allowed(board, k as int, own_king(board), x, y) ==> #[trigger] has_move(
                r,
                x,
                y,
                PieceType::Pawn,
            ))
    &&& (forall|k: u64|
        k < 64 && own_piece(board, k as usize, PieceType::King) && #[trigger] own_king(board) == 1u64 << k
            && opponent_of_type(board, PieceType::King) != 0 ==> forall|y: u64|
            y < 64 && has_sq(KING_MOVES@[k as int], y) && !has_sq(own_pieces(board), y) && safe_for_king(
                board,
                k as int,
                own_king(board),
                y,
            ) ==> #[trigger] has_move(r, k, y, PieceType::King))
    &&& (forall|k: u64|
        #![trigger is_lsb(own_king(board), k)]
        is_lsb(own_king(board), k) ==> forall|x: u64, y: u64|
            x < 64 && y < 64 && own_piece(board, x as usize, PieceType::Pawn) && !pawn_initial_position(
                1u64 << x,
                board.side() == Color::White,
            ) && has_sq(board.ep(), y) && has_sq(pawn_attacks_of(board.side(), x as int), y) && target_allowed(
                board,
                k as int,
                own_king(board),
                x,
                y,
            ) && !rank_uncovered(board.side(), own_king(board), k as int, x as int, board.bbs(), board.eps())
                ==> #[trigger] has_move(r, x, y, PieceType::Pawn))
    &&& (forall|k: u64|
        k < 64 && own_piece(board, k as usize, PieceType::King) && #[trigger] own_king(board) == 1u64 << k
            && opponent_of_type(board, PieceType::King) != 0 && !king_in_check(board, k as int, own_king(board))
            && board.queen_side_right(board.side())
            && (own_pieces(board) | opponent_pieces(board)) & queen_side_path(board.side()) == 0 && k % 8 >= 2
            && safe_for_king(board, k as int, own_king(board), (k - 1) as u64)
            && safe_for_king(board, k as int, own_king(board), (k - 2) as u64)
            ==> has_move(r, k, (k - 2) as u64, PieceType::King))
    &&& (forall|k: u64|
        k < 64 && own_piece(board, k as usize, PieceType::King) && #[trigger] own_king(board) == 1u64 << k
            && opponent_of_type(board, PieceType::King) != 0 && !king_in_check(board, k as int, own_king(board))
            && board.king_side_right(board.side())
            && (own_pieces(board) | opponent_pieces(board)) & king_side_path(board.side()) == 0 && k % 8 <= 5
            && safe_for_king(board, k as int, own_king(board), (k + 1) as u64)
            && safe_for_king(board, k as int, own_king(board), (k + 2) as u64)
            ==> has_move(r, k, (k + 2) as u64, PieceType::King))
}

/// In a list the generator may hand out, a pawn's move from its starting rank two
/// squares ahead onto a square free of opponent pieces is a double push that carries
/// the square the pawn passes and the square it lands on.
pub proof fn lemma_double_push_flagged(board: Board, r: Seq<Move>, i: int)
    requires
        generator_list(board, r),
        0 <= i < r.len(),
        r[i].mover_type() == PieceType::Pawn,
        pawn_initial_position(1u64 << (r[i].from_sq() as u64), board.side() == Color::White),
        has_sq(pawn_two_ahead(board.side(), r[i].from_sq()), r[i].to_sq() as u64),
        !has_sq(board.bbs()[color_index(opponent_of(board.side())) as int], r[i].to_sq() as u64),
    ensures
        r[i].flags() == DOUBLE_PAWN_PUSH,
        r[i].ep_position() == step_spec(pawn_dir(board.side()), 1u64 << (r[i].from_sq() as u64)),
        r[i].ep_piece_square() == 1u64 << (r[i].to_sq() as u64),
{
    assert(generated_move_ok(board.bbs(), board.side(), r[i]));
}

/// Generator of the moves of the side to move. It holds the slider tables (laid out
/// by magic numbers) and, while generating, the pieces of both sides.
#[derive(Clone)]
pub struct MoveGenerator {
    bishop_lookup_hash_table: Vec<((u8, u64), u64)>,
    rook_lookup_hash_table: Vec<((u8, u64), u64)>,
    bishop_lookup_table: Vec<Vec<(u64, u64)>>,
    rook_lookup_table: Vec<Vec<(u64, u64)>>,
    friendly_pieces_bb: u64,
    opponent_pieces_bb: u64,
    occupied_squares: u64,
    side_to_move: Color,
    attack_data: AttackData,
}

impl MoveGenerator {
    /// The tables hold slider moves that match their blockers, and no (square,
    /// blockers) key occurs twice in an entry table.
    pub closed spec fn wf(self) -> bool {
        &&& keys_unique(self.bishop_lookup_hash_table@)
        &&& keys_unique(self.rook_lookup_hash_table@)
        &&& magic_table_sound(Slider::Bishop, self.bishop_lookup_table@)
        &&& magic_table_sound(Slider::Rook, self.rook_lookup_table@)
        &&& forall|j: int|
            0 <= j < self.bishop_lookup_hash_table@.len() ==> #[trigger] table_entry_sound(
                Slider::Bishop,
                self.bishop_lookup_hash_table@[j],
            )
        &&& forall|j: int|
            0 <= j < self.rook_lookup_hash_table@.len() ==> #[trigger] table_entry_sound(
                Slider::Rook,
                self.rook_lookup_hash_table@[j],
            )
    }

    pub closed spec fn friendly(self) -> u64 {
        self.friendly_pieces_bb
    }

    pub closed spec fn opponent(self) -> u64 {
        self.opponent_pieces_bb
    }

    pub closed spec fn occupied(self) -> u64 {
        self.occupied_squares
    }

    pub closed spec fn side(self) -> Color {
        self.side_to_move
    }

    /// The generator holds the side to move and the pieces of `board`.
    pub open spec fn tracks(self, board: Board) -> bool {
        &&& self.side() == board.side()
        &&& self.friendly() == board.bbs()[color_index(board.side()) as int]
        &&& self.opponent() == board.bbs()[color_index(opponent_of(board.side())) as int]
        &&& self.occupied() == self.friendly() | self.opponent()
    }

    /// Adds a move to every square of `attacks`, flagged as a capture where an opponent
    /// piece stands.
    pub fn create_moves(&self, attacks: u64, moves: &mut Vec<Move>, square: usize, piece_type: PieceType)
        ensures
            final(moves)@ == old(moves)@ + created_moves(squares_of(attacks), square, self.side(), piece_type, self.opponent()),
    {
        let mut rest = attacks;
        while rest != 0
            invariant
                moves@ + created_moves(squares_of(rest), square, self.side(), piece_type, self.opponent())
                    == old(moves)@ + created_moves(squares_of(attacks), square, self.side(), piece_type, self.opponent()),
            decreases squares_of(rest).len(),
        {
            let ghost before = rest;
            let ghost before_moves = moves@;
            let target_square = pop_lsb(&mut rest);
            proof {
                lemma_squares_pop(before, target_square as u64);
            }
            let mut flags: u16 = 0;
            if self.opponent_pieces_bb & to_bitboard_position(target_square as u64) != 0 {
                flags = CAPTURE;
            }
            moves.push(Move::with_flags(flags, square, target_square as usize, self.side_to_move, piece_type));
            proof {
                let c = created_moves(squares_of(rest), square, self.side(), piece_type, self.opponent());
                let cb = created_moves(squares_of(before), square, self.side(), piece_type, self.opponent());
                assert(cb =~= seq![moves@.last()] + c);
                assert(moves@ + c =~= before_moves + cb);
            }
        }
        proof {
            lemma_squares_empty();
            assert(moves@ + created_moves(squares_of(rest), square, self.side(), piece_type, self.opponent()) =~= moves@);
        }
    }

    fn generate_diagonal_moves(&self, board: &Board, moves: &mut Vec<Move>, square: usize, piece_type: PieceType, attack_data: &AttackData)
        requires
            self.wf(),
            square < 64,
        ensures
            final(moves)@ == old(moves)@ + created_moves(
                squares_of(
                    diagonal_attacks_spec(
                        self.friendly() | board.bbs()[color_index(opponent_of(self.side())) as int],
                        square as int,
                    ) & !self.friendly() & attack_data.friendly_pins_moves_bbs@[square as int] & (
                    attack_data.defenders_bb | attack_data.attack_bb),
                ),
                square,
                self.side(),
                piece_type,
                self.opponent(),
            ),
    {
        let raw_attacks = self.get_diagonal_attacks(board, self.side_to_move, square, &self.friendly_pieces_bb);
        let attacks = raw_attacks & !self.friendly_pieces_bb & attack_data.friendly_pins_moves_bbs[square]
            & (attack_data.defenders_bb | attack_data.attack_bb);
        self.create_moves(attacks, moves, square, piece_type);
    }

    fn generate_orthogonal_moves(&self, board: &Board, moves: &mut Vec<Move>, square: usize, piece_type: PieceType, attack_data: &AttackData)
        requires
            self.wf(),
            square < 64,
        ensures
            final(moves)@ == old(moves)@ + created_moves(
                squares_of(
                    orthogonal_attacks_spec(
                        self.friendly() | board.bbs()[color_index(opponent_of(self.side())) as int],
                        square as int,
                    ) & !self.friendly() & attack_data.friendly_pins_moves_bbs@[square as int] & (
                    attack_data.defenders_bb | attack_data.attack_bb),
                ),
                square,
                self.side(),
                piece_type,
                self.opponent(),
            ),
    {
        let raw_attacks = self.get_orthogonal_attacks(board, self.side_to_move, square, &self.friendly_pieces_bb);
        let attacks = raw_attacks & !self.friendly_pieces_bb & attack_data.friendly_pins_moves_bbs[square]
            & (attack_data.defenders_bb | attack_data.attack_bb);
        self.create_moves(attacks, moves, square, piece_type);
    }

    fn generate_knight_moves(&self, moves: &mut Vec<Move>, square: usize, attack_data: &AttackData)
        requires
            square < 64,
        ensures
            final(moves)@ == old(moves)@ + created_moves(
                squares_of(
                    (KNIGHT_MOVES@[square as int] & !self.friendly()) & attack_data.friendly_pins_moves_bbs@[square as int]
                        & (attack_data.defenders_bb | attack_data.attack_bb),
                ),
                square,
                self.side(),
                PieceType::Knight,
                self.opponent(),
            ),
    {
        let attacks = (KNIGHT_MOVES[square] & !self.friendly_pieces_bb) & attack_data.friendly_pins_moves_bbs[square]
            & (attack_data.defenders_bb | attack_data.attack_bb);
        self.create_moves(attacks, moves, square, PieceType::Knight);
    }

    /// The king's steps to allowed squares, and the castles when the king is not in
    /// check, the right is held, the path to the rook is empty and the two squares the
    /// king crosses are allowed.
    #[verifier::rlimit(40)]
    fn generate_king_moves(&self, board: &Board, moves: &mut Vec<Move>, square: usize, attack_data: &AttackData)
        requires
            self.tracks(*board),
            own_piece(*board, square, PieceType::King),
            all_ok(old(moves)@, board.bbs(), board.side()),
        ensures
            all_ok(final(moves)@, board.bbs(), board.side()),
            final(moves)@.len() >= old(moves)@.len(),
            forall|i: int| 0 <= i < old(moves)@.len() ==> final(moves)@[i] == old(moves)@[i],
            forall|i: int| old(moves)@.len() <= i < final(moves)@.len() ==> (#[trigger] final(moves)@[i]).mover_type() == PieceType::King,
            forall|i: int|
                old(moves)@.len() <= i < final(moves)@.len() && (#[trigger] final(moves)@[i]).flags() != KING_CASTLE
                    && final(moves)@[i].flags() != QUEEN_CASTLE ==> has_sq(attack_data.king_allowed_squares, final(moves)@[i].to_sq() as u64),
            castles_ok(old(moves)@, *board, attack_data.in_check, self.occupied(), attack_data.king_allowed_squares) ==> castles_ok(
                final(moves)@,
                *board,
                attack_data.in_check,
                self.occupied(),
                attack_data.king_allowed_squares,
            ),
            forall|y: u64|
                y < 64 && has_sq(KING_MOVES@[square as int], y) && !has_sq(self.friendly(), y) && has_sq(
                    attack_data.king_allowed_squares,
                    y,
                ) ==> #[trigger] has_move(final(moves)@, square as u64, y, PieceType::King),
            follows_rules(old(moves)@, self.side(), self.opponent(), self.occupied()) ==> follows_rules(final(moves)@, self.side(), self.opponent(), self.occupied()),
            !attack_data.in_check && board.queen_side_right(board.side()) && self.occupied() & queen_side_path(board.side()) == 0
                && square % 8 >= 2 && has_sq(attack_data.king_allowed_squares, (square - 1) as u64) && has_sq(
                attack_data.king_allowed_squares,
                (square - 2) as u64,
            ) ==> has_move(final(moves)@, square as u64, (square - 2) as u64, PieceType::King),
            !attack_data.in_check && board.king_side_right(board.side()) && self.occupied() & king_side_path(board.side()) == 0
                && square % 8 <= 5 && has_sq(attack_data.king_allowed_squares, (square + 1) as u64) && has_sq(
                attack_data.king_allowed_squares,
                (square + 2) as u64,
            ) ==> has_move(final(moves)@, square as u64, (square + 2) as u64, PieceType::King),
            distinct_between(final(moves)@, old(moves)@.len() as int, final(moves)@.len() as int),
    {
        let ghost allowed = attack_data.king_allowed_squares;
        let ghost in_check = attack_data.in_check;
        let attacks = (KING_MOVES[square] & !self.friendly_pieces_bb) & attack_data.king_allowed_squares;
        let ghost before = moves@;
        self.create_moves(attacks, moves, square, PieceType::King);
        let ghost created = moves@;
        proof {
            lemma_has_sq_ops();
            lemma_created_follows(attacks, square, self.side(), PieceType::King, self.opponent(), self.occupied());
            if follows_rules(before, self.side(), self.opponent(), self.occupied()) {
                lemma_follows_append(before, created_moves(squares_of(attacks), square, self.side(), PieceType::King, self.opponent()), self.side(), self.opponent(), self.occupied());
            }
            assert forall|y: u64|
                y < 64 && has_sq(KING_MOVES@[square as int], y) && !has_sq(self.friendly(), y) && has_sq(allowed, y)
                implies #[trigger] has_move(created, square as u64, y, PieceType::King) by {
                lemma_created_has(before, attacks, square, y, self.side(), PieceType::King, self.opponent());
            }
            lemma_created_lands(attacks, 0xffff_ffff_ffff_ffffu64, square, self.side(), PieceType::King, self.opponent());
            lemma_created_lands(attacks, attack_data.king_allowed_squares, square, self.side(), PieceType::King, self.opponent());
            assert forall|i: int| before.len() <= i < moves@.len() implies (#[trigger] moves@[i]).mover_type() == PieceType::King by {
                assert(moves@[i] == created_moves(squares_of(attacks), square, self.side(), PieceType::King, self.opponent())[i - before.len()]);
            }
            assert forall|i: int|
                before.len() <= i < moves@.len() && (#[trigger] moves@[i]).flags() != KING_CASTLE && moves@[i].flags() != QUEEN_CASTLE
                implies has_sq(attack_data.king_allowed_squares, moves@[i].to_sq() as u64) by {
                let ms = created_moves(squares_of(attacks), square, self.side(), PieceType::King, self.opponent());
                assert(moves@[i] == ms[i - before.len()]);
                let t = squares_of(attacks)[i - before.len()];
                crate::bit_lemmas::lemma_squares_members(attacks, 0);
                let fl = if has_sq(self.opponent(), t) { CAPTURE } else { NORMAL };
                Move::lemma_made(fl, square, t as usize, self.side(), PieceType::King);
            }
            if castles_ok(before, *board, in_check, self.occupied(), allowed) {
                assert forall|i: int| 0 <= i < moves@.len() implies {
                    let m = #[trigger] moves@[i];
                    &&& m.mover_type() == PieceType::King && m.flags() == QUEEN_CASTLE ==> {
                        &&& !in_check
                        &&& board.queen_side_right(board.side())
                        &&& self.occupied() & queen_side_path(board.side()) == 0
                        &&& m.to_sq() + 2 == m.from_sq()
                        &&& has_sq(allowed, (m.from_sq() - 1) as u64)
                        &&& has_sq(allowed, m.to_sq() as u64)
                    }
                    &&& m.mover_type() == PieceType::King && m.flags() == KING_CASTLE ==> {
                        &&& !in_check
                        &&& board.king_side_right(board.side())
                        &&& self.occupied() & king_side_path(board.side()) == 0
                        &&& m.to_sq() == m.from_sq() + 2
                        &&& has_sq(allowed, (m.from_sq() + 1) as u64)
                        &&& has_sq(allowed, m.to_sq() as u64)
                    }
                } by {
                    if i >= before.len() {
                        let ms = created_moves(squares_of(attacks), square, self.side(), PieceType::King, self.opponent());
                        assert(moves@[i] == ms[i - before.len()]);
                        let t = squares_of(attacks)[i - before.len()];
                        crate::bit_lemmas::lemma_squares_members(attacks, 0);
                        let fl = if has_sq(self.opponent(), t) { CAPTURE } else { NORMAL };
                        Move::lemma_made(fl, square, t as usize, self.side(), PieceType::King);
                    } else {
                        assert(moves@[i] == before[i]);
                    }
                }
            }
            lemma_has_sq_ops();
            let f = self.friendly();
            assert(attacks & f == 0) by {
                lemma_no_square_empty(attacks & f);
            }
            lemma_created_ok(*board, attacks, square, PieceType::King);
            lemma_all_ok_append(before, created_moves(squares_of(attacks), square, self.side(), PieceType::King, self.opponent()), board.bbs(), board.side());
            lemma_created_distinct(before, attacks, square, self.side(), PieceType::King, self.opponent());
        }
        if attack_data.in_check {
            return;
        }
        let ghost before_castles = moves@;
        self.generate_queen_side_castle(board, moves, square, attack_data);
        let ghost after_queen = moves@;
        self.generate_king_side_castle(board, moves, square, attack_data);
        proof {
            let b = before.len() as int;
            let c = before_castles.len() as int;
            let q = after_queen.len() as int;
            assert(distinct_between(moves@, c, moves@.len() as int)) by {
                reveal(distinct_between);
                assert forall|i: int, j: int| c <= i < j < moves@.len() implies #[trigger] moves@[i] != #[trigger] moves@[j] by {
                    assert(i < q && q <= j);
                    assert(moves@[i] == after_queen[i]);
                }
            }
            lemma_distinct_kept(before_castles, moves@, b, c);
            assert forall|i: int, j: int| #![trigger moves@[i], moves@[j]] b <= i < c && c <= j < moves@.len() implies moves@[i]
                != moves@[j] by {
                assert(moves@[i] == before_castles[i]);
                if j < q {
                    assert(moves@[j] == after_queen[j]);
                }
            }
            lemma_distinct_join(moves@, b, c, moves@.len() as int);
        }
        proof {
            assert forall|y: u64|
                y < 64 && has_sq(KING_MOVES@[square as int], y) && !has_sq(self.friendly(), y) && has_sq(allowed, y)
                implies #[trigger] has_move(moves@, square as u64, y, PieceType::King) by {
                assert(has_move(created, square as u64, y, PieceType::King));
                lemma_has_move_kept(created, moves@, square as u64, y, PieceType::King);
            }
            if !in_check && board.queen_side_right(board.side()) && self.occupied() & queen_side_path(board.side()) == 0
                && square % 8 >= 2 && has_sq(allowed, (square - 1) as u64) && has_sq(allowed, (square - 2) as u64) {
                assert(has_move(after_queen, square as u64, (square - 2) as u64, PieceType::King));
                lemma_has_move_kept(after_queen, moves@, square as u64, (square - 2) as u64, PieceType::King);
            }
            assert forall|i: int| before.len() <= i < moves@.len() implies (#[trigger] moves@[i]).mover_type() == PieceType::King by {
                if i < before_castles.len() {
                    assert(moves@[i] == before_castles[i]);
                } else if i < after_queen.len() {
                    assert(moves@[i] == after_queen[i]);
                }
            }
            assert forall|i: int|
                before.len() <= i < moves@.len() && (#[trigger] moves@[i]).flags() != KING_CASTLE && moves@[i].flags() != QUEEN_CASTLE
                implies has_sq(allowed, moves@[i].to_sq() as u64) by {
                if i < before_castles.len() {
                    assert(moves@[i] == before_castles[i]);
                } else if i < after_queen.len() {
                    assert(moves@[i] == after_queen[i]);
                }
            }
        }
    }

    /// The queen-side castling of the king on `square`, when the right is held, the
    /// path to the rook is empty and the two squares the king crosses are allowed.
    fn generate_queen_side_castle(&self, board: &Board, moves: &mut Vec<Move>, square: usize, attack_data: &AttackData)
        requires
            self.tracks(*board),
            own_piece(*board, square, PieceType::King),
            all_ok(old(moves)@, board.bbs(), board.side()),
            !attack_data.in_check,
        ensures
            all_ok(final(moves)@, board.bbs(), board.side()),
            final(moves)@.len() >= old(moves)@.len(),
            forall|i: int| 0 <= i < old(moves)@.len() ==> final(moves)@[i] == old(moves)@[i],
            forall|i: int|
                old(moves)@.len() <= i < final(moves)@.len() ==> (#[trigger] final(moves)@[i]).mover_type() == PieceType::King
                    && final(moves)@[i].flags() == QUEEN_CASTLE,
            final(moves)@.len() <= old(moves)@.len() + 1,
            castles_ok(old(moves)@, *board, attack_data.in_check, self.occupied(), attack_data.king_allowed_squares) ==> castles_ok(
                final(moves)@,
                *board,
                attack_data.in_check,
                self.occupied(),
                attack_data.king_allowed_squares,
            ),
            follows_rules(old(moves)@, self.side(), self.opponent(), self.occupied()) ==> follows_rules(final(moves)@, self.side(), self.opponent(), self.occupied()),
            board.queen_side_right(board.side()) && self.occupied() & queen_side_path(board.side()) == 0 && square % 8 >= 2 && has_sq(
                attack_data.king_allowed_squares,
                (square - 1) as u64,
            ) && has_sq(attack_data.king_allowed_squares, (square - 2) as u64) ==> has_move(final(moves)@, square as u64, (square - 2) as u64, PieceType::King),
    {
        let ghost allowed = attack_data.king_allowed_squares;
        let ghost in_check = attack_data.in_check;
        if board.has_queen_side_castle_right(self.side_to_move) {
            if ((self.occupied_squares & BLACK_QUEEN_SIDE_PATH_TO_ROOK) == 0 && self.side_to_move.is_black())
                || ((self.occupied_squares & WHITE_QUEEN_SIDE_PATH_TO_ROOK) == 0 && self.side_to_move.is_white())
            {
                let west_1 = west_one(1u64 << (square as u64));
                let mut west_two = west_one(west_1);
                proof {
                    if square % 8 >= 2 && has_sq(allowed, (square - 1) as u64) && has_sq(allowed, (square - 2) as u64) {
                        crate::bit_lemmas::lemma_two_steps_west_back(square as u64, allowed);
                    }
                }
                if west_1 & attack_data.king_allowed_squares != 0 && west_two & attack_data.king_allowed_squares != 0 {
                    let ghost two = west_two;
                    proof {
                        crate::bit_lemmas::lemma_two_steps_west(square as u64, attack_data.king_allowed_squares);
                        crate::bit_lemmas::lemma_square_single((square - 2) as u64);
                    }
                    let target = pop_lsb(&mut west_two) as usize;
                    proof {
                        crate::bit_lemmas::lemma_single_lsb(two, target as u64);
                        crate::bit_lemmas::lemma_shift_injective(target as u64, (square - 2) as u64);
                    }
                    let m = Move::with_flags(QUEEN_CASTLE, square, target, self.side_to_move, PieceType::King);
                    let ghost prior = moves@;
                    proof {
                        Move::lemma_made(QUEEN_CASTLE, square, target, self.side_to_move, PieceType::King);
                        assert(generated_move_ok(board.bbs(), board.side(), seq![m][0]));
                        if follows_rules(prior, self.side(), self.opponent(), self.occupied()) {
                            lemma_follows_push(prior, m, self.side(), self.opponent(), self.occupied());
                        }
                        if castles_ok(prior, *board, in_check, self.occupied(), allowed) {
                            lemma_castles_push(prior, m, *board, in_check, self.occupied(), allowed);
                        }
                    }
                    moves.push(m);
                    proof {
                        assert(moves@[prior.len() as int] == m);
                        assert(has_move(moves@, square as u64, (square - 2) as u64, PieceType::King));
                        lemma_all_ok_append(prior, seq![m], board.bbs(), board.side());
                        assert(moves@ =~= prior + seq![m]);
                    }
                }
            }
        }
    }

    /// The king-side castling of the king on `square`, when the right is held, the
    /// path to the rook is empty and the two squares the king crosses are allowed.
    fn generate_king_side_castle(&self, board: &Board, moves: &mut Vec<Move>, square: usize, attack_data: &AttackData)
        requires
            self.tracks(*board),
            own_piece(*board, square, PieceType::King),
            all_ok(old(moves)@, board.bbs(), board.side()),
            !attack_data.in_check,
        ensures
            all_ok(final(moves)@, board.bbs(), board.side()),
            final(moves)@.len() >= old(moves)@.len(),
            forall|i: int| 0 <= i < old(moves)@.len() ==> final(moves)@[i] == old(moves)@[i],
            forall|i: int|
                old(moves)@.len() <= i < final(moves)@.len() ==> (#[trigger] final(moves)@[i]).mover_type() == PieceType::King
                    && final(moves)@[i].flags() == KING_CASTLE,
            final(moves)@.len() <= old(moves)@.len() + 1,
            castles_ok(old(moves)@, *board, attack_data.in_check, self.occupied(), attack_data.king_allowed_squares) ==> castles_ok(
                final(moves)@,
                *board,
                attack_data.in_check,
                self.occupied(),
                attack_data.king_allowed_squares,
            ),
            follows_rules(old(moves)@, self.side(), self.opponent(), self.occupied()) ==> follows_rules(final(moves)@, self.side(), self.opponent(), self.occupied()),
            board.king_side_right(board.side()) && self.occupied() & king_side_path(board.side()) == 0 && square % 8 <= 5 && has_sq(
                attack_data.king_allowed_squares,
                (square + 1) as u64,
            ) && has_sq(attack_data.king_allowed_squares, (square + 2) as u64) ==> has_move(final(moves)@, square as u64, (square + 2) as u64, PieceType::King),
    {
        let ghost allowed = attack_data.king_allowed_squares;
        let ghost in_check = attack_data.in_check;
        if board.has_king_side_castle_right(self.side_to_move) {
            if ((self.occupied_squares & BLACK_KING_SIDE_PATH_TO_ROOK) == 0 && self.side_to_move.is_black())
                || ((self.occupied_squares & WHITE_KING_SIDE_PATH_TO_ROOK) == 0 && self.side_to_move.is_white())
            {
                let east_1 = east_one(1u64 << (square as u64));
                let mut east_two = east_one(east_1);
                proof {
                    if square % 8 <= 5 && has_sq(allowed, (square + 1) as u64) && has_sq(allowed, (square + 2) as u64) {
                        crate::bit_lemmas::lemma_two_steps_east_back(square as u64, allowed);
                    }
                }
                if east_1 & attack_data.king_allowed_squares != 0 && east_two & attack_data.king_allowed_squares != 0 {
                    let ghost two = east_two;
                    proof {
                        crate::bit_lemmas::lemma_two_steps_east(square as u64, attack_data.king_allowed_squares);
                        crate::bit_lemmas::lemma_square_single((square + 2) as u64);
                    }
                    let target = pop_lsb(&mut east_two) as usize;
                    proof {
                        crate::bit_lemmas::lemma_single_lsb(two, target as u64);
                        crate::bit_lemmas::lemma_shift_injective(target as u64, (square + 2) as u64);
                    }
                    let m = Move::with_flags(KING_CASTLE, square, target, self.side_to_move, PieceType::King);
                    let ghost prior = moves@;
                    proof {
                        Move::lemma_made(KING_CASTLE, square, target, self.side_to_move, PieceType::King);
                        assert(generated_move_ok(board.bbs(), board.side(), seq![m][0]));
                        if follows_rules(prior, self.side(), self.opponent(), self.occupied()) {
                            lemma_follows_push(prior, m, self.side(), self.opponent(), self.occupied());
                        }
                        if castles_ok(prior, *board, in_check, self.occupied(), allowed) {
                            lemma_castles_push(prior, m, *board, in_check, self.occupied(), allowed);
                        }
                    }
                    moves.push(m);
                    proof {
                        assert(moves@[prior.len() as int] == m);
                        assert(has_move(moves@, square as u64, (square + 2) as u64, PieceType::King));
                        lemma_all_ok_append(prior, seq![m], board.bbs(), board.side());
                        assert(moves@ =~= prior + seq![m]);
                    }
                }
            }
        }
    }

    /// A move of the piece on `square`, of type `piece_type`, that the generator may
    /// hand out (see `generated_move_ok`), told by the pieces the generator holds.
    pub open spec fn piece_move_ok(self, square: usize, piece_type: PieceType, m: Move) -> bool {
        &&& m.mover_color() == self.side()
        &&& m.from_sq() == square
        &&& m.mover_type() == piece_type
        &&& 0 <= m.to_sq() < 64
        &&& (m.flags() == CAPTURE || m.flags() >= KNIGHT_PROMOTION_CAPTURE ==> has_sq(self.opponent(), m.to_sq() as u64))
        &&& (m.flags() == NORMAL || m.flags() == DOUBLE_PAWN_PUSH || KNIGHT_PROMOTION <= m.flags() <= QUEEN_PROMOTION ==> !has_sq(
            self.opponent(),
            m.to_sq() as u64,
        ))
        &&& (m.flags() != KING_CASTLE && m.flags() != QUEEN_CASTLE ==> !has_sq(self.friendly(), m.to_sq() as u64))
        &&& (m.flags() == EN_PASSANT ==> piece_type == PieceType::Pawn && has_sq(pawn_attacks_of(self.side(), square as int), m.to_sq() as u64)
            && !pawn_initial_position(1u64 << (square as u64), self.side() == Color::White))
        &&& flags_fit(self.side(), piece_type, square as int, m.to_sq() as int, m)
        &&& (piece_type == PieceType::Pawn && has_sq(pawn_two_ahead(self.side(), square as int), m.to_sq() as u64) && !has_sq(
            self.opponent(),
            m.to_sq() as u64,
        ) && m.flags() != EN_PASSANT ==> m.flags() == DOUBLE_PAWN_PUSH)
    }

    /// `new` is `old` followed by moves of the piece on `square`.
    pub open spec fn grows_by(self, old: Seq<Move>, new: Seq<Move>, square: usize, piece_type: PieceType) -> bool {
        &&& new.len() >= old.len()
        &&& forall|i: int| 0 <= i < old.len() ==> new[i] == old[i]
        &&& forall|i: int| old.len() <= i < new.len() ==> self.piece_move_ok(square, piece_type, #[trigger] new[i])
    }

    pub proof fn lemma_grows_trans(self, a: Seq<Move>, b: Seq<Move>, c: Seq<Move>, square: usize, piece_type: PieceType)
        requires
            self.grows_by(a, b, square, piece_type),
            self.grows_by(b, c, square, piece_type),
        ensures
            self.grows_by(a, c, square, piece_type),
    {
        assert forall|i: int| a.len() <= i < c.len() implies self.piece_move_ok(square, piece_type, #[trigger] c[i]) by {
            if i < b.len() {
                assert(c[i] == b[i]);
            }
        }
    }

    /// Growing a good list by good moves of a piece of the side to move keeps it good.
    pub proof fn lemma_grows_ok(self, board: Board, old: Seq<Move>, new: Seq<Move>, square: usize, piece_type: PieceType)
        requires
            self.tracks(board),
            own_piece(board, square, piece_type),
            all_ok(old, board.bbs(), board.side()),
            self.grows_by(old, new, square, piece_type),
        ensures
            all_ok(new, board.bbs(), board.side()),
    {
        assert forall|i: int| 0 <= i < new.len() implies generated_move_ok(board.bbs(), board.side(), #[trigger] new[i]) by {
            if i < old.len() {
                assert(new[i] == old[i]);
            } else {
                assert(self.piece_move_ok(square, piece_type, new[i]));
            }
        }
    }

    /// A move built from the piece on `square` to an on-board `to` that keeps clear of
    /// the friendly pieces (and, as a capture, lands on an opponent piece) is fine.
    proof fn lemma_made_ok(self, flags: u16, square: usize, to: usize, piece_type: PieceType)
        requires
            flags < 16,
            square < 64,
            to < 64,
            flags == CAPTURE || flags >= KNIGHT_PROMOTION_CAPTURE ==> has_sq(self.opponent(), to as u64),
            flags == NORMAL || flags == DOUBLE_PAWN_PUSH || KNIGHT_PROMOTION <= flags <= QUEEN_PROMOTION ==> !has_sq(self.opponent(), to as u64),
            !has_sq(self.friendly(), to as u64),
            flags == EN_PASSANT ==> piece_type == PieceType::Pawn && has_sq(pawn_attacks_of(self.side(), square as int), to as u64)
                && !pawn_initial_position(1u64 << (square as u64), self.side() == Color::White),
            piece_type != PieceType::Empty,
            flags != DOUBLE_PAWN_PUSH,
            piece_type != PieceType::Pawn ==> flags == NORMAL || flags == CAPTURE || flags == KING_CASTLE || flags == QUEEN_CASTLE,
            flags == KING_CASTLE || flags == QUEEN_CASTLE ==> piece_type == PieceType::King,
            piece_type == PieceType::Pawn && flags != EN_PASSANT ==> (flags >= KNIGHT_PROMOTION <==> promotion_rank(self.side(), to as int)),
            piece_type == PieceType::Pawn && (flags == NORMAL || KNIGHT_PROMOTION <= flags <= QUEEN_PROMOTION) ==> !has_sq(
                pawn_two_ahead(self.side(), square as int),
                to as u64,
            ),
            piece_type == PieceType::Pawn ==> flags == NORMAL || flags == CAPTURE || flags == EN_PASSANT || flags >= KNIGHT_PROMOTION,
        ensures
            self.piece_move_ok(square, piece_type, Move::made(flags, square, to, self.side(), piece_type)),
    {
        Move::lemma_made(flags, square, to, self.side(), piece_type);
    }

    /// A double push built from the pawn on `square` onto a free `to`, carrying the
    /// square it passes and the square it lands on, is fine.
    proof fn lemma_double_push_ok(self, square: usize, to: usize, m: Move)
        requires
            square < 64,
            to < 64,
            !has_sq(self.opponent(), to as u64),
            !has_sq(self.friendly(), to as u64),
            m.code() == crate::moves::encode(DOUBLE_PAWN_PUSH, square, to),
            m.mover_color() == self.side(),
            m.mover_type() == PieceType::Pawn,
            m.ep_position() == step_spec(pawn_dir(self.side()), 1u64 << (square as u64)),
            m.ep_piece_square() == 1u64 << (to as u64),
        ensures
            self.piece_move_ok(square, PieceType::Pawn, m),
    {
        let made = Move::made(DOUBLE_PAWN_PUSH, square, to, self.side(), PieceType::Pawn);
        Move::lemma_made(DOUBLE_PAWN_PUSH, square, to, self.side(), PieceType::Pawn);
        assert(made.code() == m.code());
    }

    proof fn lemma_push_ok(self, old: Seq<Move>, m: Move, square: usize, piece_type: PieceType)
        requires
            self.piece_move_ok(square, piece_type, m),
        ensures
            self.grows_by(old, old.push(m), square, piece_type),
    {
    }

    /// One more target square keeps the pawn's moves distinct: those made before land
    /// on squares already taken off `before`, the new ones, distinct, on `t`.
    proof fn lemma_targets_distinct(self, start: Seq<Move>, before_moves: Seq<Move>, moves: Seq<Move>, before: u64, rest: u64, t: u64)
        requires
            t < 64,
            has_sq(before, t),
            rest == before & !(1u64 << t),
            start.len() <= before_moves.len() <= moves.len(),
            forall|i: int| 0 <= i < before_moves.len() ==> moves[i] == before_moves[i],
            distinct_between(before_moves, start.len() as int, before_moves.len() as int),
            forall|i: int| start.len() <= i < before_moves.len() ==> !has_sq(before, (#[trigger] before_moves[i]).to_sq() as u64),
            distinct_between(moves, before_moves.len() as int, moves.len() as int),
            forall|i: int| before_moves.len() <= i < moves.len() ==> (#[trigger] moves[i]).to_sq() == t,
        ensures
            distinct_between(moves, start.len() as int, moves.len() as int),
            forall|i: int| start.len() <= i < moves.len() ==> !has_sq(rest, (#[trigger] moves[i]).to_sq() as u64),
    {
        reveal(distinct_between);
        lemma_has_sq_ops();
        lemma_distinct_kept(before_moves, moves, start.len() as int, before_moves.len() as int);
        assert forall|i: int, j: int| #![trigger moves[i], moves[j]]
            start.len() <= i < before_moves.len() && before_moves.len() <= j < moves.len() implies moves[i] != moves[j] by {
            assert(moves[i] == before_moves[i]);
            crate::moves::lemma_move_squares(moves[i]);
        }
        lemma_distinct_join(moves, start.len() as int, before_moves.len() as int, moves.len() as int);
        assert forall|i: int| start.len() <= i < moves.len() implies !has_sq(rest, (#[trigger] moves[i]).to_sq() as u64) by {
            crate::moves::lemma_move_squares(moves[i]);
            if i < before_moves.len() {
                assert(moves[i] == before_moves[i]);
            }
        }
    }

    /// Adds the four promotions of the pawn on `from` reaching `target_square`.
    fn add_promotion_moves(&self, capture: bool, from: usize, moves: &mut Vec<Move>, target_square: usize)
        ensures
            final(moves)@ == old(moves)@ + promotion_moves(capture, from, target_square, self.side()),
    {
        let flags: [u16; 4] = if capture {
            [KNIGHT_PROMOTION_CAPTURE, BISHOP_PROMOTION_CAPTURE, ROOK_PROMOTION_CAPTURE, QUEEN_PROMOTION_CAPTURE]
        } else {
            [KNIGHT_PROMOTION, BISHOP_PROMOTION, ROOK_PROMOTION, QUEEN_PROMOTION]
        };
        let ghost expected = promotion_moves(capture, from, target_square, self.side());
        let mut i: usize = 0;
        while i < 4
            invariant
                i <= 4,
                moves@.len() == old(moves)@.len() + i,
                forall|j: int| 0 <= j < old(moves)@.len() ==> moves@[j] == old(moves)@[j],
                forall|j: int| 0 <= j < i ==> moves@[old(moves)@.len() + j] == expected[j],
                expected == promotion_moves(capture, from, target_square, self.side()),
                forall|j: int| 0 <= j < 4 ==> #[trigger] expected[j] == Move::made(flags@[j], from, target_square, self.side(), PieceType::Pawn),
            decreases 4 - i,
        {
            moves.push(Move::with_flags(flags[i], from, target_square, self.side_to_move, PieceType::Pawn));
            i = i + 1;
        }
        assert(moves@ =~= old(moves)@ + expected);
    }

    /// The captures of the pawn on `square` onto opponent pieces it attacks, as
    /// promotions on the last rank.
    fn generate_pawn_attacks(&self, square: usize, attack_data: &AttackData, moves: &mut Vec<Move>)
        requires
            square < 64,
        ensures
            self.grows_by(old(moves)@, final(moves)@, square, PieceType::Pawn),
            lands_in(old(moves)@, attack_data.defenders_bb | attack_data.attack_bb) ==> lands_in(
                final(moves)@,
                attack_data.defenders_bb | attack_data.attack_bb,
            ),
            keeps_to(old(moves)@, attack_data.friendly_pins_moves_bbs@) ==> keeps_to(final(moves)@, attack_data.friendly_pins_moves_bbs@),
            forall|y: u64|
                y < 64 && has_sq(pawn_attacks_of(self.side(), square as int), y) && !has_sq(self.friendly(), y) && has_sq(
                    attack_data.friendly_pins_moves_bbs@[square as int],
                    y,
                ) && has_sq(attack_data.defenders_bb | attack_data.attack_bb, y) && has_sq(self.opponent(), y)
                    ==> #[trigger] has_move(final(moves)@, square as u64, y, PieceType::Pawn),
            follows_rules(old(moves)@, self.side(), self.opponent(), self.occupied()) ==> follows_rules(final(moves)@, self.side(), self.opponent(), self.occupied()),
            no_en_passant_after(final(moves)@, old(moves)@.len() as int),
            promotions_whole(old(moves)@) ==> promotions_whole(final(moves)@),
            distinct_between(final(moves)@, old(moves)@.len() as int, final(moves)@.len() as int),
            forall|i: int|
                old(moves)@.len() <= i < final(moves)@.len() ==> (#[trigger] final(moves)@[i]).flags() == CAPTURE
                    || final(moves)@[i].flags() >= KNIGHT_PROMOTION_CAPTURE,
    {
        let ghost mask = attack_data.defenders_bb | attack_data.attack_bb;
        let ghost lines = attack_data.friendly_pins_moves_bbs@;
        let raw_attacks = look_up_pawn_attacks(self.side_to_move, square);
        let attacks = (raw_attacks & !self.friendly_pieces_bb) & attack_data.friendly_pins_moves_bbs[square]
            & (attack_data.defenders_bb | attack_data.attack_bb) & self.opponent_pieces_bb;
        let mut rest = attacks;
        proof {
            lemma_has_sq_ops();
            assert forall|s: u64| s < 64 && #[trigger] has_sq(attacks, s) implies !has_sq(self.friendly(), s) && has_sq(self.opponent(), s)
                && has_sq(mask, s) && has_sq(lines[square as int], s) && has_sq(raw_attacks, s) by {
            }
            lemma_distinct_short(moves@, moves@.len() as int, moves@.len() as int);
        }
        while rest != 0
            invariant
                square < 64,
                self.grows_by(old(moves)@, moves@, square, PieceType::Pawn),
                lands_in(old(moves)@, mask) ==> lands_in(moves@, mask),
                keeps_to(old(moves)@, lines) ==> keeps_to(moves@, lines),
                mask == attack_data.defenders_bb | attack_data.attack_bb,
                lines == attack_data.friendly_pins_moves_bbs@,
                forall|s: u64| s < 64 && #[trigger] has_sq(attacks, s) ==> has_sq(mask, s) && has_sq(lines[square as int], s),
                forall|y: u64|
                    y < 64 && has_sq(attacks, y) && !has_sq(rest, y) ==> #[trigger] has_move(moves@, square as u64, y, PieceType::Pawn),
                follows_rules(old(moves)@, self.side(), self.opponent(), self.occupied()) ==> follows_rules(moves@, self.side(), self.opponent(), self.occupied()),
                no_en_passant_after(moves@, old(moves)@.len() as int),
                promotions_whole(old(moves)@) ==> promotions_whole(moves@),
                distinct_between(moves@, old(moves)@.len() as int, moves@.len() as int),
                forall|i: int| old(moves)@.len() <= i < moves@.len() ==> !has_sq(rest, (#[trigger] moves@[i]).to_sq() as u64),
                forall|i: int|
                    old(moves)@.len() <= i < moves@.len() ==> (#[trigger] moves@[i]).flags() == CAPTURE || moves@[i].flags()
                        >= KNIGHT_PROMOTION_CAPTURE,
                raw_attacks == pawn_attacks_of(self.side(), square as int),
                forall|s: u64| s < 64 && #[trigger] has_sq(attacks, s) ==> has_sq(raw_attacks, s),
                forall|s: u64| s < 64 && #[trigger] has_sq(rest, s) ==> has_sq(attacks, s),
                forall|s: u64| s < 64 && #[trigger] has_sq(attacks, s) ==> !has_sq(self.friendly(), s) && has_sq(self.opponent(), s),
                forall|a: u64, b: u64, s: u64|
                    s < 64 ==> (#[trigger] has_sq(a & b, s) == (has_sq(a, s) && has_sq(b, s))),
                forall|a: u64, s: u64| s < 64 ==> (#[trigger] has_sq(!a, s) == !has_sq(a, s)),
                forall|t: u64, s: u64| s < 64 && t < 64 ==> (#[trigger] has_sq(1u64 << t, s) == (s == t)),
            decreases squares_of(rest).len(),
        {
            let ghost before = rest;
            let ghost before_moves = moves@;
            let target_square = pop_lsb(&mut rest) as usize;
            proof {
                lemma_squares_pop(before, target_square as u64);
                assert(has_sq(before, target_square as u64));
                assert(has_sq(attacks, target_square as u64));
                assert(!has_sq(self.friendly(), target_square as u64));
            }
            let promotion = is_promotion_square(self.side_to_move, target_square);
            if promotion {
                self.add_promotion_moves(true, square, moves, target_square);
                proof {
                    let ps = promotion_moves(true, square, target_square, self.side());
                    self.lemma_made_ok(KNIGHT_PROMOTION_CAPTURE, square, target_square, PieceType::Pawn);
                    self.lemma_made_ok(BISHOP_PROMOTION_CAPTURE, square, target_square, PieceType::Pawn);
                    self.lemma_made_ok(ROOK_PROMOTION_CAPTURE, square, target_square, PieceType::Pawn);
                    self.lemma_made_ok(QUEEN_PROMOTION_CAPTURE, square, target_square, PieceType::Pawn);
                    assert(self.grows_by(before_moves, moves@, square, PieceType::Pawn));
                    self.lemma_grows_trans(old(moves)@, before_moves, moves@, square, PieceType::Pawn);
                    if lands_in(old(moves)@, mask) {
                        lemma_promotions_land(before_moves, true, square, target_square, self.side(), mask);
                    }
                    if keeps_to(old(moves)@, lines) {
                        lemma_promotions_keep(before_moves, true, square, target_square, self.side(), lines);
                    }
                    if follows_rules(old(moves)@, self.side(), self.opponent(), self.occupied()) {
                        lemma_promotions_follow(before_moves, true, square, target_square, self.side(), self.opponent(), self.occupied());
                    }
                    lemma_promotions_not_en_passant(before_moves, true, square, target_square, self.side());
                    lemma_no_en_passant_grow(before_moves, moves@, old(moves)@.len() as int);
                    if promotions_whole(old(moves)@) {
                        lemma_promotions_whole(true, square, target_square, self.side());
                        lemma_whole_append(before_moves, promotion_moves(true, square, target_square, self.side()));
                    }
                    lemma_promotions_distinct(before_moves, true, square, target_square, self.side());
                    self.lemma_targets_distinct(old(moves)@, before_moves, moves@, before, rest, target_square as u64);
                    assert forall|i: int| old(moves)@.len() <= i < moves@.len() implies (#[trigger] moves@[i]).flags() == CAPTURE
                        || moves@[i].flags() >= KNIGHT_PROMOTION_CAPTURE by {
                        if i < before_moves.len() {
                            assert(moves@[i] == before_moves[i]);
                        }
                    }
                }
            } else {
                let m = Move::with_flags(CAPTURE, square, target_square, self.side_to_move, PieceType::Pawn);
                proof {
                    self.lemma_made_ok(CAPTURE, square, target_square, PieceType::Pawn);
                    self.lemma_push_ok(before_moves, m, square, PieceType::Pawn);
                    Move::lemma_made(CAPTURE, square, target_square, self.side(), PieceType::Pawn);
                    if lands_in(old(moves)@, mask) {
                        lemma_lands_push(before_moves, m, mask);
                    }
                    if keeps_to(old(moves)@, lines) {
                        lemma_keeps_push(before_moves, m, lines);
                    }
                    if follows_rules(old(moves)@, self.side(), self.opponent(), self.occupied()) {
                        lemma_follows_push(before_moves, m, self.side(), self.opponent(), self.occupied());
                    }
                }
                moves.push(m);
                proof {
                    self.lemma_grows_trans(old(moves)@, before_moves, moves@, square, PieceType::Pawn);
                    assert(moves@[before_moves.len() as int] == m);
                    lemma_no_en_passant_grow(before_moves, moves@, old(moves)@.len() as int);
                    if promotions_whole(old(moves)@) {
                        lemma_whole_push(before_moves, m);
                    }
                    lemma_distinct_short(moves@, before_moves.len() as int, moves@.len() as int);
                    self.lemma_targets_distinct(old(moves)@, before_moves, moves@, before, rest, target_square as u64);
                    assert forall|i: int| old(moves)@.len() <= i < moves@.len() implies (#[trigger] moves@[i]).flags() == CAPTURE
                        || moves@[i].flags() >= KNIGHT_PROMOTION_CAPTURE by {
                        if i < before_moves.len() {
                            assert(moves@[i] == before_moves[i]);
                        }
                    }
                }
            }
            proof {
                assert forall|y: u64|
                    y < 64 && has_sq(attacks, y) && !has_sq(rest, y) implies #[trigger] has_move(moves@, square as u64, y, PieceType::Pawn) by {
                    if y == target_square as u64 {
                        if promotion {
                            lemma_promotion_has(before_moves, true, square, target_square, self.side());
                        }
                    } else {
                        assert(!has_sq(before, y));
                        lemma_has_move_kept(before_moves, moves@, square as u64, y, PieceType::Pawn);
                    }
                }
            }
        }
    }

    /// The double push of the pawn on `square` when both squares ahead are empty; the
    /// move carries the square it passes and the square it lands on.
    fn generate_double_pawn_push_move(&self, offset: Direction, raw_forward_one: u64, attack_data: &AttackData, square: usize, moves: &mut Vec<Move>)
        requires
            square < 64,
            self.occupied() == self.friendly() | self.opponent(),
            single(raw_forward_one),
            offset == pawn_dir(self.side()),
            raw_forward_one == step_spec(offset, 1u64 << (square as u64)) & !self.occupied(),
            pawn_initial_position(1u64 << (square as u64), self.side() == Color::White),
        ensures
            follows_rules(old(moves)@, self.side(), self.opponent(), self.occupied()) ==> follows_rules(final(moves)@, self.side(), self.opponent(), self.occupied()),

            forall|y: u64|
                y < 64 && has_sq(
                    ((step_spec(offset, raw_forward_one) & !self.occupied()) & attack_data.friendly_pins_moves_bbs@[square as int])
                        & attack_data.defenders_bb,
                    y,
                ) ==> #[trigger] has_move(final(moves)@, square as u64, y, PieceType::Pawn),
            self.grows_by(old(moves)@, final(moves)@, square, PieceType::Pawn),
            lands_in(old(moves)@, attack_data.defenders_bb | attack_data.attack_bb) ==> lands_in(
                final(moves)@,
                attack_data.defenders_bb | attack_data.attack_bb,
            ),
            keeps_to(old(moves)@, attack_data.friendly_pins_moves_bbs@) ==> keeps_to(final(moves)@, attack_data.friendly_pins_moves_bbs@),
            no_en_passant_after(final(moves)@, old(moves)@.len() as int),
            promotions_whole(old(moves)@) ==> promotions_whole(final(moves)@),
            final(moves)@.len() <= old(moves)@.len() + 1,
            forall|i: int| old(moves)@.len() <= i < final(moves)@.len() ==> (#[trigger] final(moves)@[i]).flags() == DOUBLE_PAWN_PUSH,
    {
        let mut forward_two = (offset.step(raw_forward_one) & !self.occupied_squares)
            & attack_data.friendly_pins_moves_bbs[square] & attack_data.defenders_bb;
        let ghost two = forward_two;
        proof {
            crate::bit_lemmas::lemma_step_single(offset, raw_forward_one);
            crate::bit_lemmas::lemma_single_and(step_spec(offset, raw_forward_one), !self.occupied());
            crate::bit_lemmas::lemma_single_and(step_spec(offset, raw_forward_one) & !self.occupied(), attack_data.friendly_pins_moves_bbs@[square as int]);
            crate::bit_lemmas::lemma_single_and(
                (step_spec(offset, raw_forward_one) & !self.occupied()) & attack_data.friendly_pins_moves_bbs@[square as int],
                attack_data.defenders_bb,
            );
            lemma_has_sq_ops();
        }
        if forward_two != 0 {
            let en_passant_bb_piece_square = forward_two;
            let target_square = pop_lsb(&mut forward_two) as usize;
            proof {
                lemma_has_sq_ops();
                assert(has_sq(en_passant_bb_piece_square, target_square as u64));
                crate::bit_lemmas::lemma_single_lsb(en_passant_bb_piece_square, target_square as u64);
                crate::bit_lemmas::lemma_square_single(square as u64);
                crate::bit_lemmas::lemma_step_single(offset, 1u64 << (square as u64));
                crate::bit_lemmas::lemma_single_kept(step_spec(offset, 1u64 << (square as u64)), !self.occupied());
                crate::bit_lemmas::lemma_step_empty(offset);
            }
            let mut m = Move::with_flags(DOUBLE_PAWN_PUSH, square, target_square, self.side_to_move, PieceType::Pawn);
            m.set_en_passant_bb_position(raw_forward_one);
            m.set_en_passant_bb_piece_square(en_passant_bb_piece_square);
            proof {
                self.lemma_double_push_ok(square, target_square, m);
                self.lemma_push_ok(old(moves)@, m, square, PieceType::Pawn);
                Move::lemma_made(DOUBLE_PAWN_PUSH, square, target_square, self.side(), PieceType::Pawn);
                if follows_rules(old(moves)@, self.side(), self.opponent(), self.occupied()) {
                    assert(has_sq(en_passant_bb_piece_square, target_square as u64));
                    lemma_follows_push(old(moves)@, m, self.side(), self.opponent(), self.occupied());
                }
                Move::lemma_made(DOUBLE_PAWN_PUSH, square, target_square, self.side(), PieceType::Pawn);
                if lands_in(old(moves)@, attack_data.defenders_bb | attack_data.attack_bb) {
                    assert(has_sq(attack_data.defenders_bb, target_square as u64));
                    lemma_lands_push(old(moves)@, m, attack_data.defenders_bb | attack_data.attack_bb);
                }
                if keeps_to(old(moves)@, attack_data.friendly_pins_moves_bbs@) {
                    assert(has_sq(attack_data.friendly_pins_moves_bbs@[square as int], target_square as u64));
                    lemma_keeps_push(old(moves)@, m, attack_data.friendly_pins_moves_bbs@);
                }
            }
            moves.push(m);
            proof {
                assert(moves@[old(moves)@.len() as int] == m);
                Move::lemma_made(DOUBLE_PAWN_PUSH, square, target_square, self.side(), PieceType::Pawn);
                if promotions_whole(old(moves)@) {
                    lemma_whole_push(old(moves)@, m);
                }
                assert forall|y: u64| y < 64 && has_sq(two, y) implies #[trigger] has_move(moves@, square as u64, y, PieceType::Pawn) by {
                    crate::bit_lemmas::lemma_single_square(two, target_square as u64, y);
                }
            }
        }
    }

    /// The en passant captures of the pawn on `square`, unless taking would uncover a
    /// check along the king's rank.
    fn generate_en_passant_move(&self, square: usize, board: &Board, attack_data: &AttackData, moves: &mut Vec<Move>)
        requires
            square < 64,
            attack_data.king_square < 64,
            !pawn_initial_position(1u64 << (square as u64), self.side() == Color::White),
        ensures
            self.grows_by(old(moves)@, final(moves)@, square, PieceType::Pawn),
            lands_in(old(moves)@, attack_data.defenders_bb | attack_data.attack_bb) ==> lands_in(
                final(moves)@,
                attack_data.defenders_bb | attack_data.attack_bb,
            ),
            keeps_to(old(moves)@, attack_data.friendly_pins_moves_bbs@) ==> keeps_to(final(moves)@, attack_data.friendly_pins_moves_bbs@),
            follows_rules(old(moves)@, self.side(), self.opponent(), self.occupied()) ==> follows_rules(final(moves)@, self.side(), self.opponent(), self.occupied()),
            forall|i: int|
                old(moves)@.len() <= i < final(moves)@.len() ==> (#[trigger] final(moves)@[i]).flags() == EN_PASSANT && has_sq(
                    board.ep(),
                    final(moves)@[i].to_sq() as u64,
                ),
            forall|y: u64|
                y < 64 && has_sq(pawn_attacks_of(self.side(), square as int), y) && !has_sq(self.friendly(), y) && has_sq(board.ep(), y)
                    && has_sq(attack_data.friendly_pins_moves_bbs@[square as int], y) && has_sq(
                    attack_data.defenders_bb | attack_data.attack_bb,
                    y,
                ) && !ep_discovered_check(self.side(), *attack_data, square, board.bbs(), board.eps())
                    ==> #[trigger] has_move(final(moves)@, square as u64, y, PieceType::Pawn),
            promotions_whole(old(moves)@) ==> promotions_whole(final(moves)@),
            distinct_between(final(moves)@, old(moves)@.len() as int, final(moves)@.len() as int),
    {
        let ghost mask = attack_data.defenders_bb | attack_data.attack_bb;
        let ghost lines = attack_data.friendly_pins_moves_bbs@;
        let ghost open = !ep_discovered_check(self.side(), *attack_data, square, board.bbs(), board.eps());
        let mut attacks = (look_up_pawn_attacks(self.side_to_move, square) & !self.friendly_pieces_bb)
            & board.get_en_passant_bb_position() & attack_data.friendly_pins_moves_bbs[square];
        if attack_data.defenders_bb == 0 && (attack_data.attack_bb & board.get_en_passant_piece_square_bb() != 0) {
            attacks = attacks & board.get_en_passant_bb_position();
        } else {
            attacks = attacks & (attack_data.defenders_bb | attack_data.attack_bb);
        }
        let ghost start = attacks;
        proof {
            lemma_has_sq_ops();
            lemma_distinct_short(moves@, moves@.len() as int, moves@.len() as int);
        }
        while attacks != 0 && !is_en_passant_discovered_check(self.side_to_move, attack_data, square, board)
            invariant
                square < 64,
                !pawn_initial_position(1u64 << (square as u64), self.side() == Color::White),
                attack_data.king_square < 64,
                open == !ep_discovered_check(self.side(), *attack_data, square, board.bbs(), board.eps()),
                promotions_whole(old(moves)@) ==> promotions_whole(moves@),
                forall|s: u64| s < 64 && #[trigger] has_sq(attacks, s) ==> has_sq(start, s),
                open ==> forall|y: u64|
                    y < 64 && has_sq(start, y) && !has_sq(attacks, y) ==> #[trigger] has_move(moves@, square as u64, y, PieceType::Pawn),
                self.grows_by(old(moves)@, moves@, square, PieceType::Pawn),
                lands_in(old(moves)@, mask) ==> lands_in(moves@, mask),
                keeps_to(old(moves)@, lines) ==> keeps_to(moves@, lines),
                follows_rules(old(moves)@, self.side(), self.opponent(), self.occupied()) ==> follows_rules(moves@, self.side(), self.opponent(), self.occupied()),
                lines == attack_data.friendly_pins_moves_bbs@,
                forall|s: u64| s < 64 && #[trigger] has_sq(attacks, s) ==> !has_sq(self.friendly(), s) && has_sq(lines[square as int], s)
                    && has_sq(pawn_attacks_of(self.side(), square as int), s) && has_sq(board.ep(), s),
                forall|i: int|
                    old(moves)@.len() <= i < moves@.len() ==> (#[trigger] moves@[i]).flags() == EN_PASSANT && has_sq(
                        board.ep(),
                        moves@[i].to_sq() as u64,
                    ),
                distinct_between(moves@, old(moves)@.len() as int, moves@.len() as int),
                forall|i: int| old(moves)@.len() <= i < moves@.len() ==> !has_sq(attacks, (#[trigger] moves@[i]).to_sq() as u64),
                forall|a: u64, b: u64, s: u64|
                    s < 64 ==> (#[trigger] has_sq(a & b, s) == (has_sq(a, s) && has_sq(b, s))),
                forall|a: u64, s: u64| s < 64 ==> (#[trigger] has_sq(!a, s) == !has_sq(a, s)),
                forall|t: u64, s: u64| s < 64 && t < 64 ==> (#[trigger] has_sq(1u64 << t, s) == (s == t)),
            decreases squares_of(attacks).len(),
        {
            let ghost before = attacks;
            let ghost before_moves = moves@;
            let target_square = pop_lsb(&mut attacks) as usize;
            proof {
                lemma_squares_pop(before, target_square as u64);
                assert(has_sq(before, target_square as u64));
                self.lemma_made_ok(EN_PASSANT, square, target_square, PieceType::Pawn);
            }
            let m = Move::with_flags(EN_PASSANT, square, target_square, self.side_to_move, PieceType::Pawn);
            proof {
                self.lemma_push_ok(before_moves, m, square, PieceType::Pawn);
                Move::lemma_made(EN_PASSANT, square, target_square, self.side(), PieceType::Pawn);
                if lands_in(old(moves)@, mask) {
                    lemma_lands_push(before_moves, m, mask);
                }
                if keeps_to(old(moves)@, lines) {
                    lemma_keeps_push(before_moves, m, lines);
                }
                if follows_rules(old(moves)@, self.side(), self.opponent(), self.occupied()) {
                    lemma_follows_push(before_moves, m, self.side(), self.opponent(), self.occupied());
                }
            }
            moves.push(m);
            proof {
                self.lemma_grows_trans(old(moves)@, before_moves, moves@, square, PieceType::Pawn);
                assert(moves@[before_moves.len() as int] == m);
                if promotions_whole(old(moves)@) {
                    lemma_whole_push(before_moves, m);
                }
                lemma_distinct_short(moves@, before_moves.len() as int, moves@.len() as int);
                self.lemma_targets_distinct(old(moves)@, before_moves, moves@, before, attacks, target_square as u64);
                assert forall|y: u64| y < 64 && has_sq(start, y) && !has_sq(attacks, y) && open implies #[trigger] has_move(
                    moves@,
                    square as u64,
                    y,
                    PieceType::Pawn,
                ) by {
                    if y == target_square as u64 {
                        assert(moves@[before_moves.len() as int].from_sq() == square);
                    } else {
                        assert(!has_sq(before, y));
                        lemma_has_move_kept(before_moves, moves@, square as u64, y, PieceType::Pawn);
                    }
                }
            }
        }
        proof {
            assert forall|y: u64|
                y < 64 && has_sq(pawn_attacks_of(self.side(), square as int), y) && !has_sq(self.friendly(), y) && has_sq(board.ep(), y)
                    && has_sq(lines[square as int], y) && has_sq(mask, y) && open implies #[trigger] has_move(
                moves@,
                square as u64,
                y,
                PieceType::Pawn,
            ) by {
                assert(has_sq(start, y));
                assert(!has_sq(attacks, y));
            }
        }
    }

    /// The single push of the pawn on `square` onto the free `target_square`: the four
    /// promotions on the last rank, a quiet move elsewhere.
    fn generate_pawn_push(&self, square: usize, target_square: usize, promotion: bool, attack_data: &AttackData, moves: &mut Vec<Move>)
        requires
            square < 64,
            target_square < 64,
            !has_sq(self.friendly(), target_square as u64),
            !has_sq(self.opponent(), target_square as u64),
            promotion == promotion_rank(self.side(), target_square as int),
            has_sq(attack_data.defenders_bb, target_square as u64),
            has_sq(attack_data.friendly_pins_moves_bbs@[square as int], target_square as u64),
            pawn_rule(self.side(), self.opponent(), self.occupied(), square as u64, target_square as u64),
            has_sq(step_spec(pawn_dir(self.side()), 1u64 << (square as u64)), target_square as u64),
        ensures
            self.grows_by(old(moves)@, final(moves)@, square, PieceType::Pawn),
            lands_in(old(moves)@, attack_data.defenders_bb | attack_data.attack_bb) ==> lands_in(
                final(moves)@,
                attack_data.defenders_bb | attack_data.attack_bb,
            ),
            keeps_to(old(moves)@, attack_data.friendly_pins_moves_bbs@) ==> keeps_to(final(moves)@, attack_data.friendly_pins_moves_bbs@),
            follows_rules(old(moves)@, self.side(), self.opponent(), self.occupied()) ==> follows_rules(final(moves)@, self.side(), self.opponent(), self.occupied()),
            no_en_passant_after(final(moves)@, old(moves)@.len() as int),
            promotions_whole(old(moves)@) ==> promotions_whole(final(moves)@),
            has_move(final(moves)@, square as u64, target_square as u64, PieceType::Pawn),
            distinct_between(final(moves)@, old(moves)@.len() as int, final(moves)@.len() as int),
            forall|i: int|
                old(moves)@.len() <= i < final(moves)@.len() ==> (#[trigger] final(moves)@[i]).flags() == NORMAL || (KNIGHT_PROMOTION
                    <= final(moves)@[i].flags() <= QUEEN_PROMOTION),
    {
        let ghost mask = attack_data.defenders_bb | attack_data.attack_bb;
        let ghost lines = attack_data.friendly_pins_moves_bbs@;
        let ghost before_moves = moves@;
        proof {
            lemma_has_sq_ops();
            lemma_one_not_two(self.side(), square as u64, target_square as u64);
        }
        if promotion {
            self.add_promotion_moves(false, square, moves, target_square);
            proof {
                self.lemma_made_ok(KNIGHT_PROMOTION, square, target_square, PieceType::Pawn);
                self.lemma_made_ok(BISHOP_PROMOTION, square, target_square, PieceType::Pawn);
                self.lemma_made_ok(ROOK_PROMOTION, square, target_square, PieceType::Pawn);
                self.lemma_made_ok(QUEEN_PROMOTION, square, target_square, PieceType::Pawn);
                assert(self.grows_by(before_moves, moves@, square, PieceType::Pawn));
                if lands_in(old(moves)@, mask) {
                    assert(has_sq(attack_data.defenders_bb, target_square as u64));
                    lemma_promotions_land(before_moves, false, square, target_square, self.side(), mask);
                }
                if keeps_to(old(moves)@, lines) {
                    assert(has_sq(lines[square as int], target_square as u64));
                    lemma_promotions_keep(before_moves, false, square, target_square, self.side(), lines);
                }
                if follows_rules(old(moves)@, self.side(), self.opponent(), self.occupied()) {
                    lemma_promotions_follow(before_moves, false, square, target_square, self.side(), self.opponent(), self.occupied());
                }
                lemma_promotions_not_en_passant(before_moves, false, square, target_square, self.side());
                lemma_promotion_has(before_moves, false, square, target_square, self.side());
                lemma_promotions_distinct(before_moves, false, square, target_square, self.side());
                if promotions_whole(old(moves)@) {
                    lemma_promotions_whole(false, square, target_square, self.side());
                    lemma_whole_append(before_moves, promotion_moves(false, square, target_square, self.side()));
                }
            }
        } else {
            let m = Move::from_to(square, target_square, self.side_to_move, PieceType::Pawn);
            proof {
                self.lemma_made_ok(NORMAL, square, target_square, PieceType::Pawn);
                self.lemma_push_ok(before_moves, m, square, PieceType::Pawn);
                Move::lemma_made(NORMAL, square, target_square, self.side(), PieceType::Pawn);
                if lands_in(old(moves)@, mask) {
                    assert(has_sq(attack_data.defenders_bb, target_square as u64));
                    lemma_lands_push(before_moves, m, mask);
                }
                if keeps_to(old(moves)@, lines) {
                    assert(has_sq(lines[square as int], target_square as u64));
                    lemma_keeps_push(before_moves, m, lines);
                }
                if follows_rules(old(moves)@, self.side(), self.opponent(), self.occupied()) {
                    lemma_follows_push(before_moves, m, self.side(), self.opponent(), self.occupied());
                }
            }
            moves.push(m);
            proof {
                assert(moves@[before_moves.len() as int] == m);
                assert(moves@[before_moves.len() as int] == Move::made(NORMAL, square, target_square, self.side(), PieceType::Pawn));
                lemma_distinct_short(moves@, before_moves.len() as int, moves@.len() as int);
                if promotions_whole(old(moves)@) {
                    lemma_whole_push(before_moves, m);
                }
            }
        }
    }

    /// The moves of the pawn on `square`: captures, the double push from the starting
    /// rank (or else en passant when a target square is open), and the single push,
    /// as promotions on the last rank.
    #[verifier::rlimit(50)]
    fn generate_pawn_moves(&self, board: &Board, moves: &mut Vec<Move>, square: usize, attack_data: &AttackData)
        requires
            square < 64,
            attack_data.king_square < 64,
            self.occupied() == self.friendly() | self.opponent(),
        ensures
            self.grows_by(old(moves)@, final(moves)@, square, PieceType::Pawn),
            lands_in(old(moves)@, attack_data.defenders_bb | attack_data.attack_bb) ==> lands_in(
                final(moves)@,
                attack_data.defenders_bb | attack_data.attack_bb,
            ),
            keeps_to(old(moves)@, attack_data.friendly_pins_moves_bbs@) ==> keeps_to(final(moves)@, attack_data.friendly_pins_moves_bbs@),
            forall|y: u64|
                y < 64 && pawn_target(
                    self.side(),
                    square as u64,
                    self.friendly(),
                    self.opponent(),
                    self.occupied(),
                    attack_data.friendly_pins_moves_bbs@[square as int],
                    attack_data.defenders_bb | attack_data.attack_bb,
                    attack_data.defenders_bb,
                    y,
                ) ==> #[trigger] has_move(final(moves)@, square as u64, y, PieceType::Pawn),
            follows_rules(old(moves)@, self.side(), self.opponent(), self.occupied()) ==> follows_rules(final(moves)@, self.side(), self.opponent(), self.occupied()),
            ep_lands(old(moves)@, board.ep()) ==> ep_lands(final(moves)@, board.ep()),
            promotions_whole(old(moves)@) ==> promotions_whole(final(moves)@),
            forall|y: u64|
                y < 64 && ep_target(
                    self.side(),
                    square as u64,
                    self.friendly(),
                    board.ep(),
                    attack_data.friendly_pins_moves_bbs@[square as int],
                    attack_data.defenders_bb | attack_data.attack_bb,
                    ep_discovered_check(self.side(), *attack_data, square, board.bbs(), board.eps()),
                    y,
                ) ==> #[trigger] has_move(final(moves)@, square as u64, y, PieceType::Pawn),
            distinct_between(final(moves)@, old(moves)@.len() as int, final(moves)@.len() as int),
    {
        let ghost mask = attack_data.defenders_bb | attack_data.attack_bb;
        let ghost lines = attack_data.friendly_pins_moves_bbs@;
        let ghost ep = board.ep();
        let ghost uncovered = ep_discovered_check(self.side(), *attack_data, square, board.bbs(), board.eps());
        self.generate_pawn_attacks(square, attack_data, moves);
        let ghost after_attacks = moves@;
        proof {
            if ep_lands(old(moves)@, ep) {
                lemma_ep_lands_grow(old(moves)@, after_attacks, ep);
            }
        }
        let pawn_bb_position = to_bitboard_position(square as u64);
        let white = self.side_to_move.is_white();
        let offset = if white { Direction::North } else { Direction::South };
        let raw_forward_one = offset.step(pawn_bb_position) & !self.occupied_squares;
        proof {
            crate::bit_lemmas::lemma_square_single(square as u64);
            crate::bit_lemmas::lemma_step_single(offset, pawn_bb_position);
            crate::bit_lemmas::lemma_single_and(step_spec(offset, pawn_bb_position), !self.occupied());
        }
        let mut forward_one = raw_forward_one & attack_data.friendly_pins_moves_bbs[square] & attack_data.defenders_bb;
        let ghost forward = forward_one;
        let initial = is_pawn_in_initial_position(pawn_bb_position, white);
        if initial {
            self.generate_double_pawn_push_move(offset, raw_forward_one, attack_data, square, moves);
            proof {
                if ep_lands(old(moves)@, ep) {
                    lemma_ep_lands_grow(after_attacks, moves@, ep);
                }
            }
        } else if board.get_en_passant_bb_position() != 0 {
            self.generate_en_passant_move(square, board, attack_data, moves);
            proof {
                if ep_lands(old(moves)@, ep) {
                    lemma_ep_lands_grow(after_attacks, moves@, ep);
                }
            }
        }
        let ghost after_pushes = moves@;
        proof {
            let o = old(moves)@.len() as int;
            let a = after_attacks.len() as int;
            if initial {
                lemma_distinct_short(moves@, a, moves@.len() as int);
            } else if moves@.len() == a {
                lemma_distinct_short(moves@, a, moves@.len() as int);
            }
            assert(distinct_between(moves@, a, moves@.len() as int));
            assert(forall|i: int| a <= i < moves@.len() ==> (#[trigger] moves@[i]).flags() == DOUBLE_PAWN_PUSH || moves@[i].flags() == EN_PASSANT);
            lemma_distinct_kept(after_attacks, moves@, o, a);
            assert forall|i: int, j: int| #![trigger moves@[i], moves@[j]] o <= i < a && a <= j < moves@.len() implies moves@[i]
                != moves@[j] by {
                assert(moves@[i] == after_attacks[i]);
            }
            lemma_distinct_join(moves@, o, a, moves@.len() as int);
            assert forall|i: int| o <= i < moves@.len() implies (#[trigger] moves@[i]).flags() == CAPTURE || moves@[i].flags()
                >= KNIGHT_PROMOTION_CAPTURE || moves@[i].flags() == DOUBLE_PAWN_PUSH || moves@[i].flags() == EN_PASSANT by {
                if i < a {
                    assert(moves@[i] == after_attacks[i]);
                }
            }
        }
        proof {
            lemma_has_sq_ops();
            assert forall|y: u64|
                y < 64 && ep_target(self.side(), square as u64, self.friendly(), ep, lines[square as int], mask, uncovered, y)
                implies #[trigger] has_move(after_pushes, square as u64, y, PieceType::Pawn) by {
                assert(ep != 0);
                assert(!initial);
            }
        }
        proof {
            self.lemma_grows_trans(old(moves)@, after_attacks, moves@, square, PieceType::Pawn);
            lemma_has_sq_ops();
            crate::bit_lemmas::lemma_single_and(raw_forward_one, attack_data.friendly_pins_moves_bbs@[square as int]);
            crate::bit_lemmas::lemma_single_and(raw_forward_one & attack_data.friendly_pins_moves_bbs@[square as int], attack_data.defenders_bb);
            assert forall|y: u64|
                y < 64 && pawn_target(
                    self.side(),
                    square as u64,
                    self.friendly(),
                    self.opponent(),
                    self.occupied(),
                    lines[square as int],
                    mask,
                    attack_data.defenders_bb,
                    y,
                ) && !has_sq(forward, y) implies #[trigger] has_move(moves@, square as u64, y, PieceType::Pawn) by {
                if has_sq(pawn_attacks_of(self.side(), square as int), y) && !has_sq(self.friendly(), y) && has_sq(lines[square as int], y)
                    && has_sq(mask, y) && has_sq(self.opponent(), y) {
                    assert(has_move(after_attacks, square as u64, y, PieceType::Pawn));
                    lemma_has_move_kept(after_attacks, moves@, square as u64, y, PieceType::Pawn);
                }
            }
        }
        if forward_one == 0 {
            return;
        }
        let ghost before_moves = moves@;
        let target_square = pop_lsb(&mut forward_one) as usize;
        proof {
            lemma_has_sq_ops();
            assert(has_sq(forward, target_square as u64));
            assert(!has_sq(self.friendly(), target_square as u64));
        }
        let promotion = is_promotion_square(self.side_to_move, target_square);
        proof {
            assert(has_sq(raw_forward_one, target_square as u64));
            assert(has_sq(attack_data.defenders_bb, target_square as u64));
            assert(has_sq(lines[square as int], target_square as u64));
            assert(pawn_rule(self.side(), self.opponent(), self.occupied(), square as u64, target_square as u64));
            assert(has_sq(step_spec(pawn_dir(self.side()), 1u64 << (square as u64)), target_square as u64));
        }
        self.generate_pawn_push(square, target_square, promotion, attack_data, moves);
        proof {
            if ep_lands(old(moves)@, ep) {
                lemma_ep_lands_grow(before_moves, moves@, ep);
            }
            let o = old(moves)@.len() as int;
            let p = after_pushes.len() as int;
            lemma_distinct_kept(after_pushes, moves@, o, p);
            assert forall|i: int, j: int| #![trigger moves@[i], moves@[j]] o <= i < p && p <= j < moves@.len() implies moves@[i]
                != moves@[j] by {
                assert(moves@[i] == after_pushes[i]);
                assert(after_pushes[i].flags() == CAPTURE || after_pushes[i].flags() >= KNIGHT_PROMOTION_CAPTURE
                    || after_pushes[i].flags() == DOUBLE_PAWN_PUSH || after_pushes[i].flags() == EN_PASSANT);
            }
            lemma_distinct_join(moves@, o, p, moves@.len() as int);
        }
        proof {
            self.lemma_grows_trans(old(moves)@, before_moves, moves@, square, PieceType::Pawn);
            assert forall|y: u64|
                y < 64 && pawn_target(
                    self.side(),
                    square as u64,
                    self.friendly(),
                    self.opponent(),
                    self.occupied(),
                    lines[square as int],
                    mask,
                    attack_data.defenders_bb,
                    y,
                ) implies #[trigger] has_move(moves@, square as u64, y, PieceType::Pawn) by {
                if has_sq(forward, y) {
                    crate::bit_lemmas::lemma_single_square(forward, target_square as u64, y);
                } else {
                    assert(has_move(before_moves, square as u64, y, PieceType::Pawn));
                    lemma_has_move_kept(before_moves, moves@, square as u64, y, PieceType::Pawn);
                }
            }
            assert forall|y: u64|
                y < 64 && ep_target(self.side(), square as u64, self.friendly(), ep, lines[square as int], mask, uncovered, y)
                implies #[trigger] has_move(moves@, square as u64, y, PieceType::Pawn) by {
                assert(has_move(after_pushes, square as u64, y, PieceType::Pawn));
                lemma_has_move_kept(after_pushes, moves@, square as u64, y, PieceType::Pawn);
            }
        }
    }

    /// The moves of the side to move on `board`. Each is a move of a piece of the side
    /// to move from its square that follows the moves of its piece (`follows_rules`),
    /// lands on no piece of its own (castling apart) and, as a capture, on an opponent
    /// piece; an en passant capture is a pawn's diagonal step onto the en passant
    /// square. The king steps only onto safe squares (`safe_for_king`); a pinned piece
    /// keeps to the line of a slider pinning it; in check, every other move (en passant
    /// apart) takes a checking piece or lands on the line from a checking slider to the
    /// king; in double check only the king moves; castling is made out of check, with
    /// the right held, an empty path to the rook and the king passing safe squares.
    /// Conversely every move of a knight, bishop, rook, queen or pawn these rules allow
    /// is there (an en passant capture from off the starting rank unless it would
    /// uncover a check along the king's rank), and so is every safe king step and
    /// every castle these rules allow (one king on each side). No move is listed twice.
    /// When no move is left, the opponent is made the winner.
    #[verifier::rlimit(90)]
    #[verifier::spinoff_prover]
    pub fn get_moves(&mut self, board: &mut Board) -> (r: Vec<Move>)
        requires
            old(self).wf(),
            old(board).wf(),
            old(board).winner_of().is_none(),
        ensures
            final(self).wf(),
            final(self).tracks(*old(board)),
            final(board).wf(),
            final(board).bbs() == old(board).bbs(),
            final(board).ep() == old(board).ep(),
            final(board).eps() == old(board).eps(),
            final(board).side() == old(board).side(),
            final(board).bkm() == old(board).bkm(),
            final(board).wkm() == old(board).wkm(),
            final(board).rights() == old(board).rights(),
            final(board).full() == old(board).full(),
            final(board).half() == old(board).half(),
            final(board).zob() == old(board).zob(),
            final(board).hash() == old(board).hash(),
            final(board).saved() == old(board).saved(),
            final(board).played() == old(board).played(),
            final(board).winner_of() == (if r@.len() == 0 {
                Some(opponent_of(old(board).side()))
            } else {
                None
            }),
            generator_list(*old(board), r@),
    {
        self.init(board);
        let mut attack_data = AttackData::new();
        attack_data.calculate_attack_data(board, self);
        let mut moves: Vec<Move> = Vec::new();
        let mut friendly_king_square: usize = usize::MAX;
        let mut friendly_pieces = self.friendly_pieces_bb;
        let ghost ad = attack_data;
        let ghost mask = attack_data.defenders_bb | attack_data.attack_bb;
        let ghost lines = attack_data.friendly_pins_moves_bbs@;
        let ghost all = friendly_pieces;
        let ghost defenders = attack_data.defenders_bb;
        proof {
            lemma_has_sq_ops();
        }
        assert(attack_data == ad);
        proof {
            lemma_distinct_short(moves@, 0, 0);
        }
        while friendly_pieces != 0
            invariant
                self.wf(),
                self.tracks(*board),
                attack_data.king_square < 64,
                attack_data.placed(*board),
                attack_data.in_double_check == king_in_double_check(
                    *board,
                    attack_data.king_square as int,
                    attack_data.king_bb_position,
                ),
                attack_data == ad,
                mask == attack_data.defenders_bb | attack_data.attack_bb,
                defenders == attack_data.defenders_bb,
                lines == attack_data.friendly_pins_moves_bbs@,
                all_ok(moves@, board.bbs(), board.side()),
                lands_in(moves@, attack_data.defenders_bb | attack_data.attack_bb),
                keeps_to(moves@, lines),
                no_king_moves(moves@),
                follows_rules(moves@, self.side(), self.opponent(), self.occupied()),
                ep_lands(moves@, board.ep()),
                promotions_whole(moves@),
                distinct_between(moves@, 0, moves@.len() as int),
                forall|i: int| 0 <= i < moves@.len() ==> !has_sq(friendly_pieces, (#[trigger] moves@[i]).from_sq() as u64),
                all == self.friendly(),
                forall|x: u64, y: u64, t: PieceType|
                    #[trigger] owed(*board, all, friendly_pieces, lines, mask, defenders, x, y, t) ==> has_move(moves@, x, y, t),
                forall|x: u64, y: u64| #[trigger] ep_owed(*board, ad, all, friendly_pieces, x, y) ==> has_move(moves@, x, y, PieceType::Pawn),
                forall|s: u64| s < 64 && #[trigger] has_sq(friendly_pieces, s) ==> has_sq(self.friendly(), s),
                friendly_king_square == usize::MAX || own_piece(*board, friendly_king_square, PieceType::King),
                own_piece(*board, ad.king_square, PieceType::King) && own_king(*board) == 1u64 << (ad.king_square as u64) ==> has_sq(
                    friendly_pieces,
                    ad.king_square as u64,
                ) || friendly_king_square == ad.king_square,
                forall|a: u64, b: u64, s: u64|
                    s < 64 ==> (#[trigger] has_sq(a & b, s) == (has_sq(a, s) && has_sq(b, s))),
                forall|a: u64, s: u64| s < 64 ==> (#[trigger] has_sq(!a, s) == !has_sq(a, s)),
                forall|t: u64, s: u64| s < 64 && t < 64 ==> (#[trigger] has_sq(1u64 << t, s) == (s == t)),
            decreases squares_of(friendly_pieces).len(),
        {
            let ghost before = friendly_pieces;
            let ghost before_moves = moves@;
            let square = pop_lsb(&mut friendly_pieces) as usize;
            proof {
                lemma_squares_pop(before, square as u64);
                assert(has_sq(before, square as u64));
            }
            let piece_type = board.get_piece_type(square);
            proof {
                assert(own_piece(*board, square, piece_type));
            }
            if piece_type == PieceType::Pawn {
                self.generate_pawn_moves(board, &mut moves, square, &attack_data);
                proof {
                    self.lemma_grows_ok(*board, before_moves, moves@, square, piece_type);
                    assert forall|i: int| 0 <= i < moves@.len() implies (#[trigger] moves@[i]).mover_type() != PieceType::King by {
                        if i < before_moves.len() {
                            assert(moves@[i] == before_moves[i]);
                        } else {
                            assert(self.piece_move_ok(square, PieceType::Pawn, moves@[i]));
                        }
                    }
                    assert forall|y: u64| #[trigger] owed(*board, all, friendly_pieces, lines, mask, defenders, square as u64, y, piece_type) implies has_move(
                        moves@,
                        square as u64,
                        y,
                        piece_type,
                    ) by {
                    }
                }
            } else if piece_type == PieceType::Knight {
                self.generate_knight_moves(&mut moves, square, &attack_data);
                proof {
                    let t = (KNIGHT_MOVES@[square as int] & !self.friendly()) & attack_data.friendly_pins_moves_bbs@[square as int]
                        & (attack_data.defenders_bb | attack_data.attack_bb);
                    lemma_no_square_empty(t & self.friendly());
                    lemma_created_ok(*board, t, square, piece_type);
                    lemma_all_ok_append(before_moves, created_moves(squares_of(t), square, self.side(), piece_type, self.opponent()), board.bbs(), board.side());
                    lemma_created_lands(t, mask, square, self.side(), piece_type, self.opponent());
                    lemma_lands_append(before_moves, created_moves(squares_of(t), square, self.side(), piece_type, self.opponent()), mask);
                    lemma_created_keeps(t, lines, square, self.side(), piece_type, self.opponent());
                    lemma_keeps_append(before_moves, created_moves(squares_of(t), square, self.side(), piece_type, self.opponent()), lines);
                    lemma_no_kings_append(before_moves, squares_of(t), square, self.side(), piece_type, self.opponent());
                    lemma_created_follows(t, square, self.side(), piece_type, self.opponent(), self.occupied());
                    lemma_follows_append(before_moves, created_moves(squares_of(t), square, self.side(), piece_type, self.opponent()), self.side(), self.opponent(), self.occupied());
                    lemma_created_not_en_passant(before_moves, t, square, self.side(), piece_type, self.opponent());
                    lemma_ep_lands_grow(before_moves, moves@, board.ep());
                    lemma_created_whole(t, square, self.side(), piece_type, self.opponent());
                    lemma_whole_append(before_moves, created_moves(squares_of(t), square, self.side(), piece_type, self.opponent()));
                    lemma_created_distinct(before_moves, t, square, self.side(), piece_type, self.opponent());
                    assert forall|y: u64| #[trigger] owed(*board, all, friendly_pieces, lines, mask, defenders, square as u64, y, piece_type) implies has_move(
                        moves@,
                        square as u64,
                        y,
                        piece_type,
                    ) by {
                        lemma_created_has(before_moves, t, square, y, self.side(), piece_type, self.opponent());
                    }
                }
            } else if piece_type == PieceType::Rook {
                self.generate_orthogonal_moves(board, &mut moves, square, PieceType::Rook, &attack_data);
                proof {
                    let t = orthogonal_attacks_spec(self.friendly() | board.bbs()[color_index(opponent_of(self.side())) as int], square as int)
                        & !self.friendly() & attack_data.friendly_pins_moves_bbs@[square as int] & (attack_data.defenders_bb | attack_data.attack_bb);
                    lemma_no_square_empty(t & self.friendly());
                    lemma_created_ok(*board, t, square, piece_type);
                    lemma_all_ok_append(before_moves, created_moves(squares_of(t), square, self.side(), piece_type, self.opponent()), board.bbs(), board.side());
                    lemma_created_lands(t, mask, square, self.side(), piece_type, self.opponent());
                    lemma_lands_append(before_moves, created_moves(squares_of(t), square, self.side(), piece_type, self.opponent()), mask);
                    lemma_created_keeps(t, lines, square, self.side(), piece_type, self.opponent());
                    lemma_keeps_append(before_moves, created_moves(squares_of(t), square, self.side(), piece_type, self.opponent()), lines);
                    lemma_no_kings_append(before_moves, squares_of(t), square, self.side(), piece_type, self.opponent());
                    lemma_created_follows(t, square, self.side(), piece_type, self.opponent(), self.occupied());
                    lemma_follows_append(before_moves, created_moves(squares_of(t), square, self.side(), piece_type, self.opponent()), self.side(), self.opponent(), self.occupied());
                    lemma_created_not_en_passant(before_moves, t, square, self.side(), piece_type, self.opponent());
                    lemma_ep_lands_grow(before_moves, moves@, board.ep());
                    lemma_created_whole(t, square, self.side(), piece_type, self.opponent());
                    lemma_whole_append(before_moves, created_moves(squares_of(t), square, self.side(), piece_type, self.opponent()));
                    lemma_created_distinct(before_moves, t, square, self.side(), piece_type, self.opponent());
                    assert forall|y: u64| #[trigger] owed(*board, all, friendly_pieces, lines, mask, defenders, square as u64, y, piece_type) implies has_move(
                        moves@,
                        square as u64,
                        y,
                        piece_type,
                    ) by {
                        lemma_created_has(before_moves, t, square, y, self.side(), piece_type, self.opponent());
                    }
                }
            } else if piece_type == PieceType::Bishop {
                self.generate_diagonal_moves(board, &mut moves, square, PieceType::Bishop, &attack_data);
                proof {
                    let t = diagonal_attacks_spec(self.friendly() | board.bbs()[color_index(opponent_of(self.side())) as int], square as int)
                        & !self.friendly() & attack_data.friendly_pins_moves_bbs@[square as int] & (attack_data.defenders_bb | attack_data.attack_bb);
                    lemma_no_square_empty(t & self.friendly());
                    lemma_created_ok(*board, t, square, piece_type);
                    lemma_all_ok_append(before_moves, created_moves(squares_of(t), square, self.side(), piece_type, self.opponent()), board.bbs(), board.side());
                    lemma_created_lands(t, mask, square, self.side(), piece_type, self.opponent());
                    lemma_lands_append(before_moves, created_moves(squares_of(t), square, self.side(), piece_type, self.opponent()), mask);
                    lemma_created_keeps(t, lines, square, self.side(), piece_type, self.opponent());
                    lemma_keeps_append(before_moves, created_moves(squares_of(t), square, self.side(), piece_type, self.opponent()), lines);
                    lemma_no_kings_append(before_moves, squares_of(t), square, self.side(), piece_type, self.opponent());
                    lemma_created_follows(t, square, self.side(), piece_type, self.opponent(), self.occupied());
                    lemma_follows_append(before_moves, created_moves(squares_of(t), square, self.side(), piece_type, self.opponent()), self.side(), self.opponent(), self.occupied());
                    lemma_created_not_en_passant(before_moves, t, square, self.side(), piece_type, self.opponent());
                    lemma_ep_lands_grow(before_moves, moves@, board.ep());
                    lemma_created_whole(t, square, self.side(), piece_type, self.opponent());
                    lemma_whole_append(before_moves, created_moves(squares_of(t), square, self.side(), piece_type, self.opponent()));
                    lemma_created_distinct(before_moves, t, square, self.side(), piece_type, self.opponent());
                    assert forall|y: u64| #[trigger] owed(*board, all, friendly_pieces, lines, mask, defenders, square as u64, y, piece_type) implies has_move(
                        moves@,
                        square as u64,
                        y,
                        piece_type,
                    ) by {
                        lemma_created_has(before_moves, t, square, y, self.side(), piece_type, self.opponent());
                    }
                }
            } else if piece_type == PieceType::Queen {
                self.generate_orthogonal_moves(board, &mut moves, square, PieceType::Queen, &attack_data);
                let ghost mid_moves = moves@;
                let ghost t_orth = orthogonal_attacks_spec(self.friendly() | board.bbs()[color_index(opponent_of(self.side())) as int], square as int)
                    & !self.friendly() & attack_data.friendly_pins_moves_bbs@[square as int] & (attack_data.defenders_bb | attack_data.attack_bb);
                proof {
                    let t = orthogonal_attacks_spec(self.friendly() | board.bbs()[color_index(opponent_of(self.side())) as int], square as int)
                        & !self.friendly() & attack_data.friendly_pins_moves_bbs@[square as int] & (attack_data.defenders_bb | attack_data.attack_bb);
                    lemma_no_square_empty(t & self.friendly());
                    lemma_created_ok(*board, t, square, piece_type);
                    lemma_all_ok_append(before_moves, created_moves(squares_of(t), square, self.side(), piece_type, self.opponent()), board.bbs(), board.side());
                    lemma_created_lands(t, mask, square, self.side(), piece_type, self.opponent());
                    lemma_lands_append(before_moves, created_moves(squares_of(t), square, self.side(), piece_type, self.opponent()), mask);
                    lemma_created_keeps(t, lines, square, self.side(), piece_type, self.opponent());
                    lemma_keeps_append(before_moves, created_moves(squares_of(t), square, self.side(), piece_type, self.opponent()), lines);
                    lemma_no_kings_append(before_moves, squares_of(t), square, self.side(), piece_type, self.opponent());
                    lemma_created_follows(t, square, self.side(), piece_type, self.opponent(), self.occupied());
                    lemma_follows_append(before_moves, created_moves(squares_of(t), square, self.side(), piece_type, self.opponent()), self.side(), self.opponent(), self.occupied());
                    lemma_created_not_en_passant(before_moves, t, square, self.side(), piece_type, self.opponent());
                    lemma_ep_lands_grow(before_moves, moves@, board.ep());
                    lemma_created_whole(t, square, self.side(), piece_type, self.opponent());
                    lemma_whole_append(before_moves, created_moves(squares_of(t), square, self.side(), piece_type, self.opponent()));
                    lemma_created_distinct(before_moves, t, square, self.side(), piece_type, self.opponent());
                    assert forall|y: u64| y < 64 && #[trigger] has_sq(t_orth, y) implies has_move(moves@, square as u64, y, piece_type) by {
                        lemma_created_has(before_moves, t, square, y, self.side(), piece_type, self.opponent());
                    }
                }
                self.generate_diagonal_moves(board, &mut moves, square, PieceType::Queen, &attack_data);
                proof {
                    let t = diagonal_attacks_spec(self.friendly() | board.bbs()[color_index(opponent_of(self.side())) as int], square as int)
                        & !self.friendly() & attack_data.friendly_pins_moves_bbs@[square as int] & (attack_data.defenders_bb | attack_data.attack_bb);
                    lemma_no_square_empty(t & self.friendly());
                    lemma_created_ok(*board, t, square, piece_type);
                    lemma_all_ok_append(mid_moves, created_moves(squares_of(t), square, self.side(), piece_type, self.opponent()), board.bbs(), board.side());
                    lemma_created_lands(t, mask, square, self.side(), piece_type, self.opponent());
                    lemma_lands_append(mid_moves, created_moves(squares_of(t), square, self.side(), piece_type, self.opponent()), mask);
                    lemma_created_keeps(t, lines, square, self.side(), piece_type, self.opponent());
                    lemma_keeps_append(mid_moves, created_moves(squares_of(t), square, self.side(), piece_type, self.opponent()), lines);
                    lemma_no_kings_append(mid_moves, squares_of(t), square, self.side(), piece_type, self.opponent());
                    lemma_created_follows(t, square, self.side(), piece_type, self.opponent(), self.occupied());
                    lemma_follows_append(mid_moves, created_moves(squares_of(t), square, self.side(), piece_type, self.opponent()), self.side(), self.opponent(), self.occupied());
                    lemma_created_not_en_passant(mid_moves, t, square, self.side(), piece_type, self.opponent());
                    lemma_ep_lands_grow(mid_moves, moves@, board.ep());
                    lemma_created_whole(t, square, self.side(), piece_type, self.opponent());
                    lemma_whole_append(mid_moves, created_moves(squares_of(t), square, self.side(), piece_type, self.opponent()));
                    lemma_created_distinct(mid_moves, t, square, self.side(), piece_type, self.opponent());
                    let b = before_moves.len() as int;
                    let m = mid_moves.len() as int;
                    lemma_distinct_kept(mid_moves, moves@, b, m);
                    let occ = self.friendly() | board.bbs()[color_index(opponent_of(self.side())) as int];
                    lemma_rook_bishop_apart(occ & ROOK_RELEVANT_SQUARES@[square as int], occ & BISHOP_RELEVANT_SQUARES@[square as int], square as u64);
                    lemma_has_sq_ops();
                    assert forall|i: int, j: int| #![trigger moves@[i], moves@[j]] b <= i < m && m <= j < moves@.len() implies moves@[i]
                        != moves@[j] by {
                        assert(moves@[i] == mid_moves[i]);
                        assert(has_sq(t_orth, moves@[i].to_sq() as u64));
                        assert(has_sq(t, moves@[j].to_sq() as u64));
                        assert(has_sq(orthogonal_attacks_spec(occ, square as int), moves@[i].to_sq() as u64));
                        assert(has_sq(diagonal_attacks_spec(occ, square as int), moves@[j].to_sq() as u64));
                    }
                    lemma_distinct_join(moves@, b, m, moves@.len() as int);
                    assert forall|i: int| b <= i < moves@.len() implies (#[trigger] moves@[i]).from_sq() == square by {
                        if i < m {
                            assert(moves@[i] == mid_moves[i]);
                        }
                    }
                    assert forall|y: u64| #[trigger] owed(*board, all, friendly_pieces, lines, mask, defenders, square as u64, y, piece_type) implies has_move(
                        moves@,
                        square as u64,
                        y,
                        piece_type,
                    ) by {
                        if has_sq(t, y) {
                            lemma_created_has(mid_moves, t, square, y, self.side(), piece_type, self.opponent());
                        } else {
                            assert(has_sq(t_orth, y));
                            assert(has_move(mid_moves, square as u64, y, piece_type));
                            lemma_has_move_kept(mid_moves, moves@, square as u64, y, piece_type);
                        }
                    }
                }
            } else if piece_type == PieceType::King {
                friendly_king_square = square;
            }
            proof {
                assert forall|y: u64| #[trigger] owed(*board, all, friendly_pieces, lines, mask, defenders, square as u64, y, piece_type) implies has_move(
                    moves@,
                    square as u64,
                    y,
                    piece_type,
                ) by {
                }
                lemma_owed_step(*board, all, before, lines, mask, defenders, before_moves, moves@, square, piece_type);
                assert forall|y: u64| #[trigger] ep_owed(*board, ad, all, before & !(1u64 << (square as u64)), square as u64, y) implies has_move(
                    moves@,
                    square as u64,
                    y,
                    PieceType::Pawn,
                ) by {
                }
                lemma_ep_owed_step(*board, ad, all, before, before_moves, moves@, square);
                if moves@.len() == before_moves.len() {
                    lemma_distinct_short(moves@, before_moves.len() as int, moves@.len() as int);
                }
                lemma_square_done(before_moves, moves@, before, friendly_pieces, square as u64);
                if own_piece(*board, ad.king_square, PieceType::King) && own_king(*board) == 1u64 << (ad.king_square as u64)
                    && square != ad.king_square && piece_type == PieceType::King {
                    let kb2 = board.bbs()[piece_type_index(PieceType::King) as int];
                    assert(has_sq(kb2, square as u64));
                    assert(has_sq(own_king(*board), square as u64));
                }
            }
        }
        let mut opponent_king = board.get_piece_positions(self.side_to_move.opponent(), PieceType::King);
        let ghost opponent_king_bb = opponent_king;
        let ghost allowed_before = attack_data.king_allowed_squares;
        let opponent_king_square = pop_lsb(&mut opponent_king) as usize;
        if opponent_king_square < 64 {
            attack_data.king_allowed_squares = attack_data.king_allowed_squares & !KING_MOVES[opponent_king_square];
        }
        let ghost allowed_final = attack_data.king_allowed_squares;
        let ghost before_king = moves@;
        if friendly_king_square < 64 {
            self.generate_king_moves(board, &mut moves, friendly_king_square, &attack_data);
        }
        proof {
            if friendly_king_square < 64 {
                assert forall|i: int| before_king.len() <= i < moves@.len() && (#[trigger] moves@[i]).flags() == EN_PASSANT implies has_sq(
                    board.ep(),
                    moves@[i].to_sq() as u64,
                ) by {
                    assert(generated_move_ok(board.bbs(), board.side(), moves@[i]));
                }
                lemma_ep_lands_grow(before_king, moves@, board.ep());
                assert forall|i: int| before_king.len() <= i < moves@.len() implies (#[trigger] moves@[i]).flags() < KNIGHT_PROMOTION by {
                    assert(generated_move_ok(board.bbs(), board.side(), moves@[i]));
                }
                lemma_whole_grow(before_king, moves@);
                lemma_lands_kings(before_king, moves@, mask);
                lemma_keeps_kings(before_king, moves@, lines);
                lemma_king_steps(before_king, moves@, allowed_final);
                assert(castles_ok(before_king, *board, attack_data.in_check, self.occupied(), allowed_final));
            } else {
                assert(king_steps_in(moves@, allowed_final));
                assert(castles_ok(moves@, *board, attack_data.in_check, self.occupied(), allowed_final));
            }
        }
        proof {
            if friendly_king_square < 64 {
                let b = before_king.len() as int;
                lemma_distinct_kept(before_king, moves@, 0, b);
                assert forall|i: int, j: int| #![trigger moves@[i], moves@[j]] 0 <= i < b && b <= j < moves@.len() implies moves@[i]
                    != moves@[j] by {
                    assert(moves@[i] == before_king[i]);
                    assert(before_king[i].mover_type() != PieceType::King);
                }
                lemma_distinct_join(moves@, 0, b, moves@.len() as int);
            }
        }
        let ghost ks = attack_data.king_square;
        let ghost kb = attack_data.king_bb_position;
        let ghost in_check_now = attack_data.in_check;
        let ghost occupied_now = self.occupied();
        proof {
            assert(kb == own_king(*board));
            assert(kb != 0 ==> is_lsb(kb, ks as u64));
        }
        let ghost moves_pre = moves@;
        proof {
            assert forall|x: u64, y: u64, t: PieceType|
                #[trigger] owed(*board, all, 0, lines, mask, defenders, x, y, t) implies has_move(moves_pre, x, y, t) by {
                assert(owed(*board, all, friendly_pieces, lines, mask, defenders, x, y, t));
                if friendly_king_square < 64 {
                    lemma_has_move_kept(before_king, moves_pre, x, y, t);
                }
            }
            assert forall|x: u64, y: u64| #[trigger] ep_owed(*board, ad, all, 0, x, y) implies has_move(moves_pre, x, y, PieceType::Pawn) by {
                assert(ep_owed(*board, ad, all, friendly_pieces, x, y));
                if friendly_king_square < 64 {
                    lemma_has_move_kept(before_king, moves_pre, x, y, PieceType::Pawn);
                }
            }
        }
        if attack_data.in_double_check {
            let mut kept: Vec<Move> = Vec::new();
            proof {
                lemma_distinct_short(kept@, 0, 0);
            }
            let mut i: usize = 0;
            while i < moves.len()
                invariant
                    i <= moves@.len(),
                    all_ok(moves@, board.bbs(), board.side()),
                    all_ok(kept@, board.bbs(), board.side()),
                    forall|j: int| 0 <= j < kept@.len() ==> #[trigger] kept@[j].from_sq() == friendly_king_square,
                    lands_in(moves@, mask),
                    lands_in(kept@, mask),
                    keeps_to(moves@, lines),
                    keeps_to(kept@, lines),
                    king_steps_in(moves@, allowed_final),
                    king_steps_in(kept@, allowed_final),
                    castles_ok(moves@, *board, in_check_now, occupied_now, allowed_final),
                    castles_ok(kept@, *board, in_check_now, occupied_now, allowed_final),
                    follows_rules(moves@, self.side(), self.opponent(), self.occupied()),
                    follows_rules(kept@, self.side(), self.opponent(), self.occupied()),
                    ep_lands(moves@, board.ep()),
                    ep_lands(kept@, board.ep()),
                    distinct_between(moves@, 0, moves@.len() as int),
                    distinct_between(kept@, 0, kept@.len() as int),
                    forall|j: int, k: int| #![trigger kept@[j], moves@[k]] 0 <= j < kept@.len() && i <= k < moves@.len() ==> kept@[j] != moves@[k],
                    mask == attack_data.defenders_bb | attack_data.attack_bb,
                    forall|j: int|
                        0 <= j < i && (#[trigger] moves@[j]).from_sq() == friendly_king_square ==> has_move(
                            kept@,
                            moves@[j].from_sq() as u64,
                            moves@[j].to_sq() as u64,
                            moves@[j].mover_type(),
                        ),
                decreases moves@.len() - i,
            {
                let m = moves[i];
                if m.get_from() == friendly_king_square {
                    let ghost prior = kept@;
                    kept.push(m);
                    proof {
                        assert(generated_move_ok(board.bbs(), board.side(), moves@[i as int]));
                        assert(generated_move_ok(board.bbs(), board.side(), seq![m][0]));
                        lemma_all_ok_append(prior, seq![m], board.bbs(), board.side());
                        assert(kept@ =~= prior + seq![m]);
                        assert(moves@[i as int] == m);
                        lemma_lands_push(prior, m, mask);
                        lemma_keeps_push(prior, m, lines);
                        lemma_king_steps_push(prior, m, allowed_final);
                        lemma_castles_push(prior, m, *board, in_check_now, occupied_now, allowed_final);
                        lemma_follows_push(prior, m, self.side(), self.opponent(), self.occupied());
                        lemma_ep_lands_grow(prior, kept@, board.ep());
                        assert(distinct_between(kept@, 0, kept@.len() as int)) by {
                            reveal(distinct_between);
                            assert forall|a: int, b: int| 0 <= a < b < kept@.len() implies #[trigger] kept@[a] != #[trigger] kept@[b] by {
                                assert(kept@[a] == prior[a]);
                                if b < prior.len() {
                                    assert(kept@[b] == prior[b]);
                                } else {
                                    assert(kept@[b] == moves@[i as int]);
                                }
                            }
                        }
                        assert forall|a: int, k: int| #![trigger kept@[a], moves@[k]] 0 <= a < kept@.len() && i + 1 <= k < moves@.len()
                            implies kept@[a] != moves@[k] by {
                            if a < prior.len() {
                                assert(kept@[a] == prior[a]);
                            } else {
                                assert(kept@[a] == moves@[i as int]);
                                reveal(distinct_between);
                            }
                        }
                        assert forall|j: int|
                            0 <= j < i + 1 && (#[trigger] moves@[j]).from_sq() == friendly_king_square implies has_move(
                                kept@,
                                moves@[j].from_sq() as u64,
                                moves@[j].to_sq() as u64,
                                moves@[j].mover_type(),
                            ) by {
                            if j < i {
                                lemma_has_move_kept(prior, kept@, moves@[j].from_sq() as u64, moves@[j].to_sq() as u64, moves@[j].mover_type());
                            } else {
                                crate::moves::lemma_move_squares(m);
                                assert(kept@[prior.len() as int] == m);
                            }
                        }
                    }
                }
                i = i + 1;
            }
            proof {
                assert forall|j: int| 0 <= j < kept@.len() implies #[trigger] kept@[j].mover_type() == PieceType::King by {
                    assert(generated_move_ok(board.bbs(), board.side(), kept@[j]));
                }
                assert forall|j: int| 0 <= j < kept@.len() implies (#[trigger] kept@[j]).flags() < KNIGHT_PROMOTION by {
                    assert(generated_move_ok(board.bbs(), board.side(), kept@[j]));
                    assert(kept@[j].mover_type() == PieceType::King);
                }
                lemma_whole_none(kept@);
            }
            moves = kept;
        }
        proof {
            assert forall|k: u64|
                #![trigger is_lsb(own_king(*board), k)]
                is_lsb(own_king(*board), k) && king_in_double_check(*board, k as int, own_king(*board))
                implies forall|i: int| 0 <= i < moves@.len() ==> #[trigger] moves@[i].mover_type() == PieceType::King by {
                crate::bit_lemmas::lemma_bit_identities();
                lemma_lsb_unique(own_king(*board), k, ks as u64);
            }
            assert forall|k: u64|
                #![trigger is_lsb(own_king(*board), k)]
                is_lsb(own_king(*board), k) && king_in_check(*board, k as int, own_king(*board))
                implies forall|i: int|
                    0 <= i < moves@.len() && (#[trigger] moves@[i]).mover_type() != PieceType::King && moves@[i].flags() != EN_PASSANT
                        ==> checker_on(*board, k as int, own_king(*board), moves@[i].to_sq() as u64)
                        || on_check_line(*board, k as int, own_king(*board), moves@[i].to_sq() as u64) by {
                crate::bit_lemmas::lemma_bit_identities();
                lemma_lsb_unique(own_king(*board), k, ks as u64);
                assert forall|i: int|
                    0 <= i < moves@.len() && (#[trigger] moves@[i]).mover_type() != PieceType::King && moves@[i].flags() != EN_PASSANT
                    implies checker_on(*board, k as int, own_king(*board), moves@[i].to_sq() as u64)
                        || on_check_line(*board, k as int, own_king(*board), moves@[i].to_sq() as u64) by {
                    crate::moves::lemma_move_squares(moves@[i]);
                    assert(has_sq(mask, moves@[i].to_sq() as u64));
                }
            }
            assert forall|k: u64|
                #![trigger is_lsb(own_king(*board), k)]
                is_lsb(own_king(*board), k) implies forall|i: int|
                    0 <= i < moves@.len() && (#[trigger] moves@[i]).mover_type() != PieceType::King && pinned(
                        *board,
                        k as int,
                        own_king(*board),
                        moves@[i].from_sq() as u64,
                    ) ==> exists|t: PieceType, s: u64|
                        #[trigger] pins_square(*board, k as int, own_king(*board), t, s, moves@[i].from_sq() as u64)
                            && has_sq(pin_line(s, k as int, own_king(*board)), moves@[i].to_sq() as u64) by {
                crate::bit_lemmas::lemma_bit_identities();
                lemma_lsb_unique(own_king(*board), k, ks as u64);
                assert forall|i: int|
                    0 <= i < moves@.len() && (#[trigger] moves@[i]).mover_type() != PieceType::King && pinned(
                        *board,
                        k as int,
                        own_king(*board),
                        moves@[i].from_sq() as u64,
                    ) implies exists|t: PieceType, s: u64|
                        #[trigger] pins_square(*board, k as int, own_king(*board), t, s, moves@[i].from_sq() as u64)
                            && has_sq(pin_line(s, k as int, own_king(*board)), moves@[i].to_sq() as u64) by {
                    crate::moves::lemma_move_squares(moves@[i]);
                    let x = moves@[i].from_sq() as u64;
                    assert(has_sq(lines[x as int], moves@[i].to_sq() as u64));
                    let (t, s) = choose|t: PieceType, s: u64|
                        #[trigger] pins_square(*board, k as int, own_king(*board), t, s, x)
                            && lines[x as int] == pin_line(s, k as int, own_king(*board));
                    assert(pins_square(*board, k as int, own_king(*board), t, s, x));
                }
            }
            assert forall|k: u64|
                #![trigger is_lsb(own_king(*board), k)]
                is_lsb(own_king(*board), k) implies forall|x: u64, y: u64, t: PieceType|
                    x < 64 && y < 64 && is_reaching_piece(t) && own_piece(*board, x as usize, t) && reaches(*board, t, x, y)
                        && target_allowed(*board, k as int, own_king(*board), x, y) ==> #[trigger] has_move(moves@, x, y, t) by {
                crate::bit_lemmas::lemma_bit_identities();
                lemma_lsb_unique(own_king(*board), k, ks as u64);
                assert forall|x: u64, y: u64, t: PieceType|
                    x < 64 && y < 64 && is_reaching_piece(t) && own_piece(*board, x as usize, t) && reaches(*board, t, x, y)
                        && target_allowed(*board, k as int, own_king(*board), x, y) implies #[trigger] has_move(moves@, x, y, t) by {
                    assert(!ad.in_double_check);
                    assert(moves@ == moves_pre);
                    if pinned(*board, k as int, own_king(*board), x) {
                        let (t2, s2) = choose|t2: PieceType, s2: u64|
                            #[trigger] pins_square(*board, k as int, own_king(*board), t2, s2, x) && lines[x as int] == pin_line(
                                s2,
                                k as int,
                                own_king(*board),
                            );
                        assert(pins_square(*board, k as int, own_king(*board), t2, s2, x));
                    }
                    assert(has_sq(lines[x as int], y));
                    assert(has_sq(mask, y));
                    assert(owed(*board, all, 0, lines, mask, defenders, x, y, t));
                }
            }
            assert forall|k: u64|
                k < 64 && own_piece(*board, k as usize, PieceType::King) && #[trigger] own_king(*board) == 1u64 << k
                    && opponent_of_type(*board, PieceType::King) != 0 implies forall|y: u64|
                    y < 64 && has_sq(KING_MOVES@[k as int], y) && !has_sq(own_pieces(*board), y) && safe_for_king(
                        *board,
                        k as int,
                        own_king(*board),
                        y,
                    ) ==> #[trigger] has_move(moves@, k, y, PieceType::King) by {
                crate::bit_lemmas::lemma_bit_identities();
                crate::bit_lemmas::lemma_square_single(k);
                assert(is_lsb(own_king(*board), k));
                lemma_lsb_unique(own_king(*board), k, ks as u64);
                assert(friendly_king_square == ks);
                assert forall|y: u64|
                    y < 64 && has_sq(KING_MOVES@[k as int], y) && !has_sq(own_pieces(*board), y) && safe_for_king(
                        *board,
                        k as int,
                        own_king(*board),
                        y,
                    ) implies #[trigger] has_move(moves@, k, y, PieceType::King) by {
                    assert(has_sq(allowed_before, y));
                    assert(is_lsb(opponent_king_bb, opponent_king_square as u64));
                    assert(!has_sq(KING_MOVES@[opponent_king_square as int], y));
                    assert(has_sq(allowed_final, y));
                    assert(has_move(moves_pre, k, y, PieceType::King));
                    if ad.in_double_check {
                        let j = choose|j: int|
                            0 <= j < moves_pre.len() && (#[trigger] moves_pre[j]).from_sq() == k && moves_pre[j].to_sq() == y
                                && moves_pre[j].mover_type() == PieceType::King;
                        assert(moves_pre[j].from_sq() == friendly_king_square);
                    }
                }
            }
            assert forall|k: u64|
                #![trigger is_lsb(own_king(*board), k)]
                is_lsb(own_king(*board), k) implies forall|x: u64, y: u64|
                    x < 64 && y < 64 && own_piece(*board, x as usize, PieceType::Pawn) && pawn_reaches(*board, x, y)
                        && target_allowed(*board, k as int, own_king(*board), x, y) ==> #[trigger] has_move(
                        moves@,
                        x,
                        y,
                        PieceType::Pawn,
                    ) by {
                crate::bit_lemmas::lemma_bit_identities();
                lemma_lsb_unique(own_king(*board), k, ks as u64);
                assert forall|x: u64, y: u64|
                    x < 64 && y < 64 && own_piece(*board, x as usize, PieceType::Pawn) && pawn_reaches(*board, x, y)
                        && target_allowed(*board, k as int, own_king(*board), x, y) implies #[trigger] has_move(
                        moves@,
                        x,
                        y,
                        PieceType::Pawn,
                    ) by {
                    assert(!ad.in_double_check);
                    assert(moves@ == moves_pre);
                    if pinned(*board, k as int, own_king(*board), x) {
                        let (t2, s2) = choose|t2: PieceType, s2: u64|
                            #[trigger] pins_square(*board, k as int, own_king(*board), t2, s2, x) && lines[x as int] == pin_line(
                                s2,
                                k as int,
                                own_king(*board),
                            );
                        assert(pins_square(*board, k as int, own_king(*board), t2, s2, x));
                    }
                    assert(has_sq(lines[x as int], y));
                    if checker_on(*board, k as int, own_king(*board), y) {
                        let t3 = choose|t3: PieceType| #[trigger] gives_check(*board, k as int, own_king(*board), t3, y);
                        assert(has_sq(opponent_of_type(*board, t3), y));
                        assert(has_sq(opponent_pieces(*board), y));
                    }
                    assert(has_sq(mask, y));
                    if !has_sq(opponent_pieces(*board), y) && !has_sq(own_pieces(*board), y) {
                        assert(has_sq(defenders, y));
                    }
                    assert(owed(*board, all, 0, lines, mask, defenders, x, y, PieceType::Pawn));
                }
            }
            lemma_ep_complete(*board, ad, all, moves_pre, moves@);
            lemma_list_makeable(*board, moves@);
            assert forall|k: u64|
                k < 64 && own_piece(*board, k as usize, PieceType::King) && #[trigger] own_king(*board) == 1u64 << k
                    && opponent_of_type(*board, PieceType::King) != 0 && !king_in_check(*board, k as int, own_king(*board))
                    && board.queen_side_right(board.side())
                    && (own_pieces(*board) | opponent_pieces(*board)) & queen_side_path(board.side()) == 0 && k % 8 >= 2
                    && safe_for_king(*board, k as int, own_king(*board), (k - 1) as u64)
                    && safe_for_king(*board, k as int, own_king(*board), (k - 2) as u64)
                implies has_move(moves@, k, (k - 2) as u64, PieceType::King) by {
                crate::bit_lemmas::lemma_bit_identities();
                crate::bit_lemmas::lemma_square_single(k);
                assert(is_lsb(own_king(*board), k));
                lemma_lsb_unique(own_king(*board), k, ks as u64);
                assert(friendly_king_square == ks);
                assert(!in_check_now);
                assert(moves@ == moves_pre);
                assert(is_lsb(opponent_king_bb, opponent_king_square as u64));
                assert(has_sq(allowed_before, (k - 1) as u64));
                assert(has_sq(allowed_final, (k - 1) as u64));
                assert(has_sq(allowed_before, (k - 2) as u64));
                assert(has_sq(allowed_final, (k - 2) as u64));
            }
            assert forall|k: u64|
                k < 64 && own_piece(*board, k as usize, PieceType::King) && #[trigger] own_king(*board) == 1u64 << k
                    && opponent_of_type(*board, PieceType::King) != 0 && !king_in_check(*board, k as int, own_king(*board))
                    && board.king_side_right(board.side())
                    && (own_pieces(*board) | opponent_pieces(*board)) & king_side_path(board.side()) == 0 && k % 8 <= 5
                    && safe_for_king(*board, k as int, own_king(*board), (k + 1) as u64)
                    && safe_for_king(*board, k as int, own_king(*board), (k + 2) as u64)
                implies has_move(moves@, k, (k + 2) as u64, PieceType::King) by {
                crate::bit_lemmas::lemma_bit_identities();
                crate::bit_lemmas::lemma_square_single(k);
                assert(is_lsb(own_king(*board), k));
                lemma_lsb_unique(own_king(*board), k, ks as u64);
                assert(friendly_king_square == ks);
                assert(!in_check_now);
                assert(moves@ == moves_pre);
                assert(is_lsb(opponent_king_bb, opponent_king_square as u64));
                assert(has_sq(allowed_before, (k + 1) as u64));
                assert(has_sq(allowed_final, (k + 1) as u64));
                assert(has_sq(allowed_before, (k + 2) as u64));
                assert(has_sq(allowed_final, (k + 2) as u64));
            }
            assert forall|y: u64| has_sq(allowed_final, y) && y < 64 implies #[trigger] safe_for_king(*board, ks as int, kb, y) by {
                crate::bit_lemmas::lemma_bit_identities();
                assert(has_sq(allowed_before, y));
                assert forall|k2: u64| is_lsb(opponent_of_type(*board, PieceType::King), k2) implies !#[trigger] has_sq(
                    KING_MOVES@[k2 as int],
                    y,
                ) by {
                    lemma_lsb_unique(opponent_king_bb, k2, opponent_king_square as u64);
                }
            }
            assert forall|k: u64|
                #![trigger is_lsb(own_king(*board), k)]
                is_lsb(own_king(*board), k) implies forall|i: int|
                    0 <= i < moves@.len() && (#[trigger] moves@[i]).mover_type() == PieceType::King && moves@[i].flags() != KING_CASTLE
                        && moves@[i].flags() != QUEEN_CASTLE ==> safe_for_king(*board, k as int, own_king(*board), moves@[i].to_sq() as u64) by {
                crate::bit_lemmas::lemma_bit_identities();
                lemma_lsb_unique(own_king(*board), k, ks as u64);
                assert forall|i: int| 0 <= i < moves@.len() implies #[trigger] moves@[i].to_sq() < 64 by {
                    crate::moves::lemma_move_squares(moves@[i]);
                }
            }
            assert forall|k: u64|
                #![trigger is_lsb(own_king(*board), k)]
                is_lsb(own_king(*board), k) implies (forall|i: int|
                    0 <= i < moves@.len() && (#[trigger] moves@[i]).mover_type() == PieceType::King && moves@[i].flags() == QUEEN_CASTLE ==> {
                        &&& !king_in_check(*board, k as int, own_king(*board))
                        &&& board.queen_side_right(board.side())
                        &&& (own_pieces(*board) | opponent_pieces(*board)) & queen_side_path(board.side()) == 0
                        &&& moves@[i].to_sq() + 2 == moves@[i].from_sq()
                        &&& safe_for_king(*board, k as int, own_king(*board), (moves@[i].from_sq() - 1) as u64)
                        &&& safe_for_king(*board, k as int, own_king(*board), moves@[i].to_sq() as u64)
                    }) && (forall|i: int|
                    0 <= i < moves@.len() && (#[trigger] moves@[i]).mover_type() == PieceType::King && moves@[i].flags() == KING_CASTLE ==> {
                        &&& !king_in_check(*board, k as int, own_king(*board))
                        &&& board.king_side_right(board.side())
                        &&& (own_pieces(*board) | opponent_pieces(*board)) & king_side_path(board.side()) == 0
                        &&& moves@[i].to_sq() == moves@[i].from_sq() + 2
                        &&& safe_for_king(*board, k as int, own_king(*board), (moves@[i].from_sq() + 1) as u64)
                        &&& safe_for_king(*board, k as int, own_king(*board), moves@[i].to_sq() as u64)
                    }) by {
                crate::bit_lemmas::lemma_bit_identities();
                lemma_lsb_unique(own_king(*board), k, ks as u64);
                assert forall|i: int| 0 <= i < moves@.len() implies #[trigger] moves@[i].from_sq() < 64 && moves@[i].to_sq() < 64 by {
                    crate::moves::lemma_move_squares(moves@[i]);
                }
            }
        }
        proof {
            assert(forall|i: int, j: int| 0 <= i < j < moves@.len() ==> #[trigger] moves@[i] != #[trigger] moves@[j]) by {
                reveal(distinct_between);
            }
        }
        if moves.len() == 0 {
            board.set_winner(Some(self.side_to_move.opponent()));
        }
        moves
    }

    /// The rook entries (square, blockers, moves) the generator was built from.
    pub closed spec fn rook_entries(self) -> Seq<((u8, u64), u64)> {
        self.rook_lookup_hash_table@
    }

    /// The bishop entries (square, blockers, moves) the generator was built from.
    pub closed spec fn bishop_entries(self) -> Seq<((u8, u64), u64)> {
        self.bishop_lookup_hash_table@
    }

    /// The rook moves laid out by magic number, one row per square.
    pub closed spec fn rook_table(self) -> Seq<Vec<(u64, u64)>> {
        self.rook_lookup_table@
    }

    /// The bishop moves laid out by magic number, one row per square.
    pub closed spec fn bishop_table(self) -> Seq<Vec<(u64, u64)>> {
        self.bishop_lookup_table@
    }

    /// Searches magic numbers for the rook table (see `magics::find_magics`).
    pub fn find_magics(&self) -> (r: MagicSearch)
        ensures
            forall|sq: int| 0 <= sq < 64 && #[trigger] r.magics@[sq] != 0 ==> magic_found_fits(self.rook_entries(), ROOK_RELEVANT_SQUARES@[sq], sq, r),
            forall|sq: int| 0 <= sq < 64 && #[trigger] r.magics@[sq] == 0 ==> r.shifts@[sq] == 0,
            forall|sq: int| 0 <= sq < 64 ==> #[trigger] r.key_counts@[sq] == crate::move_generator::magics::square_keys(self.rook_entries(), sq as u8).len(),
            forall|sq: int| 0 <= sq < 64 ==> #[trigger] r.collision_counts@[sq] <= 1_000_000,
    {
        crate::move_generator::magics::find_magics(&self.rook_lookup_hash_table, ROOK_RELEVANT_SQUARES)
    }

    /// A generator with the slider tables built: the entry tables hold every blocker
    /// pattern of every square (see `create_lookup_table`), and each magic table is
    /// complete whenever the fixed magic numbers and shifts fit its entries.
    pub fn new() -> (r: Self)
        ensures
            r.wf(),
            keys_unique(r.bishop_entries()),
            keys_unique(r.rook_entries()),
            forall|sq: int, p: int|
                0 <= sq < 64 && 0 <= p < pow2(count_bits(slider_mask(Slider::Bishop, BISHOP_RELEVANT_SQUARES@[sq], sq), 64))
                    && count_bits(slider_mask(Slider::Bishop, BISHOP_RELEVANT_SQUARES@[sq], sq), 64) < 32
                    ==> r.bishop_entries().contains(#[trigger] pattern_entry(Slider::Bishop, BISHOP_RELEVANT_SQUARES@[sq], sq, p)),
            forall|sq: int, p: int|
                0 <= sq < 64 && 0 <= p < pow2(count_bits(slider_mask(Slider::Rook, ROOK_RELEVANT_SQUARES@[sq], sq), 64))
                    && count_bits(slider_mask(Slider::Rook, ROOK_RELEVANT_SQUARES@[sq], sq), 64) < 32
                    ==> r.rook_entries().contains(#[trigger] pattern_entry(Slider::Rook, ROOK_RELEVANT_SQUARES@[sq], sq, p)),
            magics_fit(r.bishop_entries(), BISHOP_MAGICS@, BISHOP_SHIFTS@) ==> magic_table_complete(
                r.bishop_entries(),
                r.bishop_table(),
                BISHOP_MAGICS@,
                BISHOP_SHIFTS@,
            ),
            magics_fit(r.rook_entries(), ROOK_MAGICS@, ROOK_SHIFTS@) ==> magic_table_complete(
                r.rook_entries(),
                r.rook_table(),
                ROOK_MAGICS@,
                ROOK_SHIFTS@,
            ),
    {
        let bishop_lookup_hash_table = RawMoveGenerator::create_bishop_lookup_table();
        let rook_lookup_hash_table = RawMoveGenerator::create_rook_lookup_table();
        let mut bishop_lookup_table: Vec<Vec<(u64, u64)>> = Vec::new();
        let mut rook_lookup_table: Vec<Vec<(u64, u64)>> = Vec::new();
        fill_magics_lookup_table(
            &rook_lookup_hash_table,
            &mut rook_lookup_table,
            ROOK_MAGICS,
            ROOK_SHIFTS,
            PieceType::Rook,
        );
        fill_magics_lookup_table(
            &bishop_lookup_hash_table,
            &mut bishop_lookup_table,
            BISHOP_MAGICS,
            BISHOP_SHIFTS,
            PieceType::Bishop,
        );
        MoveGenerator {
            bishop_lookup_hash_table,
            rook_lookup_hash_table,
            bishop_lookup_table,
            rook_lookup_table,
            friendly_pieces_bb: 0,
            opponent_pieces_bb: 0,
            occupied_squares: 0,
            side_to_move: Color::White,
            attack_data: AttackData::new(),
        }
    }

    /// Takes the pieces of both sides from `board`.
    pub fn init(&mut self, board: &Board)
        requires
            old(self).wf(),
        ensures
            final(self).wf(),
            final(self).side() == board.side(),
            final(self).friendly() == board.bbs()[color_index(board.side()) as int],
            final(self).opponent() == board.bbs()[color_index(opponent_of(board.side())) as int],
            final(self).occupied() == final(self).friendly() | final(self).opponent(),
    {
        self.side_to_move = board.get_side_to_move();
        self.friendly_pieces_bb = board.get_player_pieces_positions(self.side_to_move);
        self.opponent_pieces_bb = board.get_player_pieces_positions(self.side_to_move.opponent());
        self.occupied_squares = self.friendly_pieces_bb | self.opponent_pieces_bb;
    }

    /// The squares a bishop of `color` on `square` attacks, the first piece on each
    /// diagonal included, whatever its color.
    pub fn get_diagonal_attacks(&self, board: &Board, color: Color, square: usize, friendly_pieces_bb: &u64) -> (r: u64)
        requires
            self.wf(),
            square < 64,
        ensures
            r == diagonal_attacks_spec(
                *friendly_pieces_bb | board.bbs()[color_index(opponent_of(color)) as int],
                square as int,
            ),
    {
        let opponent_pieces_bb = board.get_player_pieces_positions(color.opponent());
        let occupied_relevant_squares = (*friendly_pieces_bb | opponent_pieces_bb)
            & BISHOP_RELEVANT_SQUARES[square];
        let shift = BISHOP_SHIFTS[square];
        if shift < 64 {
            let hash: u64 = occupied_relevant_squares.wrapping_mul(BISHOP_MAGICS[square]) >> shift;
            let row = &self.bishop_lookup_table[square];
            if hash < row.len() as u64 {
                let entry = row[hash as usize];
                if entry.1 != 0 && entry.0 == occupied_relevant_squares {
                    return entry.1;
                }
            }
        }
        RawMoveGenerator::generate_bishop_moves(occupied_relevant_squares, 0, 1u64 << (square as u64))
    }

    /// The squares a rook of `color` on `square` attacks, the first piece on each line
    /// included, whatever its color.
    pub fn get_orthogonal_attacks(&self, board: &Board, color: Color, square: usize, friendly_pieces_bb: &u64) -> (r: u64)
        requires
            self.wf(),
            square < 64,
        ensures
            r == orthogonal_attacks_spec(
                *friendly_pieces_bb | board.bbs()[color_index(opponent_of(color)) as int],
                square as int,
            ),
    {
        let opponent_pieces_bb = board.get_player_pieces_positions(color.opponent());
        let occupied_relevant_squares = (*friendly_pieces_bb | opponent_pieces_bb)
            & ROOK_RELEVANT_SQUARES[square];
        let shift = ROOK_SHIFTS[square];
        if shift < 64 {
            let hash: u64 = occupied_relevant_squares.wrapping_mul(ROOK_MAGICS[square]) >> shift;
            let row = &self.rook_lookup_table[square];
            if hash < row.len() as u64 {
                let entry = row[hash as usize];
                if entry.1 != 0 && entry.0 == occupied_relevant_squares {
                    return entry.1;
                }
            }
        }
        RawMoveGenerator::generate_rook_moves(occupied_relevant_squares, 0, 1u64 << (square as u64))
    }
}

} // verus!
