use vstd::prelude::*;

use crate::bit_lemmas::{lemma_has_sq_ops, lemma_squares_pop, squares_of};
use crate::bitwise_utils::{east_one, has_sq, north_one, pop_lsb, south_one, west_one, NOT_A_FILE, NOT_H_FILE};
use crate::board::Board;
use crate::board_utils::{color_index, piece_type_index};
use crate::enums::{opponent_of, Color, PieceType};
use crate::move_generator::attack_data::AttackData;
use crate::positions::{first_row_holding, rank_of, same_rank, BBPositions};
use crate::move_generator::tables::{BLACK_PAWN_ATTACKS, WHITE_PAWN_ATTACKS};

verus! {

/// The squares strictly between two squares, counted along the square numbers.
pub fn squares_between(sq1: usize, sq2: usize) -> (r: u64)
    requires
        sq1 < 64,
        sq2 < 64,
    ensures
        forall|s: u64|
            s < 64 ==> (#[trigger] has_sq(r, s) <==> (if sq1 < sq2 {
                sq1 < s < sq2
            } else {
                sq2 < s < sq1
            })),
{
    let (lo, hi) = if sq1 < sq2 {
        (sq1, sq2)
    } else {
        (sq2, sq1)
    };
    let mut acc: u64 = 0;
    let mut sq: usize = lo + 1;
    proof {
        lemma_has_sq_ops();
    }
    while sq < hi
        invariant
            lo < 64,
            hi < 64,
            lo + 1 <= sq <= hi || (sq == lo + 1 && hi <= lo + 1),
            forall|s: u64| s < 64 ==> (#[trigger] has_sq(acc, s) <==> lo < s < sq),
            forall|a: u64, b: u64, s: u64|
                s < 64 ==> (#[trigger] has_sq(a | b, s) == (has_sq(a, s) || has_sq(b, s))),
            forall|t: u64, s: u64|
                s < 64 && t < 64 ==> (#[trigger] has_sq(1u64 << t, s) == (s == t)),
        decreases hi - sq,
    {
        acc = acc | (1u64 << (sq as u64));
        sq = sq + 1;
    }
    acc
}

/// What the search for the closest square returns: it walks the squares in
/// increasing order and takes a square whenever its distance to `base` is below
/// the square taken so far (which starts at the largest `usize`).
pub open spec fn closest_from(base: int, squares: Seq<u64>, current: int) -> int
    decreases squares.len(),
{
    if squares.len() == 0 {
        current
    } else {
        let s = squares[0] as int;
        let d = if base >= s { base - s } else { s - base };
        let next = if d < current { s } else { current };
        closest_from(base, squares.drop_first(), next)
    }
}

pub fn get_closest_square(base_square: usize, pieces: u64) -> (r: usize)
    ensures
        r == closest_from(base_square as int, squares_of(pieces), usize::MAX as int),
{
    let mut closest_square: usize = usize::MAX;
    let mut rest: u64 = pieces;
    while rest != 0
        invariant
            closest_from(base_square as int, squares_of(rest), closest_square as int)
                == closest_from(base_square as int, squares_of(pieces), usize::MAX as int),
        decreases squares_of(rest).len(),
    {
        let ghost before = rest;
        let square = pop_lsb(&mut rest) as usize;
        proof {
            lemma_squares_pop(before, square as u64);
            assert(squares_of(before).drop_first() =~= squares_of(rest));
        }
        let diff = if base_square >= square {
            base_square - square
        } else {
            square - base_square
        };
        if diff < closest_square {
            closest_square = square;
        }
    }
    proof {
        crate::bit_lemmas::lemma_squares_empty();
    }
    closest_square
}

/// The squares a pawn of `color` on `square` attacks.
pub fn look_up_pawn_attacks(color: Color, square: usize) -> (r: u64)
    requires
        square < 64,
    ensures
        r == (if color == Color::White {
            WHITE_PAWN_ATTACKS@[square as int]
        } else {
            BLACK_PAWN_ATTACKS@[square as int]
        }),
{
    if color.is_white() {
        WHITE_PAWN_ATTACKS[square]
    } else {
        BLACK_PAWN_ATTACKS[square]
    }
}

/// The last rank for white and the first rank for black.
pub fn is_promotion_square(color: Color, square: usize) -> (r: bool)
    ensures
        r == ((color == Color::White && 56 <= square <= 63) || (color == Color::Black && square
            <= 7)),
{
    if square >= 56 && square <= 63 && color.is_white() {
        return true;
    }
    square <= 7 && color.is_black()
}

/// The squares near a king where an enemy pawn can matter: the king's rank and the
/// two ranks in front of it, three files to each side, without the king's square.
/// Squares that fall off the board on the west or east are dropped.
pub open spec fn king_pawn_zone(color: Color, pos: u64) -> u64 {
    let w1 = (pos >> 1u64) & NOT_H_FILE;
    let w2 = (w1 >> 1u64) & NOT_H_FILE;
    let w3 = (w2 >> 1u64) & NOT_H_FILE;
    let e1 = (pos << 1u64) & NOT_A_FILE;
    let e2 = (e1 << 1u64) & NOT_A_FILE;
    let e3 = (e2 << 1u64) & NOT_A_FILE;
    let side = w1 | w2 | w3 | e1 | e2 | e3 | pos;
    let one = if color == Color::Black { side >> 8u64 } else { side << 8u64 };
    let two = if color == Color::Black { one >> 8u64 } else { one << 8u64 };
    (side | one | two) & !pos
}

pub fn get_king_relevant_squares_related_to_enemy_pawns(color: Color, square: usize) -> (r: u64)
    requires
        square < 64,
    ensures
        r == king_pawn_zone(color, 1u64 << (square as u64)),
{
    generate_king_relevant_squares_related_to_enemy_pawns(color, 1u64 << (square as u64))
}

pub fn generate_king_relevant_squares_related_to_enemy_pawns(color: Color, inital_pos: u64) -> (r: u64)
    ensures
        r == king_pawn_zone(color, inital_pos),
{
    let mut result: u64 = 0;
    let mut side_squares_bb: u64 = 0;

    let mut current_pos = west_one(inital_pos);
    side_squares_bb = side_squares_bb | current_pos;
    current_pos = west_one(current_pos);
    side_squares_bb = side_squares_bb | current_pos | west_one(current_pos);

    current_pos = east_one(inital_pos);
    side_squares_bb = side_squares_bb | current_pos;
    current_pos = east_one(current_pos);
    side_squares_bb = side_squares_bb | current_pos | east_one(current_pos);

    side_squares_bb = side_squares_bb | inital_pos;
    result = result | side_squares_bb;

    let black = color.is_black();
    current_pos = if black {
        south_one(side_squares_bb)
    } else {
        north_one(side_squares_bb)
    };
    let two = if black {
        south_one(current_pos)
    } else {
        north_one(current_pos)
    };
    result = result | current_pos | two;
    result = result & !inital_pos;
    proof {
        crate::bit_lemmas::lemma_bit_identities();
        let w1 = (inital_pos >> 1u64) & NOT_H_FILE;
        let w2 = (w1 >> 1u64) & NOT_H_FILE;
        let w3 = (w2 >> 1u64) & NOT_H_FILE;
        let e1 = (inital_pos << 1u64) & NOT_A_FILE;
        let e2 = (e1 << 1u64) & NOT_A_FILE;
        let e3 = (e2 << 1u64) & NOT_A_FILE;
        assert(side_squares_bb == w1 | w2 | w3 | e1 | e2 | e3 | inital_pos) by {
            assert(((((0u64 | w1) | w2 | w3) | e1) | e2 | e3) | inital_pos == w1 | w2 | w3 | e1
                | e2 | e3 | inital_pos) by (bit_vector);
        }
    }
    result
}

/// `s` lies strictly between squares `a` and `b` (by square number).
pub open spec fn strictly_between(a: int, b: int, s: int) -> bool {
    if a < b {
        a < s < b
    } else {
        b < s < a
    }
}

/// Whether taking en passant from `square` would leave the king of `side` on `k`
/// (bitboard `king_bb`) open to a rook or queen on its rank: among the opponent rooks
/// and queens on the king's rank, the closest of each kind (as the closest-square
/// search finds it; a queen found on square 0 is not counted) sees the king once the
/// two pawns are gone, i.e. no other piece stands between them.
pub open spec fn rank_uncovered(side: Color, king_bb: u64, k: int, square: int, bbs: Seq<u64>, eps: u64) -> bool {
    let opp = color_index(opponent_of(side)) as int;
    let row = first_row_holding(king_bb);
    let queens = bbs[piece_type_index(PieceType::Queen) as int] & bbs[opp] & row;
    let rooks = bbs[piece_type_index(PieceType::Rook) as int] & bbs[opp] & row;
    let occupied = ((bbs[color_index(side) as int] | bbs[opp]) & row & !eps) & !(1u64 << (square as u64));
    let cr = closest_from(k, squares_of(rooks), usize::MAX as int);
    let cq = closest_from(k, squares_of(queens), usize::MAX as int);
    &&& rank_of(square) == rank_of(k)
    &&& (rooks != 0 || queens != 0)
    &&& forall|s: u64|
        s < 64 && #[trigger] has_sq(occupied, s) ==> !(rooks != 0 && strictly_between(k, cr, s as int))
            && !(queens != 0 && cq != 0 && strictly_between(k, cq, s as int))
}

/// Whether taking en passant from `square` would uncover a check along the king's
/// rank, for `color` the side to move the attack data is for.
pub open spec fn ep_discovered_check(color: Color, ad: AttackData, square: usize, bbs: Seq<u64>, eps: u64) -> bool {
    &&& color == ad.side_to_move
    &&& rank_uncovered(ad.side_to_move, ad.king_bb_position, ad.king_square as int, square as int, bbs, eps)
}

/// The search for the closest square ends on one of the squares, or keeps what it had.
pub proof fn lemma_closest_on_board(base: int, squares: Seq<u64>, current: int)
    requires
        forall|i: int| 0 <= i < squares.len() ==> squares[i] < 64,
        0 <= base < 64,
        squares.len() > 0 || 0 <= current < 64,
        current >= 0,
    ensures
        0 <= closest_from(base, squares, current) < 64,
    decreases squares.len(),
{
    if squares.len() > 0 {
        let s = squares[0] as int;
        let d = if base >= s { base - s } else { s - base };
        let next = if d < current { s } else { current };
        assert(current >= 64 ==> next == s);
        lemma_closest_on_board(base, squares.drop_first(), next);
    }
}

pub fn is_en_passant_discovered_check(color: Color, attack_data: &AttackData, square: usize, board: &Board) -> (r: bool)
    requires
        square < 64,
        attack_data.king_square < 64,
    ensures
        r == ep_discovered_check(color, *attack_data, square, board.bbs(), board.eps()),
{
    if color != attack_data.side_to_move || !same_rank(square, attack_data.king_square) {
        return false;
    }
    let row = BBPositions::get_row_bb(attack_data.king_bb_position);
    let opponent = attack_data.side_to_move.opponent();
    let opponent_queens = board.get_piece_positions(opponent, PieceType::Queen) & row;
    let opponent_rooks = board.get_piece_positions(opponent, PieceType::Rook) & row;
    if opponent_rooks == 0 && opponent_queens == 0 {
        return false;
    }
    let friendly_pieces = board.get_player_pieces_positions(attack_data.side_to_move);
    let opponent_pieces = board.get_player_pieces_positions(opponent);
    let mut row_occupied_squares = (friendly_pieces | opponent_pieces) & row;
    row_occupied_squares = row_occupied_squares & !board.get_en_passant_piece_square_bb();
    row_occupied_squares = row_occupied_squares & !(1u64 << (square as u64));
    let k = attack_data.king_square;
    let ghost cr = closest_from(k as int, squares_of(opponent_rooks), usize::MAX as int);
    let ghost cq = closest_from(k as int, squares_of(opponent_queens), usize::MAX as int);
    let mut squares_between_rook_and_king: u64 = 0;
    if opponent_rooks != 0 {
        let closest_rook_square = get_closest_square(k, opponent_rooks);
        proof {
            crate::bit_lemmas::lemma_squares_members(opponent_rooks, 0);
            lemma_squares_nonempty(opponent_rooks);
            lemma_closest_on_board(k as int, squares_of(opponent_rooks), usize::MAX as int);
        }
        squares_between_rook_and_king = squares_between(k, closest_rook_square);
    }
    let mut squares_between_queen_and_king: u64 = 0;
    if opponent_queens != 0 {
        let closest_queen_square = get_closest_square(k, opponent_queens);
        proof {
            crate::bit_lemmas::lemma_squares_members(opponent_queens, 0);
            lemma_squares_nonempty(opponent_queens);
            lemma_closest_on_board(k as int, squares_of(opponent_queens), usize::MAX as int);
        }
        if closest_queen_square != 0 {
            squares_between_queen_and_king = squares_between(k, closest_queen_square);
        }
    }
    let squares_between_king = squares_between_rook_and_king | squares_between_queen_and_king;
    proof {
        lemma_has_sq_ops();
        let z = squares_between_king & row_occupied_squares;
        crate::bit_lemmas::lemma_nonzero_has_square(z);
        assert forall|s: u64| s < 64 implies (#[trigger] has_sq(squares_between_rook_and_king, s) <==> (opponent_rooks != 0 && strictly_between(k as int, cr, s as int))) by {
        }
        assert forall|s: u64| s < 64 implies (#[trigger] has_sq(squares_between_queen_and_king, s) <==> (opponent_queens != 0 && cq != 0 && strictly_between(k as int, cq, s as int))) by {
        }
    }
    if squares_between_king & row_occupied_squares == 0 {
        proof {
            let z = squares_between_king & row_occupied_squares;
            assert forall|s: u64| s < 64 && #[trigger] has_sq(row_occupied_squares, s) implies !has_sq(squares_between_king, s) by {
                assert(!has_sq(z, s));
            }
        }
        return true;
    }
    false
}

/// A non-empty bitboard lists a square.
pub proof fn lemma_squares_nonempty(x: u64)
    requires
        x != 0,
    ensures
        squares_of(x).len() > 0,
{
    crate::bit_lemmas::lemma_nonzero_has_square(x);
    let s = choose|s: u64| s < 64 && #[trigger] has_sq(x, s);
    crate::bit_lemmas::lemma_squares_members(x, 0);
    assert(squares_of(x).contains(s));
}

} // verus!
