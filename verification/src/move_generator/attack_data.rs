use vstd::prelude::*;

use crate::bit_lemmas::{lemma_has_sq_ops, lemma_or_assoc, lemma_add_lsb_subset, lemma_single_lsb, lemma_square_single, lemma_step_single, single};
use crate::bitwise_utils::{direction_between, get_direction_fn_to_square, has_sq, is_lsb, pop_lsb, step_spec, Direction};
use crate::board::{color_at, type_at, Board};
use crate::board_utils::{color_index, piece_type_index};
use crate::enums::{lemma_opponent_involutive, opponent_of, Color, PieceType};
use crate::move_generator::checks::{
    behind_king, check_line, checker_on, king_in_check, king_in_double_check, lemma_added_end, lemma_added_found,
    lemma_added_skip, lemma_added_start, lemma_check_lines_combined, lemma_checks_combined, lemma_move_square,
    lemma_allowed_end, lemma_allowed_start, lemma_allowed_step, lemma_pinned_types, lemma_pins_end, lemma_taken_types,
    taken_from_king, lemma_pins_skip, lemma_pins_start, lemma_pins_step, lone_piece, on_check_line,
    opponent_of_type, own_pieces, pin_line, pinned, pinned_by_type, pins_from, pins_square, ray_off, scan, steps_until,
    walk_end,
};
use crate::move_generator::move_generator::{diagonal_attacks_spec, orthogonal_attacks_spec, MoveGenerator};
use crate::move_generator::tables::{BLACK_PAWN_ATTACKS, KNIGHT_MOVES, WHITE_PAWN_ATTACKS};
use crate::move_generator::utils::{generate_king_relevant_squares_related_to_enemy_pawns, king_pawn_zone};
use crate::positions::{same_anti_diagonal, same_diagonal, same_file, same_rank};

verus! {

/// What the side to move must answer: the checking pieces (`attack_bb`), the squares
/// that block a sliding check (`defenders_bb`), the lines that pinned pieces may
/// keep to, and the squares the king may step on.
#[derive(Clone, Copy, Debug)]
pub struct AttackData {
    pub attack_bb: u64,
    pub defenders_bb: u64,
    pub friendly_pins_moves_bbs: [u64; 64],
    pub in_check: bool,
    pub in_double_check: bool,
    pub king_allowed_squares: u64,
    pub king_bb_position: u64,
    pub king_square: usize,
    pub side_to_move: Color,
}

/// The pieces of the opponent of the side to move.
pub open spec fn opponent_pieces(board: Board) -> u64 {
    board.bbs()[color_index(opponent_of(board.side())) as int]
}

/// The king of the side to move.
pub open spec fn own_king(board: Board) -> u64 {
    board.bbs()[piece_type_index(PieceType::King) as int] & board.bbs()[color_index(board.side()) as int]
}

impl AttackData {
    /// The side, the king and the pins agree with `board`: a square with a pin line
    /// holds a piece of the side to move.
    pub open spec fn placed(self, board: Board) -> bool {
        &&& self.side_to_move == board.side()
        &&& self.king_bb_position == own_king(board)
        &&& self.king_square < 64
        &&& (self.king_bb_position != 0 ==> is_lsb(self.king_bb_position, self.king_square as u64))
        &&& forall|s: int|
            0 <= s < 64 && #[trigger] self.friendly_pins_moves_bbs@[s] != u64::MAX ==> type_at(
                board.bbs(),
                1u64 << (s as u64),
            ) != PieceType::Empty && color_at(board.bbs(), 1u64 << (s as u64)) == board.side()
    }

    /// While checks are gathered: a double check is a check, a check has a checking
    /// piece, the checking pieces are the opponent's, and with no check nothing is set.
    pub open spec fn consistent(self, board: Board) -> bool {
        &&& self.placed(board)
        &&& (self.in_double_check ==> self.in_check)
        &&& (self.in_check ==> self.attack_bb != 0)
        &&& (!self.in_check ==> self.attack_bb == 0 && self.defenders_bb == 0)
        &&& self.attack_bb & !opponent_pieces(board) == 0
    }

    /// The finished data: out of check, every square may be reached and blocks nothing
    /// (both boards are full); in double check only the king may answer.
    pub open spec fn settled(self, board: Board) -> bool {
        &&& self.placed(board)
        &&& (self.in_double_check ==> self.in_check && self.defenders_bb == 0)
        &&& (!self.in_check ==> self.attack_bb == u64::MAX && self.defenders_bb == u64::MAX)
        &&& (self.in_check ==> self.attack_bb != 0 && self.attack_bb & !opponent_pieces(board) == 0)
    }

    pub fn new() -> (r: Self)
        ensures
            r.attack_bb == 0,
            r.defenders_bb == 0,
            forall|s: int| 0 <= s < 64 ==> #[trigger] r.friendly_pins_moves_bbs@[s] == u64::MAX,
            !r.in_check,
            !r.in_double_check,
            r.king_allowed_squares == 0,
            r.king_bb_position == 0,
            r.king_square == 0,
            r.side_to_move == Color::White,
    {
        AttackData {
            attack_bb: 0,
            defenders_bb: 0,
            friendly_pins_moves_bbs: [u64::MAX; 64],
            in_check: false,
            in_double_check: false,
            king_allowed_squares: 0,
            king_bb_position: 0,
            king_square: 0,
            side_to_move: Color::White,
        }
    }

    fn init(&mut self, board: &Board)
        ensures
            final(self).consistent(*board),
            final(self).king_allowed_squares == u64::MAX,
            !final(self).in_check,
            forall|x: int| 0 <= x < 64 ==> #[trigger] final(self).friendly_pins_moves_bbs@[x] == u64::MAX,
    {
        self.attack_bb = 0;
        self.defenders_bb = 0;
        self.friendly_pins_moves_bbs = [u64::MAX; 64];
        self.in_check = false;
        self.in_double_check = false;
        self.king_allowed_squares = u64::MAX;
        self.side_to_move = board.get_side_to_move();
        self.king_bb_position = board.get_piece_positions(self.side_to_move, PieceType::King);
        let mut king = self.king_bb_position;
        self.king_square = pop_lsb(&mut king) as usize;
        proof {
            crate::bit_lemmas::lemma_bit_identities();
        }
    }

    /// Finds the checks, pins and king squares of the side to move on `board`: a
    /// check exactly when some opponent piece checks the king (`gives_check`), a double
    /// check when two do (knights that check together count once), the checking
    /// pieces in `attack_bb`, in a single check the lines from checking sliders to
    /// the king in `defenders_bb`, for each pinned piece the line of a slider that
    /// pins it (`pins_square`) and for the others every square, and as the king's
    /// squares those no opponent piece takes from it (`takes_square`).
    pub fn calculate_attack_data(&mut self, board: &Board, move_generator: &MoveGenerator)
        requires
            move_generator.wf(),
        ensures
            final(self).settled(*board),
            final(self).in_check == king_in_check(*board, final(self).king_square as int, final(self).king_bb_position),
            final(self).in_double_check == king_in_double_check(
                *board,
                final(self).king_square as int,
                final(self).king_bb_position,
            ),
            final(self).in_check ==> forall|s: u64|
                s < 64 ==> #[trigger] has_sq(final(self).attack_bb, s) == checker_on(
                    *board,
                    final(self).king_square as int,
                    final(self).king_bb_position,
                    s,
                ),
            forall|x: u64|
                x < 64 ==> #[trigger] has_sq(final(self).king_allowed_squares, x) == !taken_from_king(
                    *board,
                    final(self).king_square as int,
                    final(self).king_bb_position,
                    x,
                ),
            forall|x: u64|
                x < 64 && !#[trigger] pinned(*board, final(self).king_square as int, final(self).king_bb_position, x)
                    ==> final(self).friendly_pins_moves_bbs@[x as int] == u64::MAX,
            forall|x: u64|
                x < 64 && #[trigger] pinned(*board, final(self).king_square as int, final(self).king_bb_position, x)
                    ==> exists|t: PieceType, s: u64|
                    #[trigger] pins_square(*board, final(self).king_square as int, final(self).king_bb_position, t, s, x)
                        && final(self).friendly_pins_moves_bbs@[x as int] == pin_line(
                        s,
                        final(self).king_square as int,
                        final(self).king_bb_position,
                    ),
            final(self).in_check && !final(self).in_double_check ==> forall|x: u64|
                x < 64 ==> #[trigger] has_sq(final(self).defenders_bb, x) == on_check_line(
                    *board,
                    final(self).king_square as int,
                    final(self).king_bb_position,
                    x,
                ),
    {
        self.init(board);
        let ghost a0 = *self;
        self.check_sliding_attacks(board, PieceType::Rook, move_generator);
        let ghost a1 = *self;
        self.check_sliding_attacks(board, PieceType::Bishop, move_generator);
        let ghost a2 = *self;
        self.check_sliding_attacks(board, PieceType::Queen, move_generator);
        let ghost a3 = *self;
        self.handle_knight_checks(board);
        let ghost a4 = *self;
        self.handle_pawn_attacks(board);
        let ghost a5 = *self;
        proof {
            lemma_has_sq_ops();
            lemma_added_end(a1, a0, *board, PieceType::Rook, true);
            lemma_added_end(a2, a1, *board, PieceType::Bishop, true);
            lemma_added_end(a3, a2, *board, PieceType::Queen, true);
            lemma_added_end(a4, a3, *board, PieceType::Knight, false);
            lemma_added_end(a5, a4, *board, PieceType::Pawn, true);
            lemma_checks_combined(*board, a0.king_square as int, a0.king_bb_position);
            lemma_check_lines_combined(*board, a0.king_square as int, a0.king_bb_position);
            lemma_pins_end(a1, a0, *board, PieceType::Rook);
            lemma_pins_end(a2, a1, *board, PieceType::Bishop);
            lemma_pins_end(a3, a2, *board, PieceType::Queen);
            lemma_pinned_types(*board, a0.king_square as int, a0.king_bb_position);
            lemma_allowed_end(a1, a0, *board, PieceType::Rook);
            lemma_allowed_end(a2, a1, *board, PieceType::Bishop);
            lemma_allowed_end(a3, a2, *board, PieceType::Queen);
            lemma_allowed_end(a4, a3, *board, PieceType::Knight);
            lemma_allowed_end(a5, a4, *board, PieceType::Pawn);
            lemma_taken_types(*board, a0.king_square as int, a0.king_bb_position);
            let ksq = a0.king_square as int;
            let kbb = a0.king_bb_position;
            assert forall|x: u64|
                x < 64 && #[trigger] pinned(*board, ksq, kbb, x) implies exists|t: PieceType, s: u64|
                #[trigger] pins_square(*board, ksq, kbb, t, s, x) && a5.friendly_pins_moves_bbs@[x as int] == pin_line(s, ksq, kbb) by {
                if pinned_by_type(*board, ksq, kbb, PieceType::Queen, x) {
                    let s = choose|s: u64|
                        #[trigger] pins_square(*board, ksq, kbb, PieceType::Queen, s, x) && a3.friendly_pins_moves_bbs@[x as int] == pin_line(s, ksq, kbb);
                    assert(pins_square(*board, ksq, kbb, PieceType::Queen, s, x));
                } else if pinned_by_type(*board, ksq, kbb, PieceType::Bishop, x) {
                    let s = choose|s: u64|
                        #[trigger] pins_square(*board, ksq, kbb, PieceType::Bishop, s, x) && a2.friendly_pins_moves_bbs@[x as int] == pin_line(s, ksq, kbb);
                    assert(pins_square(*board, ksq, kbb, PieceType::Bishop, s, x));
                } else {
                    let s = choose|s: u64|
                        #[trigger] pins_square(*board, ksq, kbb, PieceType::Rook, s, x) && a1.friendly_pins_moves_bbs@[x as int] == pin_line(s, ksq, kbb);
                    assert(pins_square(*board, ksq, kbb, PieceType::Rook, s, x));
                }
            }
            assert(!a0.in_check && !a0.in_double_check && a0.attack_bb == 0 && a0.defenders_bb == 0);
        }
        if self.in_double_check {
            self.defenders_bb = 0;
        } else if self.defenders_bb == 0 && self.attack_bb == 0 {
            self.defenders_bb = u64::MAX;
        }
        if self.attack_bb == 0 {
            self.attack_bb = u64::MAX;
        }
    }

    /// Opponent knights take the squares they attack from the king, and those a
    /// knight's jump away from the king give check (together they count as one).
    fn handle_knight_checks(&mut self, board: &Board)
        requires
            old(self).consistent(*board),
        ensures
            final(self).consistent(*board),
            final(self).added(*old(self), *board, PieceType::Knight, 0, false),
            final(self).friendly_pins_moves_bbs == old(self).friendly_pins_moves_bbs,
            final(self).allowed_added(*old(self), *board, PieceType::Knight, 0),
    {
        let ghost start = *self;
        let possible_attackers = KNIGHT_MOVES[self.king_square];
        let opponent_knights = board.get_piece_positions(self.side_to_move.opponent(), PieceType::Knight);
        let mut attackers = opponent_knights & possible_attackers;
        let ghost first = attackers;
        let ghost opp = opponent_pieces(*board);
        proof {
            lemma_has_sq_ops();
            assert(attackers & !opp == 0) by {
                let kn = board.bbs()[piece_type_index(PieceType::Knight) as int];
                assert((kn & opp) & possible_attackers & !opp == 0) by (bit_vector);
            }
            assert forall|s: u64| #[trigger] start.found(*board, PieceType::Knight, 0, s) == (s < 64 && has_sq(first, s)) by {
                if s < 64 {
                    assert(has_sq(first, s) == (has_sq(opponent_knights, s) && has_sq(possible_attackers, s)));
                }
            }
        }
        let mut knights = opponent_knights;
        proof {
            lemma_allowed_start(start, *board, PieceType::Knight, knights);
        }
        while knights != 0
            invariant
                self.consistent(*board),
                *self == (AttackData { king_allowed_squares: self.king_allowed_squares, ..start }),
                self.allowed_added(start, *board, PieceType::Knight, knights),
                opponent_knights == opponent_of_type(*board, PieceType::Knight),
                forall|s: u64| s < 64 && #[trigger] has_sq(knights, s) ==> has_sq(opponent_knights, s),
            decreases crate::bit_lemmas::squares_of(knights).len(),
        {
            let ghost before = knights;
            let ghost it_start = *self;
            let knight_square = pop_lsb(&mut knights) as usize;
            proof {
                crate::bit_lemmas::lemma_squares_pop(before, knight_square as u64);
                crate::bit_lemmas::lemma_lsb_squares(before, knight_square as u64);
                lemma_has_sq_ops();
            }
            self.king_allowed_squares = self.king_allowed_squares & !KNIGHT_MOVES[knight_square];
            proof {
                lemma_allowed_step(it_start, *self, start, *board, PieceType::Knight, before, knight_square as u64);
            }
        }
        let ghost allowed = self.king_allowed_squares;
        if attackers == 0 {
            return;
        }
        self.in_double_check = self.in_check;
        self.in_check = true;
        proof {
            crate::bit_lemmas::lemma_nonzero_has_square(first);
            let w = choose|s: u64| s < 64 && #[trigger] has_sq(first, s);
            assert(start.found(*board, PieceType::Knight, 0, w));
            crate::bit_lemmas::lemma_bit_identities();
        }
        while attackers != 0
            invariant
                self.placed(*board),
                self.in_check,
                self.in_double_check == start.in_check,
                self.defenders_bb == start.defenders_bb,
                self.friendly_pins_moves_bbs == start.friendly_pins_moves_bbs,
                self.king_allowed_squares == allowed,
                self.king_square == start.king_square,
                self.king_bb_position == start.king_bb_position,
                self.attack_bb | attackers == start.attack_bb | first,
                opp == opponent_pieces(*board),
                self.attack_bb & !opp == 0,
                attackers & !opp == 0,
                attackers != 0 || self.attack_bb != 0,
            decreases crate::bit_lemmas::squares_of(attackers).len(),
        {
            let ghost before = attackers;
            let attacker_square = pop_lsb(&mut attackers);
            proof {
                lemma_add_lsb_subset(self.attack_bb, before, opp, attacker_square as u64);
                crate::bit_lemmas::lemma_squares_pop(before, attacker_square as u64);
                lemma_move_square(self.attack_bb, before, attacker_square as u64);
            }
            self.attack_bb = self.attack_bb | (1u64 << (attacker_square as u64));
        }
        proof {
            crate::bit_lemmas::lemma_bit_identities();
            lemma_has_sq_ops();
        }
    }

    /// Opponent pawns near the king: those that attack it give check, and the squares
    /// every one of them attacks are taken from the king.
    fn handle_pawn_attacks(&mut self, board: &Board)
        requires
            old(self).consistent(*board),
        ensures
            final(self).consistent(*board),
            final(self).added(*old(self), *board, PieceType::Pawn, 0, true),
            final(self).friendly_pins_moves_bbs == old(self).friendly_pins_moves_bbs,
            final(self).allowed_added(*old(self), *board, PieceType::Pawn, 0),
    {
        let ghost start = *self;
        let white = self.side_to_move.is_white();
        let relevant_squares = generate_king_relevant_squares_related_to_enemy_pawns(
            self.side_to_move,
            self.king_bb_position,
        );
        let opponent_pawns = board.get_piece_positions(self.side_to_move.opponent(), PieceType::Pawn);
        let mut possible_attackers = opponent_pawns & relevant_squares;
        let ghost first = possible_attackers;
        let ghost opp = opponent_pieces(*board);
        proof {
            lemma_has_sq_ops();
            assert(possible_attackers & !opp == 0) by {
                let pw = board.bbs()[piece_type_index(PieceType::Pawn) as int];
                assert((pw & opp) & relevant_squares & !opp == 0) by (bit_vector);
            }
            lemma_added_start(start, *board, PieceType::Pawn, first, true);
            lemma_allowed_start(start, *board, PieceType::Pawn, first);
        }
        while possible_attackers != 0
            invariant
                self.consistent(*board),
                start.consistent(*board),
                self.added(start, *board, PieceType::Pawn, possible_attackers, true),
                self.allowed_added(start, *board, PieceType::Pawn, possible_attackers),
                self.friendly_pins_moves_bbs == start.friendly_pins_moves_bbs,
                white == (self.side_to_move == Color::White),
                opp == opponent_pieces(*board),
                first == opponent_pawns & relevant_squares,
                opponent_pawns == opponent_of_type(*board, PieceType::Pawn),
                relevant_squares == king_pawn_zone(board.side(), start.king_bb_position),
                possible_attackers & !opp == 0,
                forall|s: u64| s < 64 && #[trigger] has_sq(possible_attackers, s) ==> has_sq(first, s),
            decreases crate::bit_lemmas::squares_of(possible_attackers).len(),
        {
            let ghost before = possible_attackers;
            let ghost it_start = *self;
            let attacker_square = pop_lsb(&mut possible_attackers) as usize;
            proof {
                lemma_add_lsb_subset(self.attack_bb, before, opp, attacker_square as u64);
                crate::bit_lemmas::lemma_squares_pop(before, attacker_square as u64);
                crate::bit_lemmas::lemma_lsb_squares(before, attacker_square as u64);
                lemma_has_sq_ops();
                assert(has_sq(first, attacker_square as u64));
            }
            let pawn_attacks = if white {
                BLACK_PAWN_ATTACKS[attacker_square]
            } else {
                WHITE_PAWN_ATTACKS[attacker_square]
            };
            proof {
                assert(start.checks(*board, PieceType::Pawn, attacker_square as u64) == (pawn_attacks & self.king_bb_position != 0));
            }
            if pawn_attacks & self.king_bb_position != 0 {
                let ghost prior = *self;
                self.in_double_check = self.in_check;
                self.in_check = true;
                self.attack_bb = self.attack_bb | (1u64 << (attacker_square as u64));
                proof {
                    lemma_added_found(prior, *self, start, *board, PieceType::Pawn, before, attacker_square as u64);
                }
            } else {
                proof {
                    lemma_added_skip(*self, start, *board, PieceType::Pawn, before, attacker_square as u64, true);
                }
            }
            self.king_allowed_squares = self.king_allowed_squares & !pawn_attacks;
            proof {
                lemma_has_sq_ops();
                lemma_allowed_step(it_start, *self, start, *board, PieceType::Pawn, before, attacker_square as u64);
            }
        }
    }

    /// Opponent sliders of `piece_type`: their attacks are taken from the king, those
    /// that reach the king give check, and those on a line with it may pin.
    fn check_sliding_attacks(&mut self, board: &Board, piece_type: PieceType, move_generator: &MoveGenerator)
        requires
            old(self).consistent(*board),
            move_generator.wf(),
            piece_type == PieceType::Rook || piece_type == PieceType::Bishop || piece_type == PieceType::Queen,
        ensures
            final(self).consistent(*board),
            final(self).added(*old(self), *board, piece_type, 0, true),
            final(self).pins_added(*old(self), *board, piece_type, 0),
            final(self).allowed_added(*old(self), *board, piece_type, 0),
    {
        let ghost start = *self;
        let opponent = self.side_to_move.opponent();
        let mut opponent_pieces_left = board.get_piece_positions(opponent, piece_type);
        let opponent_pieces_bb = board.get_player_pieces_positions(opponent);
        let ghost opp = opponent_pieces(*board);
        let ghost of_type = opponent_of_type(*board, piece_type);
        proof {
            lemma_has_sq_ops();
            lemma_opponent_involutive(board.side());
            crate::bit_lemmas::lemma_bit_identities();
            assert(opponent_pieces_left & !opp == 0) by {
                let t = board.bbs()[piece_type_index(piece_type) as int];
                assert((t & opp) & !opp == 0) by (bit_vector);
            }
            assert(opponent_pieces_left == of_type);
            lemma_added_start(start, *board, piece_type, opponent_pieces_left, true);
            lemma_pins_start(start, *board, piece_type, opponent_pieces_left);
            lemma_allowed_start(start, *board, piece_type, opponent_pieces_left);
        }
        while opponent_pieces_left != 0
            invariant
                self.consistent(*board),
                start.consistent(*board),
                self.added(start, *board, piece_type, opponent_pieces_left, true),
                self.pins_added(start, *board, piece_type, opponent_pieces_left),
                self.allowed_added(start, *board, piece_type, opponent_pieces_left),
                move_generator.wf(),
                opp == opponent_pieces(*board),
                of_type == opponent_of_type(*board, piece_type),
                opponent == opponent_of(board.side()),
                opponent_of(opponent) == board.side(),
                opponent_pieces_bb == opp,
                opponent_pieces_left & !opp == 0,
                forall|s: u64| s < 64 && #[trigger] has_sq(opponent_pieces_left, s) ==> has_sq(of_type, s),
                piece_type == PieceType::Rook || piece_type == PieceType::Bishop || piece_type
                    == PieceType::Queen,
            decreases crate::bit_lemmas::squares_of(opponent_pieces_left).len(),
        {
            let ghost before = opponent_pieces_left;
            let square = pop_lsb(&mut opponent_pieces_left) as usize;
            proof {
                lemma_add_lsb_subset(self.attack_bb, before, opp, square as u64);
                crate::bit_lemmas::lemma_squares_pop(before, square as u64);
                crate::bit_lemmas::lemma_lsb_squares(before, square as u64);
                lemma_has_sq_ops();
                crate::bit_lemmas::lemma_bit_identities();
                assert(has_sq(of_type, square as u64));
            }
            let ghost occupied = opponent_pieces(*board) | own_pieces(*board);
            let ghost it_start = *self;
            let mut attacks: u64 = 0;
            let same_orthogonal_ray = same_rank(square, self.king_square) || same_file(square, self.king_square);
            let same_diagonal_ray = same_diagonal(square, self.king_square) || same_anti_diagonal(square, self.king_square);
            if piece_type == PieceType::Queen {
                attacks = attacks | move_generator.get_orthogonal_attacks(board, opponent, square, &opponent_pieces_bb);
                attacks = attacks | move_generator.get_diagonal_attacks(board, opponent, square, &opponent_pieces_bb);
                self.king_allowed_squares = self.king_allowed_squares & !attacks;
                proof {
                    assert(attacks == orthogonal_attacks_spec(occupied, square as int) | diagonal_attacks_spec(occupied, square as int));
                }
                if !same_orthogonal_ray && !same_diagonal_ray {
                    proof {
                        lemma_added_skip(*self, start, *board, piece_type, before, square as u64, true);
                        lemma_pins_skip(*self, *self, start, *board, piece_type, before, square as u64);
                        lemma_allowed_step(it_start, *self, start, *board, piece_type, before, square as u64);
                    }
                    continue;
                }
            } else if piece_type == PieceType::Rook {
                attacks = attacks | move_generator.get_orthogonal_attacks(board, opponent, square, &opponent_pieces_bb);
                self.king_allowed_squares = self.king_allowed_squares & !attacks;
                proof {
                    assert(attacks == orthogonal_attacks_spec(occupied, square as int));
                }
                if !same_orthogonal_ray {
                    proof {
                        lemma_added_skip(*self, start, *board, piece_type, before, square as u64, true);
                        lemma_pins_skip(*self, *self, start, *board, piece_type, before, square as u64);
                        lemma_allowed_step(it_start, *self, start, *board, piece_type, before, square as u64);
                    }
                    continue;
                }
            } else {
                attacks = attacks | move_generator.get_diagonal_attacks(board, opponent, square, &opponent_pieces_bb);
                self.king_allowed_squares = self.king_allowed_squares & !attacks;
                proof {
                    assert(attacks == diagonal_attacks_spec(occupied, square as int));
                }
                if !same_diagonal_ray {
                    proof {
                        lemma_added_skip(*self, start, *board, piece_type, before, square as u64, true);
                        lemma_pins_skip(*self, *self, start, *board, piece_type, before, square as u64);
                        lemma_allowed_step(it_start, *self, start, *board, piece_type, before, square as u64);
                    }
                    continue;
                }
            }
            proof {
                assert(start.checks(*board, piece_type, square as u64) == (attacks & self.king_bb_position != 0));
            }
            if attacks & self.king_bb_position != 0 {
                let ghost prior = *self;
                self.handle_sliding_check(square);
                proof {
                    lemma_added_found(prior, *self, start, *board, piece_type, before, square as u64);
                    lemma_pins_skip(prior, *self, start, *board, piece_type, before, square as u64);
                    lemma_allowed_step(it_start, *self, start, *board, piece_type, before, square as u64);
                }
            } else {
                let ghost prior = *self;
                self.handle_pins(board, square);
                proof {
                    lemma_added_skip(*self, start, *board, piece_type, before, square as u64, true);
                    lemma_pins_step(prior, *self, start, *board, piece_type, before, square as u64);
                    lemma_allowed_step(it_start, *self, start, *board, piece_type, before, square as u64);
                }
            }
        }
    }

    /// A slider on `square` checks the king: it is a checking piece, the squares
    /// between it and the king block the check, and the squares behind the king on
    /// the same line are taken from the king.
    fn handle_sliding_check(&mut self, square: usize)
        requires
            square < 64,
        ensures
            final(self).attack_bb == old(self).attack_bb | (1u64 << (square as u64)),
            final(self).in_check,
            final(self).in_double_check == old(self).in_check,
            final(self).side_to_move == old(self).side_to_move,
            final(self).king_bb_position == old(self).king_bb_position,
            final(self).king_square == old(self).king_square,
            final(self).friendly_pins_moves_bbs == old(self).friendly_pins_moves_bbs,
            final(self).defenders_bb == old(self).defenders_bb | check_line(
                square as u64,
                old(self).king_square as int,
                old(self).king_bb_position,
            ),
            forall|x: u64|
                x < 64 ==> #[trigger] has_sq(final(self).king_allowed_squares, x) == (has_sq(old(self).king_allowed_squares, x)
                    && !has_sq(behind_king(square as u64, old(self).king_square as int, old(self).king_bb_position), x)),
    {
        self.attack_bb = self.attack_bb | (1u64 << (square as u64));
        self.in_double_check = self.in_check;
        self.in_check = true;
        let direction = get_direction_fn_to_square(square, self.king_square);
        let mut path_to_king = direction.step(1u64 << (square as u64));
        let mut current_pos = path_to_king;
        let mut fuel: u64 = 8;
        let ghost kept = *self;
        let ghost first = path_to_king;
        proof {
            crate::bit_lemmas::lemma_bit_identities();
        }
        while fuel > 0 && current_pos & self.king_bb_position == 0
            invariant
                *self == kept,
                fuel <= 8,
                path_to_king | steps_until(direction, current_pos, self.king_bb_position, fuel as nat) == first
                    | steps_until(direction, first, self.king_bb_position, 8),
                walk_end(direction, current_pos, self.king_bb_position, fuel as nat) == walk_end(
                    direction,
                    first,
                    self.king_bb_position,
                    8,
                ),
            decreases fuel,
        {
            proof {
                lemma_or_assoc(path_to_king, current_pos, steps_until(direction, step_spec(direction, current_pos), self.king_bb_position, (fuel - 1) as nat));
            }
            path_to_king = path_to_king | current_pos;
            current_pos = direction.step(current_pos);
            fuel = fuel - 1;
        }
        proof {
            assert(steps_until(direction, current_pos, self.king_bb_position, fuel as nat) == 0);
        }
        current_pos = direction.step(current_pos);
        fuel = 8;
        let ghost behind = ray_off(direction, current_pos, 8);
        let ghost allowed0 = self.king_allowed_squares;
        proof {
            lemma_has_sq_ops();
            assert(behind == behind_king(square as u64, kept.king_square as int, kept.king_bb_position));
        }
        while fuel > 0 && current_pos != 0
            invariant
                *self == (AttackData { king_allowed_squares: self.king_allowed_squares, ..kept }),
                fuel <= 8,
                forall|x: u64|
                    x < 64 ==> (has_sq(allowed0, x) && !has_sq(behind, x)) == (#[trigger] has_sq(self.king_allowed_squares, x)
                        && !has_sq(ray_off(direction, current_pos, fuel as nat), x)),
                forall|a: u64, b: u64, s: u64|
                    s < 64 ==> (#[trigger] has_sq(a & b, s) == (has_sq(a, s) && has_sq(b, s))),
                forall|a: u64, b: u64, s: u64|
                    s < 64 ==> (#[trigger] has_sq(a | b, s) == (has_sq(a, s) || has_sq(b, s))),
                forall|a: u64, s: u64| s < 64 ==> (#[trigger] has_sq(!a, s) == !has_sq(a, s)),
            decreases fuel,
        {
            proof {
                assert(ray_off(direction, current_pos, fuel as nat) == current_pos | ray_off(
                    direction,
                    step_spec(direction, current_pos),
                    (fuel - 1) as nat,
                ));
            }
            let ghost ka_before = self.king_allowed_squares;
            let ghost cur_before = current_pos;
            let ghost fuel_before = fuel;
            self.king_allowed_squares = self.king_allowed_squares & !current_pos;
            current_pos = direction.step(current_pos);
            fuel = fuel - 1;
            proof {
                assert forall|x: u64|
                    x < 64 implies (has_sq(allowed0, x) && !has_sq(behind, x)) == (#[trigger] has_sq(self.king_allowed_squares, x)
                        && !has_sq(ray_off(direction, current_pos, fuel as nat), x)) by {
                    assert((has_sq(ka_before, x) && !has_sq(ray_off(direction, cur_before, fuel_before as nat), x))
                        == (has_sq(allowed0, x) && !has_sq(behind, x)));
                    assert(has_sq(cur_before | ray_off(direction, current_pos, fuel as nat), x) == (has_sq(cur_before, x)
                        || has_sq(ray_off(direction, current_pos, fuel as nat), x)));
                    assert(has_sq(ka_before & !cur_before, x) == (has_sq(ka_before, x) && has_sq(!cur_before, x)));
                }
            }
        }
        proof {
            assert(ray_off(direction, current_pos, fuel as nat) == 0);
            lemma_has_sq_ops();
        }
        self.defenders_bb = self.defenders_bb | path_to_king;
    }

    /// Walks from the slider on `square` towards the king: when exactly one piece
    /// stands between them and it is of the side to move, that piece may only move
    /// along the walked line (the slider included).
    fn handle_pins(&mut self, board: &Board, square: usize)
        requires
            square < 64,
            old(self).placed(*board),
        ensures
            *final(self) == (AttackData { friendly_pins_moves_bbs: final(self).friendly_pins_moves_bbs, ..*old(self) }),
            final(self).placed(*board),
            forall|x: u64|
                x < 64 ==> #[trigger] final(self).friendly_pins_moves_bbs@[x as int] == (if pins_from(
                    *board,
                    square as u64,
                    old(self).king_square as int,
                    old(self).king_bb_position,
                    x,
                ) {
                    pin_line(square as u64, old(self).king_square as int, old(self).king_bb_position)
                } else {
                    old(self).friendly_pins_moves_bbs@[x as int]
                }),
    {
        let ghost start = *self;
        let direction = get_direction_fn_to_square(square, self.king_square);
        let attacker_bb_pos: u64 = 1u64 << (square as u64);
        let mut path_to_king = attacker_bb_pos;
        let mut current_pos = direction.step(path_to_king);
        let mut friendly_pin_bb_pos: u64 = 0;
        let mut opponent_pin_bb_pos: u64 = 0;
        let mut fuel: u64 = 8;
        let ghost first = current_pos;
        let ghost kbb = self.king_bb_position;
        let ghost result = lone_piece(direction, first, kbb, board.bbs(), 8, None::<u64>);
        proof {
            lemma_square_single(square as u64);
            lemma_step_single(direction, attacker_bb_pos);
            crate::bit_lemmas::lemma_bit_identities();
        }
        while fuel > 0 && current_pos != 0
            invariant
                *self == start,
                fuel <= 8,
                kbb == self.king_bb_position,
                direction == direction_between(square as int, self.king_square as int),
                first == step_spec(direction, 1u64 << (square as u64)),
                result == lone_piece(direction, first, kbb, board.bbs(), 8, None::<u64>),
                single(current_pos),
                single(friendly_pin_bb_pos),
                friendly_pin_bb_pos == 0 || opponent_pin_bb_pos == 0,
                friendly_pin_bb_pos != 0 ==> type_at(board.bbs(), friendly_pin_bb_pos) != PieceType::Empty
                    && color_at(board.bbs(), friendly_pin_bb_pos) == board.side(),
                opponent_pin_bb_pos != 0 ==> color_at(board.bbs(), opponent_pin_bb_pos) != board.side(),
                result == lone_piece(direction, current_pos, kbb, board.bbs(), fuel as nat, if friendly_pin_bb_pos != 0 {
                    Some(friendly_pin_bb_pos)
                } else if opponent_pin_bb_pos != 0 {
                    Some(opponent_pin_bb_pos)
                } else {
                    None::<u64>
                }),
                path_to_king | scan(direction, current_pos, kbb, fuel as nat) == (1u64 << (square as u64)) | scan(
                    direction,
                    first,
                    kbb,
                    8,
                ),
                self.placed(*board),
            ensures
                scan(direction, current_pos, kbb, fuel as nat) == 0,
                result == (if friendly_pin_bb_pos != 0 {
                    Some(friendly_pin_bb_pos)
                } else if opponent_pin_bb_pos != 0 {
                    Some(opponent_pin_bb_pos)
                } else {
                    None::<u64>
                }),
            decreases fuel,
        {
            proof {
                lemma_or_assoc(path_to_king, current_pos, scan(direction, step_spec(direction, current_pos), kbb, (fuel - 1) as nat));
            }
            if self.king_bb_position == current_pos {
                break;
            }
            let piece_type = board.get_piece_type_by_bb_pos(current_pos);
            if piece_type != PieceType::Empty {
                let piece_color = board.get_piece_color_by_bb_pos(current_pos);
                if friendly_pin_bb_pos != 0 || opponent_pin_bb_pos != 0 {
                    proof {
                        assert(result is None);
                    }
                    return;
                }
                if piece_color == self.side_to_move {
                    friendly_pin_bb_pos = current_pos;
                } else {
                    opponent_pin_bb_pos = current_pos;
                }
            }
            path_to_king = path_to_king | current_pos;
            proof {
                lemma_step_single(direction, current_pos);
            }
            current_pos = direction.step(current_pos);
            fuel = fuel - 1;
        }
        proof {
            assert(path_to_king == pin_line(square as u64, self.king_square as int, kbb));
        }
        if friendly_pin_bb_pos != 0 {
            let ghost pin = friendly_pin_bb_pos;
            let pin_square = pop_lsb(&mut friendly_pin_bb_pos) as usize;
            proof {
                lemma_single_lsb(pin, pin_square as u64);
                assert forall|x: u64| x < 64 && #[trigger] pins_from(*board, square as u64, start.king_square as int, kbb, x) implies x == pin_square by {
                    crate::bit_lemmas::lemma_shift_injective(x, pin_square as u64);
                }
            }
            self.friendly_pins_moves_bbs[pin_square] = path_to_king;
        }
    }
}

} // verus!
