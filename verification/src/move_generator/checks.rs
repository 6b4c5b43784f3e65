use vstd::prelude::*;

use crate::bit_lemmas::lemma_has_sq_ops;
use crate::bitwise_utils::{direction_between, has_sq, step_spec, Direction};
use crate::board::{color_at, type_at, Board};
use crate::board_utils::{color_index, piece_type_index};
use crate::enums::{opponent_of, Color, PieceType};
use crate::move_generator::attack_data::{opponent_pieces, AttackData};
use crate::move_generator::move_generator::{diagonal_attacks_spec, orthogonal_attacks_spec};
use crate::move_generator::tables::{BLACK_PAWN_ATTACKS, KNIGHT_MOVES, WHITE_PAWN_ATTACKS};
use crate::move_generator::utils::king_pawn_zone;
use crate::positions::{file_of, rank_of};

verus! {

/// The pieces of the side to move.
pub open spec fn own_pieces(board: Board) -> u64 {
    board.bbs()[color_index(board.side()) as int]
}

/// The opponent's pieces of type `t`.
pub open spec fn opponent_of_type(board: Board, t: PieceType) -> u64 {
    board.bbs()[piece_type_index(t) as int] & board.bbs()[color_index(opponent_of(board.side())) as int]
}

/// `a` and `b` share a rank or a file.
pub open spec fn on_orthogonal(a: int, b: int) -> bool {
    rank_of(a) == rank_of(b) || file_of(a) == file_of(b)
}

/// `a` and `b` share a diagonal or an anti-diagonal.
pub open spec fn on_diagonal(a: int, b: int) -> bool {
    rank_of(a) - file_of(a) == rank_of(b) - file_of(b) || rank_of(a) + file_of(a) == rank_of(b)
        + file_of(b)
}

/// The squares a pawn of the opponent of `side` attacks from `s`.
pub open spec fn opponent_pawn_attacks(side: Color, s: int) -> u64 {
    if side == Color::White {
        BLACK_PAWN_ATTACKS@[s]
    } else {
        WHITE_PAWN_ATTACKS@[s]
    }
}

/// The opponent's piece of type `t` on `s` checks the king `king_bb` standing on
/// `king_square`: a knight a knight's jump away; a pawn near the king (see
/// `king_pawn_zone`) that attacks it; a rook, bishop or queen on a line with the
/// king whose moves, with every piece of the board as a blocker, reach it.
pub open spec fn gives_check(board: Board, king_square: int, king_bb: u64, t: PieceType, s: u64) -> bool {
    let occupied = opponent_pieces(board) | own_pieces(board);
    let orthogonal = orthogonal_attacks_spec(occupied, s as int);
    let diagonal = diagonal_attacks_spec(occupied, s as int);
    &&& s < 64
    &&& has_sq(opponent_of_type(board, t), s)
    &&& match t {
        PieceType::Knight => has_sq(KNIGHT_MOVES@[king_square], s),
        PieceType::Pawn => has_sq(king_pawn_zone(board.side(), king_bb), s) && opponent_pawn_attacks(
            board.side(),
            s as int,
        ) & king_bb != 0,
        PieceType::Rook => on_orthogonal(s as int, king_square) && orthogonal & king_bb != 0,
        PieceType::Bishop => on_diagonal(s as int, king_square) && diagonal & king_bb != 0,
        PieceType::Queen => (on_orthogonal(s as int, king_square) || on_diagonal(s as int, king_square))
            && (orthogonal | diagonal) & king_bb != 0,
        _ => false,
    }
}

/// The squares met stepping from `cur` in `dir`, at most `n` steps, up to (not
/// including) a square of `stop`.
pub open spec fn steps_until(dir: Direction, cur: u64, stop: u64, n: nat) -> u64
    decreases n,
{
    if n == 0 || cur & stop != 0 {
        0
    } else {
        cur | steps_until(dir, step_spec(dir, cur), stop, (n - 1) as nat)
    }
}

/// The line from a checking slider on `s` to the king `king_bb` on `king_square`:
/// the squares met stepping from `s` towards the king up to the king (the first
/// step always counts, so a slider next to the king gives the king's square).
pub open spec fn check_line(s: u64, king_square: int, king_bb: u64) -> u64 {
    let dir = direction_between(s as int, king_square);
    let first = step_spec(dir, 1u64 << s);
    first | steps_until(dir, first, king_bb, 8)
}

/// The squares met stepping from `cur` in `dir`, at most `n` steps, until the board
/// is left.
pub open spec fn ray_off(dir: Direction, cur: u64, n: nat) -> u64
    decreases n,
{
    if n == 0 || cur == 0 {
        0
    } else {
        cur | ray_off(dir, step_spec(dir, cur), (n - 1) as nat)
    }
}

/// Where stepping from `cur` in `dir` stops: on the first square of `stop` met, or
/// after `n` steps.
pub open spec fn walk_end(dir: Direction, cur: u64, stop: u64, n: nat) -> u64
    decreases n,
{
    if n == 0 || cur & stop != 0 {
        cur
    } else {
        walk_end(dir, step_spec(dir, cur), stop, (n - 1) as nat)
    }
}

/// The squares behind the king on the line of a slider on `s` that checks it: those
/// met stepping on past the king until the board is left.
pub open spec fn behind_king(s: u64, king_square: int, king_bb: u64) -> u64 {
    let dir = direction_between(s as int, king_square);
    ray_off(dir, step_spec(dir, walk_end(dir, step_spec(dir, 1u64 << s), king_bb, 8)), 8)
}

/// Rooks, bishops and queens.
pub open spec fn is_slider(t: PieceType) -> bool {
    t == PieceType::Rook || t == PieceType::Bishop || t == PieceType::Queen
}

/// The squares met stepping from `cur` in `dir`, at most `n` steps, until the board
/// is left or the king's bitboard `king` is reached (the king excluded).
pub open spec fn scan(dir: Direction, cur: u64, king: u64, n: nat) -> u64
    decreases n,
{
    if n == 0 || cur == 0 || cur == king {
        0
    } else {
        cur | scan(dir, step_spec(dir, cur), king, (n - 1) as nat)
    }
}

/// Scanning as `scan` does, the piece met when exactly one is met: `seen` is the
/// piece met so far, and a second piece ends the scan with none.
pub open spec fn lone_piece(dir: Direction, cur: u64, king: u64, bbs: Seq<u64>, n: nat, seen: Option<u64>) -> Option<u64>
    decreases n,
{
    if n == 0 || cur == 0 || cur == king {
        seen
    } else if type_at(bbs, cur) != PieceType::Empty {
        if seen is Some {
            None
        } else {
            lone_piece(dir, step_spec(dir, cur), king, bbs, (n - 1) as nat, Some(cur))
        }
    } else {
        lone_piece(dir, step_spec(dir, cur), king, bbs, (n - 1) as nat, seen)
    }
}

/// The line a piece pinned by a slider on `s` keeps to: the slider's square and the
/// squares met stepping from it towards the king.
pub open spec fn pin_line(s: u64, king_square: int, king_bb: u64) -> u64 {
    let dir = direction_between(s as int, king_square);
    (1u64 << s) | scan(dir, step_spec(dir, 1u64 << s), king_bb, 8)
}

/// The piece met alone stepping from a slider on `s` towards the king.
pub open spec fn lone_piece_from(board: Board, s: u64, king_square: int, king_bb: u64) -> Option<u64> {
    let dir = direction_between(s as int, king_square);
    lone_piece(dir, step_spec(dir, 1u64 << s), king_bb, board.bbs(), 8, None::<u64>)
}

/// The slider on `s` pins the piece on `x`: the one piece met stepping from the
/// slider towards the king stands on `x` and belongs to the side to move.
pub open spec fn pins_from(board: Board, s: u64, king_square: int, king_bb: u64, x: u64) -> bool {
    let r = lone_piece_from(board, s, king_square, king_bb);
    &&& x < 64
    &&& r is Some
    &&& r->0 == 1u64 << x
    &&& color_at(board.bbs(), r->0) == board.side()
}

/// A rook keeps to ranks and files, a bishop to diagonals, a queen to both.
pub open spec fn aligned(t: PieceType, s: int, king_square: int) -> bool {
    match t {
        PieceType::Rook => on_orthogonal(s, king_square),
        PieceType::Bishop => on_diagonal(s, king_square),
        PieceType::Queen => on_orthogonal(s, king_square) || on_diagonal(s, king_square),
        _ => false,
    }
}

/// The opponent's slider of type `t` on `s`, on a line with the king it does not
/// check, pins the piece of the side to move on `x`.
pub open spec fn pins_square(board: Board, king_square: int, king_bb: u64, t: PieceType, s: u64, x: u64) -> bool {
    &&& s < 64
    &&& is_slider(t)
    &&& has_sq(opponent_of_type(board, t), s)
    &&& aligned(t, s as int, king_square)
    &&& !gives_check(board, king_square, king_bb, t, s)
    &&& pins_from(board, s, king_square, king_bb, x)
}

/// Some opponent slider of type `t` pins the piece on `x`.
pub open spec fn pinned_by_type(board: Board, king_square: int, king_bb: u64, t: PieceType, x: u64) -> bool {
    exists|s: u64| #[trigger] pins_square(board, king_square, king_bb, t, s, x)
}

/// Some opponent slider pins the piece on `x`.
pub open spec fn pinned(board: Board, king_square: int, king_bb: u64, x: u64) -> bool {
    exists|t: PieceType, s: u64| #[trigger] pins_square(board, king_square, king_bb, t, s, x)
}

/// Some opponent piece of type `t` checks the king.
pub open spec fn checked_by_type(board: Board, king_square: int, king_bb: u64, t: PieceType) -> bool {
    exists|s: u64| #[trigger] gives_check(board, king_square, king_bb, t, s)
}

/// Two opponent pieces of type `t` check the king.
pub open spec fn twice_checked_by_type(board: Board, king_square: int, king_bb: u64, t: PieceType) -> bool {
    exists|x: u64, y: u64|
        x != y && #[trigger] gives_check(board, king_square, king_bb, t, x) && #[trigger] gives_check(
            board,
            king_square,
            king_bb,
            t,
            y,
        )
}

/// Some opponent piece checks the king.
pub open spec fn king_in_check(board: Board, king_square: int, king_bb: u64) -> bool {
    exists|t: PieceType, s: u64| #[trigger] gives_check(board, king_square, king_bb, t, s)
}

/// Two opponent pieces check the king, where knights that check together count once.
pub open spec fn king_in_double_check(board: Board, king_square: int, king_bb: u64) -> bool {
    exists|t1: PieceType, s1: u64, t2: PieceType, s2: u64|
        #[trigger] gives_check(board, king_square, king_bb, t1, s1) && #[trigger] gives_check(
            board,
            king_square,
            king_bb,
            t2,
            s2,
        ) && (t1 != t2 || (s1 != s2 && t1 != PieceType::Knight))
}

/// An opponent piece on `s` checks the king.
pub open spec fn checker_on(board: Board, king_square: int, king_bb: u64, s: u64) -> bool {
    exists|t: PieceType| #[trigger] gives_check(board, king_square, king_bb, t, s)
}

/// `x` lies on the line from a checking rook, bishop or queen to the king.
pub open spec fn on_check_line(board: Board, king_square: int, king_bb: u64, x: u64) -> bool {
    exists|t: PieceType, s: u64|
        is_slider(t) && #[trigger] gives_check(board, king_square, king_bb, t, s) && has_sq(
            check_line(s, king_square, king_bb),
            x,
        )
}

/// The check lines, from those of each type of slider.
pub proof fn lemma_check_lines_combined(board: Board, king_square: int, king_bb: u64)
    ensures
        forall|x: u64|
            #[trigger] on_check_line(board, king_square, king_bb, x) == ((exists|s: u64|
                #[trigger] gives_check(board, king_square, king_bb, PieceType::Rook, s) && has_sq(
                    check_line(s, king_square, king_bb),
                    x,
                )) || (exists|s: u64|
                #[trigger] gives_check(board, king_square, king_bb, PieceType::Bishop, s) && has_sq(
                    check_line(s, king_square, king_bb),
                    x,
                )) || (exists|s: u64|
                #[trigger] gives_check(board, king_square, king_bb, PieceType::Queen, s) && has_sq(
                    check_line(s, king_square, king_bb),
                    x,
                ))),
{
    assert forall|x: u64| #[trigger] on_check_line(board, king_square, king_bb, x) == ((exists|s: u64|
        #[trigger] gives_check(board, king_square, king_bb, PieceType::Rook, s) && has_sq(
            check_line(s, king_square, king_bb),
            x,
        )) || (exists|s: u64|
        #[trigger] gives_check(board, king_square, king_bb, PieceType::Bishop, s) && has_sq(
            check_line(s, king_square, king_bb),
            x,
        )) || (exists|s: u64|
        #[trigger] gives_check(board, king_square, king_bb, PieceType::Queen, s) && has_sq(
            check_line(s, king_square, king_bb),
            x,
        ))) by {
        if on_check_line(board, king_square, king_bb, x) {
            let (t, s) = choose|t: PieceType, s: u64|
                is_slider(t) && #[trigger] gives_check(board, king_square, king_bb, t, s) && has_sq(
                    check_line(s, king_square, king_bb),
                    x,
                );
            assert(gives_check(board, king_square, king_bb, t, s));
        }
        if exists|s: u64|
            #[trigger] gives_check(board, king_square, king_bb, PieceType::Rook, s) && has_sq(check_line(s, king_square, king_bb), x) {
            let s = choose|s: u64|
                #[trigger] gives_check(board, king_square, king_bb, PieceType::Rook, s) && has_sq(check_line(s, king_square, king_bb), x);
            assert(is_slider(PieceType::Rook));
        }
        if exists|s: u64|
            #[trigger] gives_check(board, king_square, king_bb, PieceType::Bishop, s) && has_sq(check_line(s, king_square, king_bb), x) {
            let s = choose|s: u64|
                #[trigger] gives_check(board, king_square, king_bb, PieceType::Bishop, s) && has_sq(check_line(s, king_square, king_bb), x);
            assert(is_slider(PieceType::Bishop));
        }
        if exists|s: u64|
            #[trigger] gives_check(board, king_square, king_bb, PieceType::Queen, s) && has_sq(check_line(s, king_square, king_bb), x) {
            let s = choose|s: u64|
                #[trigger] gives_check(board, king_square, king_bb, PieceType::Queen, s) && has_sq(check_line(s, king_square, king_bb), x);
            assert(is_slider(PieceType::Queen));
        }
    }
}

/// Checks by any piece, and double checks, from the checks of each type.
pub proof fn lemma_checks_combined(board: Board, king_square: int, king_bb: u64)
    ensures
        ({
            let r = checked_by_type(board, king_square, king_bb, PieceType::Rook);
            let b = checked_by_type(board, king_square, king_bb, PieceType::Bishop);
            let q = checked_by_type(board, king_square, king_bb, PieceType::Queen);
            let n = checked_by_type(board, king_square, king_bb, PieceType::Knight);
            let p = checked_by_type(board, king_square, king_bb, PieceType::Pawn);
            &&& king_in_check(board, king_square, king_bb) == (r || b || q || n || p)
            &&& king_in_double_check(board, king_square, king_bb) == (twice_checked_by_type(
                board,
                king_square,
                king_bb,
                PieceType::Rook,
            ) || twice_checked_by_type(board, king_square, king_bb, PieceType::Bishop)
                || twice_checked_by_type(board, king_square, king_bb, PieceType::Queen)
                || twice_checked_by_type(board, king_square, king_bb, PieceType::Pawn) || (r && b) || (r
                && q) || (r && n) || (r && p) || (b && q) || (b && n) || (b && p) || (q && n) || (q && p)
                || (n && p))
        }),
        forall|s: u64|
            #[trigger] checker_on(board, king_square, king_bb, s) == (gives_check(
                board,
                king_square,
                king_bb,
                PieceType::Rook,
                s,
            ) || gives_check(board, king_square, king_bb, PieceType::Bishop, s) || gives_check(
                board,
                king_square,
                king_bb,
                PieceType::Queen,
                s,
            ) || gives_check(board, king_square, king_bb, PieceType::Knight, s) || gives_check(
                board,
                king_square,
                king_bb,
                PieceType::Pawn,
                s,
            )),
{
    assert forall|t: PieceType, s: u64| #[trigger] gives_check(board, king_square, king_bb, t, s) implies (
    t == PieceType::Rook || t == PieceType::Bishop || t == PieceType::Queen || t == PieceType::Knight
        || t == PieceType::Pawn) by {}
    if king_in_check(board, king_square, king_bb) {
        let (t, s) = choose|t: PieceType, s: u64| #[trigger] gives_check(board, king_square, king_bb, t, s);
        assert(checked_by_type(board, king_square, king_bb, t));
    }
    if king_in_double_check(board, king_square, king_bb) {
        let (t1, s1, t2, s2) = choose|t1: PieceType, s1: u64, t2: PieceType, s2: u64|
            #[trigger] gives_check(board, king_square, king_bb, t1, s1) && #[trigger] gives_check(
                board,
                king_square,
                king_bb,
                t2,
                s2,
            ) && (t1 != t2 || (s1 != s2 && t1 != PieceType::Knight));
        assert(checked_by_type(board, king_square, king_bb, t1));
        assert(checked_by_type(board, king_square, king_bb, t2));
        if t1 == t2 {
            assert(twice_checked_by_type(board, king_square, king_bb, t1));
        }
    }
    assert forall|t1: PieceType, t2: PieceType|
        t1 != t2 && #[trigger] checked_by_type(board, king_square, king_bb, t1) && #[trigger] checked_by_type(
            board,
            king_square,
            king_bb,
            t2,
        ) implies king_in_double_check(board, king_square, king_bb) by {
        let s1 = choose|s: u64| #[trigger] gives_check(board, king_square, king_bb, t1, s);
        let s2 = choose|s: u64| #[trigger] gives_check(board, king_square, king_bb, t2, s);
        assert(gives_check(board, king_square, king_bb, t1, s1) && gives_check(board, king_square, king_bb, t2, s2));
    }
    assert forall|t: PieceType|
        t != PieceType::Knight && #[trigger] twice_checked_by_type(board, king_square, king_bb, t) implies king_in_double_check(board, king_square, king_bb) by {
        let (x, y) = choose|x: u64, y: u64|
            x != y && #[trigger] gives_check(board, king_square, king_bb, t, x) && #[trigger] gives_check(
                board,
                king_square,
                king_bb,
                t,
                y,
            );
        assert(gives_check(board, king_square, king_bb, t, x) && gives_check(board, king_square, king_bb, t, y));
    }
    assert forall|t: PieceType| #[trigger] checked_by_type(board, king_square, king_bb, t) implies king_in_check(board, king_square, king_bb) by {
        let s = choose|s: u64| #[trigger] gives_check(board, king_square, king_bb, t, s);
        assert(gives_check(board, king_square, king_bb, t, s));
    }
    assert forall|s: u64| #[trigger] checker_on(board, king_square, king_bb, s) == (gives_check(
        board,
        king_square,
        king_bb,
        PieceType::Rook,
        s,
    ) || gives_check(board, king_square, king_bb, PieceType::Bishop, s) || gives_check(
        board,
        king_square,
        king_bb,
        PieceType::Queen,
        s,
    ) || gives_check(board, king_square, king_bb, PieceType::Knight, s) || gives_check(
        board,
        king_square,
        king_bb,
        PieceType::Pawn,
        s,
    )) by {
        if checker_on(board, king_square, king_bb, s) {
            let t = choose|t: PieceType| #[trigger] gives_check(board, king_square, king_bb, t, s);
        }
    }
}

impl AttackData {
    /// The opponent's piece of type `t` on `s` checks the king these data locate.
    pub open spec fn checks(self, board: Board, t: PieceType, s: u64) -> bool {
        gives_check(board, self.king_square as int, self.king_bb_position, t, s)
    }

    /// Some piece of type `t` gives check.
    pub open spec fn checked_by(self, board: Board, t: PieceType) -> bool {
        checked_by_type(board, self.king_square as int, self.king_bb_position, t)
    }

    /// Two pieces of type `t` give check.
    pub open spec fn twice_checked_by(self, board: Board, t: PieceType) -> bool {
        twice_checked_by_type(board, self.king_square as int, self.king_bb_position, t)
    }

    /// The checks of type `t` still to be found are those on squares of `left`.
    pub open spec fn found(self, board: Board, t: PieceType, left: u64, s: u64) -> bool {
        self.checks(board, t, s) && !has_sq(left, s)
    }

    /// A slider of type `t` found so far, on a line through `x`.
    pub open spec fn found_line(self, board: Board, t: PieceType, left: u64, x: u64) -> bool {
        is_slider(t) && exists|s: u64|
            #[trigger] self.found(board, t, left, s) && has_sq(check_line(s, self.king_square as int, self.king_bb_position), x)
    }

    /// From `start` to `self`, the checks of type `t` found so far were added: their
    /// squares to `attack_bb`, a check, a double check when a check was already
    /// known or (when `pairs`) two of them were found, and for sliders their lines to
    /// the king to `defenders_bb`.
    pub open spec fn added(self, start: AttackData, board: Board, t: PieceType, left: u64, pairs: bool) -> bool {
        &&& self.king_square == start.king_square
        &&& self.king_bb_position == start.king_bb_position
        &&& forall|s: u64|
            s < 64 ==> #[trigger] has_sq(self.attack_bb, s) == (has_sq(start.attack_bb, s) || start.found(
                board,
                t,
                left,
                s,
            ))
        &&& self.in_check == (start.in_check || exists|s: u64| #[trigger] start.found(board, t, left, s))
        &&& self.in_double_check == (start.in_double_check || (start.in_check && exists|s: u64|
            #[trigger] start.found(board, t, left, s)) || (pairs && exists|x: u64, y: u64|
            x != y && #[trigger] start.found(board, t, left, x) && #[trigger] start.found(board, t, left, y)))
        &&& forall|x: u64|
            x < 64 ==> #[trigger] has_sq(self.defenders_bb, x) == (has_sq(start.defenders_bb, x) || start.found_line(
                board,
                t,
                left,
                x,
            ))
    }
}

/// Moving a square of `x` into `a` keeps their union.
pub proof fn lemma_move_square(a: u64, x: u64, k: u64)
    requires
        k < 64,
        has_sq(x, k),
    ensures
        (a | (1u64 << k)) | (x & !(1u64 << k)) == a | x,
{
    assert(k < 64 && x & (1u64 << k) != 0 ==> (a | (1u64 << k)) | (x & !(1u64 << k)) == a | x) by (bit_vector);
}

/// Before any square is looked at nothing is found, when `left` holds every square
/// that checks.
pub proof fn lemma_added_start(a: AttackData, board: Board, t: PieceType, left: u64, pairs: bool)
    requires
        forall|s: u64| s < 64 && #[trigger] a.checks(board, t, s) ==> has_sq(left, s),
    ensures
        a.added(a, board, t, left, pairs),
{
    assert forall|s: u64| !#[trigger] a.found(board, t, left, s) by {
        if a.found(board, t, left, s) {
            assert(s < 64);
        }
    }
}

/// Once every square is looked at, what was found is every check of type `t`.
pub proof fn lemma_added_end(a: AttackData, start: AttackData, board: Board, t: PieceType, pairs: bool)
    requires
        a.added(start, board, t, 0, pairs),
    ensures
        forall|s: u64|
            s < 64 ==> #[trigger] has_sq(a.attack_bb, s) == (has_sq(start.attack_bb, s) || start.checks(
                board,
                t,
                s,
            )),
        a.in_check == (start.in_check || start.checked_by(board, t)),
        a.in_double_check == (start.in_double_check || (start.in_check && start.checked_by(board, t)) || (
        pairs && start.twice_checked_by(board, t))),
        forall|x: u64|
            x < 64 ==> #[trigger] has_sq(a.defenders_bb, x) == (has_sq(start.defenders_bb, x) || (is_slider(t)
                && exists|s: u64|
                #[trigger] start.checks(board, t, s) && has_sq(
                    check_line(s, start.king_square as int, start.king_bb_position),
                    x,
                ))),
{
    lemma_has_sq_ops();
    assert forall|s: u64| #[trigger] start.found(board, t, 0, s) == start.checks(board, t, s) by {
        if start.checks(board, t, s) {
            assert(s < 64);
        }
    }
    assert(start.checked_by(board, t) == exists|s: u64| #[trigger] start.found(board, t, 0, s)) by {
        if start.checked_by(board, t) {
            let s = choose|s: u64| #[trigger] gives_check(board, start.king_square as int, start.king_bb_position, t, s);
            assert(start.found(board, t, 0, s));
        }
    }
    assert(start.twice_checked_by(board, t) == exists|x: u64, y: u64|
        x != y && #[trigger] start.found(board, t, 0, x) && #[trigger] start.found(board, t, 0, y)) by {
        if start.twice_checked_by(board, t) {
            let (x, y) = choose|x: u64, y: u64|
                x != y && #[trigger] gives_check(board, start.king_square as int, start.king_bb_position, t, x)
                    && #[trigger] gives_check(board, start.king_square as int, start.king_bb_position, t, y);
            assert(start.found(board, t, 0, x) && start.found(board, t, 0, y));
        }
    }
    assert forall|x: u64| x < 64 implies #[trigger] has_sq(a.defenders_bb, x) == (has_sq(start.defenders_bb, x) || (
    is_slider(t) && exists|s: u64|
        #[trigger] start.checks(board, t, s) && has_sq(check_line(s, start.king_square as int, start.king_bb_position), x)))
        by {
        if start.found_line(board, t, 0, x) {
            let s = choose|s: u64|
                #[trigger] start.found(board, t, 0, s) && has_sq(check_line(s, start.king_square as int, start.king_bb_position), x);
            assert(start.checks(board, t, s));
        }
        if is_slider(t) && exists|s: u64|
            #[trigger] start.checks(board, t, s) && has_sq(check_line(s, start.king_square as int, start.king_bb_position), x) {
            let s = choose|s: u64|
                #[trigger] start.checks(board, t, s) && has_sq(check_line(s, start.king_square as int, start.king_bb_position), x);
            assert(start.found(board, t, 0, s));
        }
    }
}

/// Looking at a square that does not check changes nothing.
pub proof fn lemma_added_skip(a: AttackData, start: AttackData, board: Board, t: PieceType, left: u64, k: u64, pairs: bool)
    requires
        a.added(start, board, t, left, pairs),
        k < 64,
        !start.checks(board, t, k),
    ensures
        a.added(start, board, t, left & !(1u64 << k), pairs),
{
    lemma_has_sq_ops();
    let l2 = left & !(1u64 << k);
    assert forall|s: u64| #[trigger] start.found(board, t, l2, s) == start.found(board, t, left, s) by {
        if start.checks(board, t, s) {
            assert(s < 64);
        }
    }
    assert((exists|s: u64| #[trigger] start.found(board, t, l2, s)) == (exists|s: u64| #[trigger] start.found(board, t, left, s))) by {
        if exists|s: u64| #[trigger] start.found(board, t, left, s) {
            let s = choose|s: u64| #[trigger] start.found(board, t, left, s);
            assert(start.found(board, t, l2, s));
        }
    }
    assert((exists|x: u64, y: u64| x != y && #[trigger] start.found(board, t, l2, x) && #[trigger] start.found(board, t, l2, y))
        == (exists|x: u64, y: u64| x != y && #[trigger] start.found(board, t, left, x) && #[trigger] start.found(board, t, left, y))) by {
        if exists|x: u64, y: u64| x != y && #[trigger] start.found(board, t, left, x) && #[trigger] start.found(board, t, left, y) {
            let (x, y) = choose|x: u64, y: u64| x != y && #[trigger] start.found(board, t, left, x) && #[trigger] start.found(board, t, left, y);
            assert(start.found(board, t, l2, x) && start.found(board, t, l2, y));
        }
    }
    assert forall|x: u64| #[trigger] start.found_line(board, t, l2, x) == start.found_line(board, t, left, x) by {
        if start.found_line(board, t, left, x) {
            let s = choose|s: u64|
                #[trigger] start.found(board, t, left, s) && has_sq(check_line(s, start.king_square as int, start.king_bb_position), x);
            assert(start.found(board, t, l2, s));
        }
        if start.found_line(board, t, l2, x) {
            let s = choose|s: u64|
                #[trigger] start.found(board, t, l2, s) && has_sq(check_line(s, start.king_square as int, start.king_bb_position), x);
            assert(start.found(board, t, left, s));
        }
    }
}

/// Finding a check on `k`, one of the squares still to look at: its square joins
/// `attack_bb`, a check is known, and a double check when one was known before.
pub proof fn lemma_added_found(a: AttackData, next: AttackData, start: AttackData, board: Board, t: PieceType, left: u64, k: u64)
    requires
        a.added(start, board, t, left, true),
        start.in_double_check ==> start.in_check,
        k < 64,
        has_sq(left, k),
        start.checks(board, t, k),
        next.king_square == a.king_square,
        next.king_bb_position == a.king_bb_position,
        next.attack_bb == a.attack_bb | (1u64 << k),
        next.in_check,
        next.in_double_check == a.in_check,
        is_slider(t) ==> next.defenders_bb == a.defenders_bb | check_line(k, start.king_square as int, start.king_bb_position),
        !is_slider(t) ==> next.defenders_bb == a.defenders_bb,
    ensures
        next.added(start, board, t, left & !(1u64 << k), true),
{
    lemma_has_sq_ops();
    let l2 = left & !(1u64 << k);
    assert forall|s: u64| #[trigger] start.found(board, t, l2, s) == (start.found(board, t, left, s) || s == k) by {
        if start.checks(board, t, s) {
            assert(s < 64);
        }
    }
    assert(start.found(board, t, l2, k));
    assert(!start.found(board, t, left, k));
    assert((exists|x: u64, y: u64| x != y && #[trigger] start.found(board, t, l2, x) && #[trigger] start.found(board, t, l2, y))
        == (exists|s: u64| #[trigger] start.found(board, t, left, s))) by {
        if exists|s: u64| #[trigger] start.found(board, t, left, s) {
            let s = choose|s: u64| #[trigger] start.found(board, t, left, s);
            assert(s != k && start.found(board, t, l2, s) && start.found(board, t, l2, k));
        }
        if exists|x: u64, y: u64| x != y && #[trigger] start.found(board, t, l2, x) && #[trigger] start.found(board, t, l2, y) {
            let (x, y) = choose|x: u64, y: u64| x != y && #[trigger] start.found(board, t, l2, x) && #[trigger] start.found(board, t, l2, y);
            if x == k {
                assert(start.found(board, t, left, y));
            } else {
                assert(start.found(board, t, left, x));
            }
        }
    }
    assert forall|x: u64| #[trigger] start.found_line(board, t, l2, x) == (start.found_line(board, t, left, x) || (is_slider(t)
        && has_sq(check_line(k, start.king_square as int, start.king_bb_position), x))) by {
        if start.found_line(board, t, left, x) {
            let s = choose|s: u64|
                #[trigger] start.found(board, t, left, s) && has_sq(check_line(s, start.king_square as int, start.king_bb_position), x);
            assert(start.found(board, t, l2, s));
        }
        if is_slider(t) && has_sq(check_line(k, start.king_square as int, start.king_bb_position), x) {
            assert(start.found(board, t, l2, k));
        }
        if start.found_line(board, t, l2, x) {
            let s = choose|s: u64|
                #[trigger] start.found(board, t, l2, s) && has_sq(check_line(s, start.king_square as int, start.king_bb_position), x);
            if s != k {
                assert(start.found(board, t, left, s));
            }
        }
    }
}

impl AttackData {
    /// The slider of type `t` on `s`, looked at already, pins the piece on `x`.
    pub open spec fn pin_found(self, board: Board, t: PieceType, left: u64, s: u64, x: u64) -> bool {
        pins_square(board, self.king_square as int, self.king_bb_position, t, s, x) && !has_sq(left, s)
    }

    /// Some slider of type `t`, looked at already, pins the piece on `x`.
    pub open spec fn some_pin_found(self, board: Board, t: PieceType, left: u64, x: u64) -> bool {
        exists|s: u64| #[trigger] self.pin_found(board, t, left, s, x)
    }

    /// From `start` to `self`, the pins by the sliders of type `t` looked at so far
    /// were recorded: a pinned piece keeps to the line of a slider that pins it, the
    /// other entries are as they were.
    pub open spec fn pins_added(self, start: AttackData, board: Board, t: PieceType, left: u64) -> bool {
        &&& self.king_square == start.king_square
        &&& self.king_bb_position == start.king_bb_position
        &&& forall|x: u64|
            x < 64 && !#[trigger] start.some_pin_found(board, t, left, x) ==> self.friendly_pins_moves_bbs@[x as int]
                == start.friendly_pins_moves_bbs@[x as int]
        &&& forall|x: u64|
            x < 64 && #[trigger] start.some_pin_found(board, t, left, x) ==> exists|s: u64|
                #[trigger] start.pin_found(board, t, left, s, x) && self.friendly_pins_moves_bbs@[x as int] == pin_line(
                    s,
                    start.king_square as int,
                    start.king_bb_position,
                )
    }
}

/// Before any slider is looked at no pin is found, when `left` holds every slider of
/// type `t` that pins.
pub proof fn lemma_pins_start(a: AttackData, board: Board, t: PieceType, left: u64)
    requires
        forall|s: u64, x: u64| #[trigger] pins_square(board, a.king_square as int, a.king_bb_position, t, s, x) ==> has_sq(left, s),
    ensures
        a.pins_added(a, board, t, left),
{
}

/// A slider that pins nothing leaves the pins as they were.
pub proof fn lemma_pins_skip(a: AttackData, next: AttackData, start: AttackData, board: Board, t: PieceType, left: u64, k: u64)
    requires
        a.pins_added(start, board, t, left),
        k < 64,
        forall|x: u64| !#[trigger] pins_square(board, start.king_square as int, start.king_bb_position, t, k, x),
        next.friendly_pins_moves_bbs == a.friendly_pins_moves_bbs,
        next.king_square == a.king_square,
        next.king_bb_position == a.king_bb_position,
    ensures
        next.pins_added(start, board, t, left & !(1u64 << k)),
{
    lemma_has_sq_ops();
    let l2 = left & !(1u64 << k);
    assert forall|s: u64, x: u64| #[trigger] start.pin_found(board, t, l2, s, x) == start.pin_found(board, t, left, s, x) by {
        if pins_square(board, start.king_square as int, start.king_bb_position, t, s, x) {
            assert(s < 64);
        }
    }
    assert forall|x: u64| #[trigger] start.some_pin_found(board, t, l2, x) == start.some_pin_found(board, t, left, x) by {
        if exists|s: u64| #[trigger] start.pin_found(board, t, left, s, x) {
            let s = choose|s: u64| #[trigger] start.pin_found(board, t, left, s, x);
            assert(start.pin_found(board, t, l2, s, x));
        }
    }
    assert forall|x: u64| x < 64 && #[trigger] start.some_pin_found(board, t, l2, x) implies exists|s: u64|
        #[trigger] start.pin_found(board, t, l2, s, x) && next.friendly_pins_moves_bbs@[x as int] == pin_line(
            s,
            start.king_square as int,
            start.king_bb_position,
        ) by {
        assert(start.some_pin_found(board, t, left, x));
        let s = choose|s: u64|
            #[trigger] start.pin_found(board, t, left, s, x) && a.friendly_pins_moves_bbs@[x as int] == pin_line(
                s,
                start.king_square as int,
                start.king_bb_position,
            );
        assert(start.pin_found(board, t, l2, s, x));
    }
}

/// A slider on `k` that may pin: the pin it finds is recorded.
pub proof fn lemma_pins_step(a: AttackData, next: AttackData, start: AttackData, board: Board, t: PieceType, left: u64, k: u64)
    requires
        a.pins_added(start, board, t, left),
        k < 64,
        has_sq(left, k),
        forall|x: u64|
            #[trigger] pins_square(board, start.king_square as int, start.king_bb_position, t, k, x) == pins_from(
                board,
                k,
                start.king_square as int,
                start.king_bb_position,
                x,
            ),
        forall|x: u64|
            x < 64 ==> #[trigger] next.friendly_pins_moves_bbs@[x as int] == (if pins_from(
                board,
                k,
                start.king_square as int,
                start.king_bb_position,
                x,
            ) {
                pin_line(k, start.king_square as int, start.king_bb_position)
            } else {
                a.friendly_pins_moves_bbs@[x as int]
            }),
        next.king_square == a.king_square,
        next.king_bb_position == a.king_bb_position,
    ensures
        next.pins_added(start, board, t, left & !(1u64 << k)),
{
    lemma_has_sq_ops();
    let l2 = left & !(1u64 << k);
    assert forall|s: u64, x: u64| #[trigger] start.pin_found(board, t, l2, s, x) == (start.pin_found(board, t, left, s, x)
        || (s == k && pins_square(board, start.king_square as int, start.king_bb_position, t, k, x))) by {
        if pins_square(board, start.king_square as int, start.king_bb_position, t, s, x) {
            assert(s < 64);
        }
    }
    assert forall|x: u64| x < 64 && !#[trigger] start.some_pin_found(board, t, l2, x) implies next.friendly_pins_moves_bbs@[x as int]
        == start.friendly_pins_moves_bbs@[x as int] by {
        if pins_from(board, k, start.king_square as int, start.king_bb_position, x) {
            assert(start.pin_found(board, t, l2, k, x));
        }
        if start.some_pin_found(board, t, left, x) {
            let s = choose|s: u64| #[trigger] start.pin_found(board, t, left, s, x);
            assert(start.pin_found(board, t, l2, s, x));
        }
    }
    assert forall|x: u64| x < 64 && #[trigger] start.some_pin_found(board, t, l2, x) implies exists|s: u64|
        #[trigger] start.pin_found(board, t, l2, s, x) && next.friendly_pins_moves_bbs@[x as int] == pin_line(
            s,
            start.king_square as int,
            start.king_bb_position,
        ) by {
        if pins_from(board, k, start.king_square as int, start.king_bb_position, x) {
            assert(start.pin_found(board, t, l2, k, x));
        } else {
            let s0 = choose|s: u64| #[trigger] start.pin_found(board, t, l2, s, x);
            assert(start.pin_found(board, t, left, s0, x));
            assert(start.some_pin_found(board, t, left, x));
            let s = choose|s: u64|
                #[trigger] start.pin_found(board, t, left, s, x) && a.friendly_pins_moves_bbs@[x as int] == pin_line(
                    s,
                    start.king_square as int,
                    start.king_bb_position,
                );
            assert(start.pin_found(board, t, l2, s, x));
        }
    }
}

/// Once every slider of type `t` is looked at, the pins recorded are those of `t`.
pub proof fn lemma_pins_end(a: AttackData, start: AttackData, board: Board, t: PieceType)
    requires
        a.pins_added(start, board, t, 0),
    ensures
        forall|x: u64|
            x < 64 && !#[trigger] pinned_by_type(board, start.king_square as int, start.king_bb_position, t, x)
                ==> a.friendly_pins_moves_bbs@[x as int] == start.friendly_pins_moves_bbs@[x as int],
        forall|x: u64|
            x < 64 && #[trigger] pinned_by_type(board, start.king_square as int, start.king_bb_position, t, x) ==> exists|s: u64|
                #[trigger] pins_square(board, start.king_square as int, start.king_bb_position, t, s, x)
                    && a.friendly_pins_moves_bbs@[x as int] == pin_line(s, start.king_square as int, start.king_bb_position),
{
    lemma_has_sq_ops();
    assert forall|s: u64, x: u64| #[trigger] start.pin_found(board, t, 0, s, x) == pins_square(
        board,
        start.king_square as int,
        start.king_bb_position,
        t,
        s,
        x,
    ) by {
        if pins_square(board, start.king_square as int, start.king_bb_position, t, s, x) {
            assert(s < 64);
        }
    }
    assert forall|x: u64|
        x < 64 && !#[trigger] pinned_by_type(board, start.king_square as int, start.king_bb_position, t, x)
        implies a.friendly_pins_moves_bbs@[x as int] == start.friendly_pins_moves_bbs@[x as int] by {
        if start.some_pin_found(board, t, 0, x) {
            let s = choose|s: u64| #[trigger] start.pin_found(board, t, 0, s, x);
            assert(pins_square(board, start.king_square as int, start.king_bb_position, t, s, x));
        }
    }
    assert forall|x: u64|
        x < 64 && #[trigger] pinned_by_type(board, start.king_square as int, start.king_bb_position, t, x)
        implies exists|s: u64|
        #[trigger] pins_square(board, start.king_square as int, start.king_bb_position, t, s, x)
            && a.friendly_pins_moves_bbs@[x as int] == pin_line(s, start.king_square as int, start.king_bb_position) by {
        let s0 = choose|s: u64| #[trigger] pins_square(board, start.king_square as int, start.king_bb_position, t, s, x);
        assert(start.pin_found(board, t, 0, s0, x));
        assert(start.some_pin_found(board, t, 0, x));
        let s = choose|s: u64|
            #[trigger] start.pin_found(board, t, 0, s, x) && a.friendly_pins_moves_bbs@[x as int] == pin_line(
                s,
                start.king_square as int,
                start.king_bb_position,
            );
        assert(pins_square(board, start.king_square as int, start.king_bb_position, t, s, x));
    }
}

/// A piece is pinned exactly when a rook, a bishop or a queen pins it.
pub proof fn lemma_pinned_types(board: Board, king_square: int, king_bb: u64)
    ensures
        forall|x: u64|
            #[trigger] pinned(board, king_square, king_bb, x) == (pinned_by_type(board, king_square, king_bb, PieceType::Rook, x)
                || pinned_by_type(board, king_square, king_bb, PieceType::Bishop, x) || pinned_by_type(
                board,
                king_square,
                king_bb,
                PieceType::Queen,
                x,
            )),
{
    assert forall|x: u64|
        #[trigger] pinned(board, king_square, king_bb, x) == (pinned_by_type(board, king_square, king_bb, PieceType::Rook, x)
            || pinned_by_type(board, king_square, king_bb, PieceType::Bishop, x) || pinned_by_type(
            board,
            king_square,
            king_bb,
            PieceType::Queen,
            x,
        )) by {
        if pinned(board, king_square, king_bb, x) {
            let (t, s) = choose|t: PieceType, s: u64| #[trigger] pins_square(board, king_square, king_bb, t, s, x);
            assert(pins_square(board, king_square, king_bb, t, s, x));
        }
        if pinned_by_type(board, king_square, king_bb, PieceType::Rook, x) {
            let s = choose|s: u64| #[trigger] pins_square(board, king_square, king_bb, PieceType::Rook, s, x);
            assert(pins_square(board, king_square, king_bb, PieceType::Rook, s, x));
        }
        if pinned_by_type(board, king_square, king_bb, PieceType::Bishop, x) {
            let s = choose|s: u64| #[trigger] pins_square(board, king_square, king_bb, PieceType::Bishop, s, x);
            assert(pins_square(board, king_square, king_bb, PieceType::Bishop, s, x));
        }
        if pinned_by_type(board, king_square, king_bb, PieceType::Queen, x) {
            let s = choose|s: u64| #[trigger] pins_square(board, king_square, king_bb, PieceType::Queen, s, x);
            assert(pins_square(board, king_square, king_bb, PieceType::Queen, s, x));
        }
    }
}

/// The opponent's piece of type `t` on `s` takes `x` from the king: a rook, bishop
/// or queen the squares its moves reach (every piece a blocker) and, when it checks,
/// the squares behind the king on its line; a knight the squares a knight's jump
/// away; a pawn near the king (see `king_pawn_zone`) the squares it attacks.
pub open spec fn takes_square(board: Board, king_square: int, king_bb: u64, t: PieceType, s: u64, x: u64) -> bool {
    let occupied = opponent_pieces(board) | own_pieces(board);
    let orthogonal = orthogonal_attacks_spec(occupied, s as int);
    let diagonal = diagonal_attacks_spec(occupied, s as int);
    let behind = gives_check(board, king_square, king_bb, t, s) && has_sq(behind_king(s, king_square, king_bb), x);
    &&& s < 64
    &&& x < 64
    &&& has_sq(opponent_of_type(board, t), s)
    &&& match t {
        PieceType::Knight => has_sq(KNIGHT_MOVES@[s as int], x),
        PieceType::Pawn => has_sq(king_pawn_zone(board.side(), king_bb), s) && has_sq(
            opponent_pawn_attacks(board.side(), s as int),
            x,
        ),
        PieceType::Rook => has_sq(orthogonal, x) || behind,
        PieceType::Bishop => has_sq(diagonal, x) || behind,
        PieceType::Queen => has_sq(orthogonal | diagonal, x) || behind,
        _ => false,
    }
}

/// Some opponent piece of type `t` takes `x` from the king.
pub open spec fn taken_by_type(board: Board, king_square: int, king_bb: u64, t: PieceType, x: u64) -> bool {
    exists|s: u64| #[trigger] takes_square(board, king_square, king_bb, t, s, x)
}

/// Some opponent piece takes `x` from the king.
pub open spec fn taken_from_king(board: Board, king_square: int, king_bb: u64, x: u64) -> bool {
    exists|t: PieceType, s: u64| #[trigger] takes_square(board, king_square, king_bb, t, s, x)
}

impl AttackData {
    /// The piece of type `t` on `s`, looked at already, takes `x` from the king.
    pub open spec fn taken_found(self, board: Board, t: PieceType, left: u64, s: u64, x: u64) -> bool {
        takes_square(board, self.king_square as int, self.king_bb_position, t, s, x) && !has_sq(left, s)
    }

    /// Some piece of type `t`, looked at already, takes `x` from the king.
    pub open spec fn some_taken(self, board: Board, t: PieceType, left: u64, x: u64) -> bool {
        exists|s: u64| #[trigger] self.taken_found(board, t, left, s, x)
    }

    /// From `start` to `self`, the squares the pieces of type `t` looked at so far
    /// take from the king were taken from `king_allowed_squares`.
    pub open spec fn allowed_added(self, start: AttackData, board: Board, t: PieceType, left: u64) -> bool {
        &&& self.king_square == start.king_square
        &&& self.king_bb_position == start.king_bb_position
        &&& forall|x: u64|
            x < 64 ==> #[trigger] has_sq(self.king_allowed_squares, x) == (has_sq(start.king_allowed_squares, x)
                && !start.some_taken(board, t, left, x))
    }
}

/// Before any piece is looked at nothing is taken, when `left` holds every piece of
/// type `t` that takes a square.
pub proof fn lemma_allowed_start(a: AttackData, board: Board, t: PieceType, left: u64)
    requires
        forall|s: u64, x: u64| #[trigger] takes_square(board, a.king_square as int, a.king_bb_position, t, s, x) ==> has_sq(left, s),
    ensures
        a.allowed_added(a, board, t, left),
{
}

/// Looking at the piece on `k` takes the squares it takes.
pub proof fn lemma_allowed_step(a: AttackData, next: AttackData, start: AttackData, board: Board, t: PieceType, left: u64, k: u64)
    requires
        a.allowed_added(start, board, t, left),
        k < 64,
        forall|x: u64|
            x < 64 ==> #[trigger] has_sq(next.king_allowed_squares, x) == (has_sq(a.king_allowed_squares, x) && !takes_square(
                board,
                start.king_square as int,
                start.king_bb_position,
                t,
                k,
                x,
            )),
        next.king_square == a.king_square,
        next.king_bb_position == a.king_bb_position,
    ensures
        next.allowed_added(start, board, t, left & !(1u64 << k)),
{
    lemma_has_sq_ops();
    let l2 = left & !(1u64 << k);
    assert forall|x: u64| #[trigger] start.some_taken(board, t, l2, x) == (start.some_taken(board, t, left, x) || takes_square(
        board,
        start.king_square as int,
        start.king_bb_position,
        t,
        k,
        x,
    )) by {
        if start.some_taken(board, t, left, x) {
            let s = choose|s: u64| #[trigger] start.taken_found(board, t, left, s, x);
            assert(start.taken_found(board, t, l2, s, x));
        }
        if takes_square(board, start.king_square as int, start.king_bb_position, t, k, x) {
            assert(start.taken_found(board, t, l2, k, x));
        }
        if start.some_taken(board, t, l2, x) {
            let s = choose|s: u64| #[trigger] start.taken_found(board, t, l2, s, x);
            if s != k {
                assert(start.taken_found(board, t, left, s, x));
            }
        }
    }
}

/// Once every piece of type `t` is looked at, the squares taken are those `t` takes.
pub proof fn lemma_allowed_end(a: AttackData, start: AttackData, board: Board, t: PieceType)
    requires
        a.allowed_added(start, board, t, 0),
    ensures
        forall|x: u64|
            x < 64 ==> #[trigger] has_sq(a.king_allowed_squares, x) == (has_sq(start.king_allowed_squares, x)
                && !taken_by_type(board, start.king_square as int, start.king_bb_position, t, x)),
{
    lemma_has_sq_ops();
    assert forall|x: u64| #[trigger] start.some_taken(board, t, 0, x) == taken_by_type(
        board,
        start.king_square as int,
        start.king_bb_position,
        t,
        x,
    ) by {
        if start.some_taken(board, t, 0, x) {
            let s = choose|s: u64| #[trigger] start.taken_found(board, t, 0, s, x);
            assert(takes_square(board, start.king_square as int, start.king_bb_position, t, s, x));
        }
        if taken_by_type(board, start.king_square as int, start.king_bb_position, t, x) {
            let s = choose|s: u64| #[trigger] takes_square(board, start.king_square as int, start.king_bb_position, t, s, x);
            assert(s < 64);
            assert(start.taken_found(board, t, 0, s, x));
        }
    }
}

/// A square is taken from the king exactly when a piece of one of the five types
/// takes it.
pub proof fn lemma_taken_types(board: Board, king_square: int, king_bb: u64)
    ensures
        forall|x: u64|
            #[trigger] taken_from_king(board, king_square, king_bb, x) == (taken_by_type(board, king_square, king_bb, PieceType::Rook, x)
                || taken_by_type(board, king_square, king_bb, PieceType::Bishop, x) || taken_by_type(
                board,
                king_square,
                king_bb,
                PieceType::Queen,
                x,
            ) || taken_by_type(board, king_square, king_bb, PieceType::Knight, x) || taken_by_type(
                board,
                king_square,
                king_bb,
                PieceType::Pawn,
                x,
            )),
{
    assert forall|x: u64|
        #[trigger] taken_from_king(board, king_square, king_bb, x) == (taken_by_type(board, king_square, king_bb, PieceType::Rook, x)
            || taken_by_type(board, king_square, king_bb, PieceType::Bishop, x) || taken_by_type(
            board,
            king_square,
            king_bb,
            PieceType::Queen,
            x,
        ) || taken_by_type(board, king_square, king_bb, PieceType::Knight, x) || taken_by_type(
            board,
            king_square,
            king_bb,
            PieceType::Pawn,
            x,
        )) by {
        if taken_from_king(board, king_square, king_bb, x) {
            let (t, s) = choose|t: PieceType, s: u64| #[trigger] takes_square(board, king_square, king_bb, t, s, x);
            assert(takes_square(board, king_square, king_bb, t, s, x));
        }
        if taken_by_type(board, king_square, king_bb, PieceType::Rook, x) {
            let s = choose|s: u64| #[trigger] takes_square(board, king_square, king_bb, PieceType::Rook, s, x);
            assert(takes_square(board, king_square, king_bb, PieceType::Rook, s, x));
        }
        if taken_by_type(board, king_square, king_bb, PieceType::Bishop, x) {
            let s = choose|s: u64| #[trigger] takes_square(board, king_square, king_bb, PieceType::Bishop, s, x);
            assert(takes_square(board, king_square, king_bb, PieceType::Bishop, s, x));
        }
        if taken_by_type(board, king_square, king_bb, PieceType::Queen, x) {
            let s = choose|s: u64| #[trigger] takes_square(board, king_square, king_bb, PieceType::Queen, s, x);
            assert(takes_square(board, king_square, king_bb, PieceType::Queen, s, x));
        }
        if taken_by_type(board, king_square, king_bb, PieceType::Knight, x) {
            let s = choose|s: u64| #[trigger] takes_square(board, king_square, king_bb, PieceType::Knight, s, x);
            assert(takes_square(board, king_square, king_bb, PieceType::Knight, s, x));
        }
        if taken_by_type(board, king_square, king_bb, PieceType::Pawn, x) {
            let s = choose|s: u64| #[trigger] takes_square(board, king_square, king_bb, PieceType::Pawn, s, x);
            assert(takes_square(board, king_square, king_bb, PieceType::Pawn, s, x));
        }
    }
}

} // verus!
