use vstd::prelude::*;

use crate::board::{lemma_unmake_after_search, move_allowed, move_made, restored, Board};
use crate::enums::{opponent_of, Color};
use crate::move_generator::move_generator::{all_ok, generated_move_ok, generator_list, MoveGenerator};
use crate::moves::Move;

verus! {

/// The clocks have room for `depth` more moves.
pub open spec fn clocks_room(b: Board, depth: int) -> bool {
    &&& b.half() + depth <= u32::MAX
    &&& b.full() + depth <= u32::MAX
}

/// The sum of `cs`, added up from the front and held at `u64::MAX` once it gets there.
pub open spec fn sat_sum(cs: Seq<int>) -> int
    decreases cs.len(),
{
    if cs.len() == 0 {
        0
    } else {
        let s = sat_sum(cs.drop_last()) + cs.last();
        if s > u64::MAX {
            u64::MAX as int
        } else {
            s
        }
    }
}

/// `after` is reached from `b` by making `m`, `b` taken as a search below an earlier
/// move gives it back (`restored`, with the same winner).
pub open spec fn reached_by(b: Board, m: Move, after: Board) -> bool {
    exists|b1: Board| restored(b1, b) && b1.winner_of() == b.winner_of() && #[trigger] move_made(b1, m, after)
}

/// `r` counts the positions `depth` moves ahead of `b`: 1 at depth 0 or when the game
/// is over; else, over a list `ms` the move generator hands out for `b`, the sum (held
/// at `u64::MAX`) of what each move adds: for a move `b` allows, a count of the
/// position it reaches `depth - 1` moves further on; 0 for one it does not allow.
pub open spec fn position_count(b: Board, depth: nat, r: int) -> bool
    decreases depth,
{
    if depth == 0 || b.winner_of().is_some() {
        r == 1
    } else {
        exists|ms: Seq<Move>, cs: Seq<int>|
            #![trigger generator_list(b, ms), sat_sum(cs)]
            generator_list(b, ms) && cs.len() == ms.len() && r == sat_sum(cs) && forall|i: int|
                0 <= i < ms.len() ==> {
                    &&& move_allowed(b, #[trigger] ms[i]) ==> exists|after: Board|
                        #[trigger] reached_by(b, ms[i], after) && position_count(after, (depth - 1) as nat, cs[i])
                    &&& !move_allowed(b, ms[i]) ==> cs[i] == 0
                }
    }
}

/// What move `m` of a list from `b` adds to a count `below` moves further on (see
/// `position_count`).
pub open spec fn count_entry(b: Board, below: nat, m: Move, c: int) -> bool {
    &&& move_allowed(b, m) ==> exists|after: Board| #[trigger] reached_by(b, m, after) && position_count(after, below, c)
    &&& !move_allowed(b, m) ==> c == 0
}

/// The moves of `ms` that `b` allows, in order.
pub open spec fn allowed_moves(b: Board, ms: Seq<Move>) -> Seq<Move>
    decreases ms.len(),
{
    if ms.len() == 0 {
        ms
    } else {
        let rest = allowed_moves(b, ms.drop_last());
        if move_allowed(b, ms.last()) {
            rest.push(ms.last())
        } else {
            rest
        }
    }
}

/// Counts the positions reached after `depth` moves (a finished game counts once),
/// making and unmaking the generated moves. The board ends as it began, but for the
/// winner: when the position has no move, the opponent is made the winner.
pub fn count_moves(board: &mut Board, depth: usize, move_generator: &mut MoveGenerator) -> (r: u64)
    requires
        old(board).wf(),
        old(move_generator).wf(),
        clocks_room(*old(board), depth as int),
    ensures
        final(board).wf(),
        final(move_generator).wf(),
        restored(*final(board), *old(board)),
        final(board).winner_of() == old(board).winner_of()
            || (old(board).winner_of().is_none() && final(board).winner_of() == Some(opponent_of(old(board).side())) && r == 0),
        depth == 0 || old(board).winner_of().is_some() ==> r == 1 && final(board).winner_of() == old(board).winner_of(),
        position_count(*old(board), depth as nat, r as int),
    decreases depth,
{
    if depth == 0 || board.is_game_finished() {
        return 1;
    }
    let ghost b_in = *board;
    let moves = move_generator.get_moves(board);
    let ghost b0 = *board;
    let ghost mut cs: Seq<int> = Seq::empty();
    let mut num_positions: u64 = 0;
    let new_depth = depth - 1;
    let mut i: usize = 0;
    while i < moves.len()
        invariant
            i <= moves@.len(),
            board.wf(),
            move_generator.wf(),
            restored(*board, b0),
            moves@.len() > 0 ==> board.winner_of().is_none(),
            board.winner_of() == b0.winner_of() || (moves@.len() > 0 && board.winner_of().is_none()),
            b0.winner_of() == (if moves@.len() == 0 { Some(opponent_of(old(board).side())) } else { None }),
            b0.side() == old(board).side(),
            clocks_room(b0, depth as int),
            depth >= 1,
            new_depth == depth - 1,
            moves@.len() == 0 ==> num_positions == 0,
            b_in == *old(board),
            b_in.winner_of().is_none(),
            generator_list(b_in, moves@),
            restored(b0, b_in),
            cs.len() == i,
            num_positions == sat_sum(cs),
            forall|j: int| 0 <= j < i ==> #[trigger] count_entry(b_in, new_depth as nat, moves@[j], cs[j]),
        decreases moves@.len() - i,
    {
        let m = moves[i];
        if board.is_move_allowed(&m) {
            let ghost before = *board;
            board.move_piece(&m);
            let ghost after_move = *board;
            let count = count_moves(board, new_depth, move_generator);
            let ghost after_search = *board;
            board.unmake_last_move();
            proof {
                lemma_unmake_after_search(before, m, after_move, after_search, *board);
                assert(reached_by(b_in, m, after_move));
                assert(count_entry(b_in, new_depth as nat, m, count as int));
                assert((cs.push(count as int)).drop_last() =~= cs);
                cs = cs.push(count as int);
            }
            num_positions = num_positions.saturating_add(count);
        } else {
            proof {
                assert(count_entry(b_in, new_depth as nat, m, 0));
                assert((cs.push(0)).drop_last() =~= cs);
                cs = cs.push(0);
            }
        }
        i = i + 1;
    }
    proof {
        if moves@.len() == 0 {
            assert(cs =~= Seq::<int>::empty());
        }
        lemma_position_count(b_in, depth as nat, num_positions as int, moves@, cs);
    }
    num_positions
}

/// For every generated move, the move and the positions counted below it at
/// `depth - 1`; the board ends as it began, but for the winner as in `count_moves`.
pub fn count_moves_per_move(board: &mut Board, depth: usize, move_generator: &mut MoveGenerator) -> (r: Vec<(Move, u64)>)
    requires
        old(board).wf(),
        old(move_generator).wf(),
        clocks_room(*old(board), depth as int),
        depth >= 1,
        old(board).winner_of().is_none(),
    ensures
        final(board).wf(),
        final(move_generator).wf(),
        restored(*final(board), *old(board)),
        final(board).winner_of().is_none() || final(board).winner_of() == Some(opponent_of(old(board).side())),
        forall|i: int|
            0 <= i < r@.len() ==> move_allowed(*old(board), #[trigger] r@[i].0) && generated_move_ok(
                old(board).bbs(),
                old(board).side(),
                r@[i].0,
            ),
        depth == 1 ==> forall|i: int| 0 <= i < r@.len() ==> #[trigger] r@[i].1 == 1,
        exists|ms: Seq<Move>|
            #[trigger] generator_list(*old(board), ms) && r@.map_values(|p: (Move, u64)| p.0) == allowed_moves(*old(board), ms),
        forall|i: int| 0 <= i < r@.len() ==> #[trigger] count_entry(*old(board), (depth - 1) as nat, r@[i].0, r@[i].1 as int),
{
    let ghost b_in = *board;
    let moves = move_generator.get_moves(board);
    let ghost b0 = *board;
    let mut out: Vec<(Move, u64)> = Vec::new();
    let mut i: usize = 0;
    while i < moves.len()
        invariant
            i <= moves@.len(),
            board.wf(),
            move_generator.wf(),
            restored(*board, b0),
            board.winner_of().is_none() || board.winner_of() == b0.winner_of(),
            b0.winner_of().is_none() || b0.winner_of() == Some(opponent_of(old(board).side())),
            moves@.len() > 0 ==> board.winner_of().is_none(),
            clocks_room(b0, depth as int),
            depth >= 1,
            restored(b0, *old(board)),
            all_ok(moves@, old(board).bbs(), old(board).side()),
            forall|j: int|
                0 <= j < out@.len() ==> move_allowed(*old(board), #[trigger] out@[j].0) && generated_move_ok(
                    old(board).bbs(),
                    old(board).side(),
                    out@[j].0,
                ),
            depth == 1 ==> forall|j: int| 0 <= j < out@.len() ==> #[trigger] out@[j].1 == 1,
            b_in == *old(board),
            b_in.winner_of().is_none(),
            generator_list(b_in, moves@),
            out@.map_values(|p: (Move, u64)| p.0) == allowed_moves(b_in, moves@.take(i as int)),
            forall|j: int| 0 <= j < out@.len() ==> #[trigger] count_entry(b_in, (depth - 1) as nat, out@[j].0, out@[j].1 as int),
        decreases moves@.len() - i,
    {
        let m = moves[i];
        proof {
            assert(moves@.take(i + 1).drop_last() =~= moves@.take(i as int));
            assert(moves@.take(i + 1).last() == m);
        }
        if board.is_move_allowed(&m) {
            let ghost before = *board;
            let ghost prior = out@;
            board.move_piece(&m);
            let ghost after_move = *board;
            let count = count_moves(board, depth - 1, move_generator);
            let ghost after_search = *board;
            board.unmake_last_move();
            proof {
                lemma_unmake_after_search(before, m, after_move, after_search, *board);
            }
            out.push((m, count));
            proof {
                assert(generated_move_ok(old(board).bbs(), old(board).side(), moves@[i as int]));
                assert(out@[prior.len() as int] == (m, count));
                assert(reached_by(b_in, m, after_move));
                assert(count_entry(b_in, (depth - 1) as nat, m, count as int));
                assert(out@.map_values(|p: (Move, u64)| p.0) =~= prior.map_values(|p: (Move, u64)| p.0).push(m));
            }
        }
        i = i + 1;
    }
    proof {
        assert(moves@.take(moves@.len() as int) =~= moves@);
    }
    out
}

/// A list the generator hands out for `b`, with what each of its moves adds, gives a
/// count of the positions `d` moves ahead: their sum.
pub proof fn lemma_position_count(b: Board, d: nat, r: int, ms: Seq<Move>, cs: Seq<int>)
    requires
        d > 0,
        b.winner_of().is_none(),
        generator_list(b, ms),
        cs.len() == ms.len(),
        r == sat_sum(cs),
        forall|j: int| 0 <= j < ms.len() ==> #[trigger] count_entry(b, (d - 1) as nat, ms[j], cs[j]),
    ensures
        position_count(b, d, r),
{
    assert forall|i: int| 0 <= i < ms.len() implies {
                    &&& move_allowed(b, #[trigger] ms[i]) ==> exists|after: Board|
                        #[trigger] reached_by(b, ms[i], after) && position_count(after, (d - 1) as nat, cs[i])
                    &&& !move_allowed(b, ms[i]) ==> cs[i] == 0
                } by {
        assert(count_entry(b, (d - 1) as nat, ms[i], cs[i]));
    }
    assert(exists|ms2: Seq<Move>, cs2: Seq<int>|
            #![trigger generator_list(b, ms2), sat_sum(cs2)]
            generator_list(b, ms2) && cs2.len() == ms2.len() && r == sat_sum(cs2) && forall|i: int|
                0 <= i < ms2.len() ==> {
                    &&& move_allowed(b, #[trigger] ms2[i]) ==> exists|after: Board|
                        #[trigger] reached_by(b, ms2[i], after) && position_count(after, (d - 1) as nat, cs2[i])
                    &&& !move_allowed(b, ms2[i]) ==> cs2[i] == 0
                });
}

} // verus!
