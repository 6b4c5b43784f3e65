use vstd::prelude::*;

use crate::board::fen::{fen_board, lemma_initial_fen_valid};
use crate::board::Board;
use crate::constants::INITIAL_FEN;
use crate::move_generator::move_generator::MoveGenerator;

verus! {

/// What a game session holds: the board, the move generator and the thinking time.
pub struct GlobalState {
    pub board: Board,
    pub move_generator: MoveGenerator,
    pub seconds_to_think: u64,
}

impl GlobalState {
    /// A session on the starting position read from its FEN string, with two seconds
    /// to think.
    pub fn new() -> (r: GlobalState)
        ensures
            r.move_generator.wf(),
            r.seconds_to_think == 2,
            r.board.wf(),
            fen_board(INITIAL_FEN@, r.board),
    {
        proof {
            lemma_initial_fen_valid();
        }
        let board = Board::from_fen(INITIAL_FEN);
        GlobalState { board, move_generator: MoveGenerator::new(), seconds_to_think: 2 }
    }
}

} // verus!
