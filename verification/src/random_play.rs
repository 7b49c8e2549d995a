//! A player that picks a uniformly random legal move; the baseline
//! opponent, and the workhorse of randomized play-out testing.

use vstd::prelude::*;
use crate::chess_move::Move;
use crate::movegen::legal_ok;
use crate::rng::pick_index;
use crate::zobrist::ZobristKeys;
use crate::display::DisplayableBoard;

verus! {

pub struct RandomPlay {
}

impl RandomPlay {
    pub fn new() -> (r: RandomPlay) {
        RandomPlay {  }
    }

    /// Plays one uniformly random legal move; nothing when none exists.
    pub fn make_move(&self, board: &DisplayableBoard, keys: &ZobristKeys) -> (r: Option<
        DisplayableBoard,
    >)
        requires
            board.wf_with(*keys),
        ensures
            match r {
                Some(nb) => nb.wf_with(*keys) && (exists|m: Move|
                    legal_ok(board.pos(), m) && nb.pos() == board.pos().transition_view(m)),
                None => crate::movegen::all_moves_spec(board.pos()).len() == 0,
            },
    {
        let moves = board.all_moves();
        if moves.len() == 0 {
            return None;
        }
        let k = pick_index(moves.len());
        let m = moves[k];
        let nb = board.transition(m, keys);
        Some(nb)
    }
}

} // verus!
