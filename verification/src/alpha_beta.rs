//! Alpha-beta search: minimax with a pruning window. Moves are ordered by
//! immediate heuristic swing before descending, and a branch is cut the
//! moment the window inverts.

use vstd::prelude::*;
use crate::color::Color;
use crate::chess_move::Move;
use crate::minimax::{
    minimax_value, best_of_spec, best_root, root_score, mvs_of, lemma_mvs_of_counts,
    lemma_best_of_permutation, lemma_best_of_prefix_agree, lemma_best_of_submultiset,
    lemma_move_count_take,
};
use crate::movegen::{legal_ok, all_moves_spec};
use crate::move_order::{order_moves, plays, entry_ok, move_count, prefers};
use crate::pst::lemma_heuristic_bound;
use crate::rng::pick_index;
use crate::score::{SCORE_INF, score_in_range, terminal_score};
use crate::zobrist::{ZobristBoard, ZobristKeys};
use crate::display::DisplayableBoard;

verus! {

pub struct AlphaBeta {
    pub search_depth: u64,
}

impl AlphaBeta {
    pub fn new(search_depth: u64) -> (r: AlphaBeta)
        ensures
            r.search_depth == search_depth,
    {
        AlphaBeta { search_depth }
    }

    /// Minimax with alpha-beta pruning over ordered moves: the same
    /// value as full minimax, only cheaper. The result is fail-soft
    /// sound: a result inside the window is exactly the minimax value of
    /// the position at the depth, a result at or below alpha is an upper
    /// bound on it, and a result at or above beta is a lower bound on it.
    #[verifier::rlimit(100)]
    pub fn mini_max_ab(board: &ZobristBoard, depth: u64, alpha: i64, beta: i64, keys: &ZobristKeys) -> (r: i64)
        requires
            board.wf_with(*keys),
            -SCORE_INF - 1 <= alpha < beta <= SCORE_INF + 1,
        ensures
            score_in_range(r as int),
            alpha < r < beta ==> r == minimax_value(board.inner.inner@, depth as nat),
            r <= alpha ==> minimax_value(board.inner.inner@, depth as nat) <= r,
            r >= beta ==> minimax_value(board.inner.inner@, depth as nat) >= r,
        decreases depth,
    {
        let ghost v0 = board.inner.inner@;
        let ghost d = depth as nat;
        let terminal = board.is_terminal();
        if depth == 0 || terminal.is_some() {
            match terminal {
                Some(c) => { return terminal_score(c); },
                None => {
                    proof {
                        lemma_heuristic_bound(board.inner.inner@.squares);
                    }
                    return board.heuristic() as i64;
                },
            }
        }
        let moves = board.all_moves();
        let white = board.current_player() == Color::White;
        let mut rem = order_moves(moves, board, keys);
        let ghost rem0 = rem@;
        let ghost omvs = mvs_of(rem0);
        proof {
            assert forall|m: Move| #[trigger] move_count(omvs, m) == move_count(moves@, m) by {
                lemma_mvs_of_counts(rem0, m);
            }
        }
        let mut a = alpha;
        let mut b = beta;
        let mut value: i64 = if white {
            -SCORE_INF
        } else {
            SCORE_INF
        };
        if white {
            if value > a {
                a = value;
            }
        } else {
            if value < b {
                b = value;
            }
        }
        let mut cut = a >= b;
        let ghost mut i: int = 0;
        while rem.len() > 0 && !cut
            invariant
                board.wf_with(*keys),
                v0 == board.inner.inner@,
                depth >= 1,
                d == depth as nat,
                white == (v0.current == Color::White),
                moves@ == all_moves_spec(v0),
                moves@.len() > 0,
                rem0.len() == moves@.len(),
                omvs == mvs_of(rem0),
                forall|m: Move| #[trigger] move_count(omvs, m) == move_count(moves@, m),
                0 <= i <= rem0.len(),
                rem@.len() == rem0.len() - i,
                forall|j: int| 0 <= j < rem@.len() ==> #[trigger] rem@[j] == rem0[i + j],
                forall|j: int|
                    0 <= j < rem0.len() ==> entry_ok(v0, *keys, moves@, #[trigger] rem0[j]),
                -SCORE_INF - 1 <= alpha < beta <= SCORE_INF + 1,
                score_in_range(value as int),
                white ==> a == (if value > alpha { value } else { alpha }),
                white ==> b == beta,
                !white ==> b == (if value < beta { value } else { beta }),
                !white ==> a == alpha,
                white ==> (value <= alpha ==> best_of_spec(v0, omvs, i, d) <= value),
                !white ==> (value >= beta ==> best_of_spec(v0, omvs, i, d) >= value),
                (alpha < value < beta) ==> value == best_of_spec(v0, omvs, i, d),
                white ==> (value >= beta ==> best_of_spec(v0, omvs, i, d) >= value),
                !white ==> (value <= alpha ==> best_of_spec(v0, omvs, i, d) <= value),
                !cut ==> a < b,
                cut ==> (white && value >= beta) || (!white && value <= alpha),
            decreases rem@.len(),
        {
            let ghost old_rem = rem@;
            let mr = rem.remove(0);
            proof {
                assert forall|j: int| 0 <= j < rem@.len() implies #[trigger] rem@[j] == rem0[i + 1
                    + j] by {
                    assert(rem@[j] == old_rem[j + 1]);
                }
                assert(mr == rem0[i]);
                assert(entry_ok(v0, *keys, moves@, rem0[i]));
                reveal(plays);
                assert(mr.mv == omvs[i]);
            }
            let s = Self::mini_max_ab(&mr.board, depth - 1, a, b, keys);
            let ghost vc = minimax_value(v0.transition_view(omvs[i]), (d - 1) as nat);
            if white {
                if s > value {
                    value = s;
                }
                if value > a {
                    a = value;
                }
                if a >= b {
                    cut = true;
                }
            } else {
                if s < value {
                    value = s;
                }
                if value < b {
                    b = value;
                }
                if b <= a {
                    cut = true;
                }
            }
            proof {
                i = i + 1;
            }
        }
        proof {
            if !cut {
                assert(i == rem0.len());
                lemma_best_of_prefix_agree(v0, omvs, omvs, omvs.len() as int, d);
                lemma_best_of_permutation(v0, omvs, moves@, d);
            } else {
                lemma_best_of_prefix_agree(v0, omvs, omvs.take(i), i, d);
                assert(omvs.take(i).len() == i);
                assert forall|m: Move|
                    #[trigger] move_count(omvs.take(i), m) <= move_count(moves@, m) by {
                    lemma_move_count_take(omvs, i, m);
                }
                lemma_best_of_submultiset(v0, omvs.take(i), moves@, d);
            }
        }
        value
    }

    /// Searches every legal move with the full window and plays one of
    /// the best-scoring moves, chosen uniformly at random among ties.
    /// Returns the next position exactly when a legal move exists, and
    /// the move played scores at least as well for the side to move as
    /// every legal alternative — pruning does not change the choice.
    #[verifier::rlimit(100)]
    pub fn make_move(&self, board: &DisplayableBoard, keys: &ZobristKeys) -> (r: Option<
        DisplayableBoard,
    >)
        requires
            board.wf_with(*keys),
        ensures
            match r {
                Some(nb) => nb.wf_with(*keys) && (exists|m: Move|
                    all_moves_spec(board.pos()).contains(m) && legal_ok(board.pos(), m)
                        && nb.pos() == board.pos().transition_view(m)
                        && best_root(board.pos(), m, self.search_depth as nat)),
                None => all_moves_spec(board.pos()).len() == 0,
            },
    {
        let ghost v0 = board.pos();
        let ghost d = self.search_depth as nat;
        let moves = board.all_moves();
        let white = board.current_player() == Color::White;
        let mut rem = order_moves(moves, &board.inner, keys);
        let ghost rem0 = rem@;
        let ghost omvs = mvs_of(rem0);
        proof {
            assert forall|m: Move| #[trigger] move_count(omvs, m) == move_count(moves@, m) by {
                lemma_mvs_of_counts(rem0, m);
            }
        }
        let mut best_moves: Vec<Move> = Vec::new();
        let mut best: i64 = if white {
            -SCORE_INF - 1
        } else {
            SCORE_INF + 1
        };
        let ghost mut i: int = 0;
        while rem.len() > 0
            invariant
                board.wf_with(*keys),
                v0 == board.pos(),
                d == self.search_depth as nat,
                white == (v0.current == Color::White),
                moves@ == all_moves_spec(v0),
                rem0.len() == moves@.len(),
                omvs == mvs_of(rem0),
                forall|m: Move| #[trigger] move_count(omvs, m) == move_count(moves@, m),
                0 <= i <= rem0.len(),
                rem@.len() == rem0.len() - i,
                forall|j: int| 0 <= j < rem@.len() ==> #[trigger] rem@[j] == rem0[i + j],
                forall|j: int|
                    0 <= j < rem0.len() ==> entry_ok(v0, *keys, moves@, #[trigger] rem0[j]),
                i == 0 ==> best_moves@.len() == 0 && best == (if white {
                    -SCORE_INF - 1
                } else {
                    SCORE_INF + 1
                }),
                i > 0 ==> best_moves@.len() > 0,
                forall|k: int|
                    0 <= k < i ==> prefers(v0.current, best as int, root_score(
                        v0,
                        (#[trigger] rem0[k]).mv,
                        d,
                    )),
                forall|k: int|
                    0 <= k < best_moves@.len() ==> (exists|j: int|
                        0 <= j < moves@.len() && #[trigger] best_moves@[k] == moves@[j])
                        && root_score(v0, best_moves@[k], d) == best,
                forall|j: int|
                    0 <= j < moves@.len() ==> legal_ok(v0, #[trigger] moves@[j]),
                forall|j: int|
                    0 <= j < best_moves@.len() ==> legal_ok(v0, #[trigger] best_moves@[j]),
            decreases rem@.len(),
        {
            let ghost old_rem = rem@;
            let mr = rem.remove(0);
            proof {
                assert forall|j: int| 0 <= j < rem@.len() implies #[trigger] rem@[j] == rem0[i + 1
                    + j] by {
                    assert(rem@[j] == old_rem[j + 1]);
                }
                assert(mr == rem0[i]);
                assert(entry_ok(v0, *keys, moves@, rem0[i]));
                reveal(plays);
            }
            let score = Self::mini_max_ab(
                &mr.board,
                self.search_depth,
                -SCORE_INF - 1,
                SCORE_INF + 1,
                keys,
            );
            proof {
                assert(score as int == root_score(v0, mr.mv, d));
            }
            if white {
                if score > best {
                    best = score;
                    best_moves = Vec::new();
                    best_moves.push(mr.mv);
                } else if score == best {
                    best_moves.push(mr.mv);
                }
            } else {
                if score < best {
                    best = score;
                    best_moves = Vec::new();
                    best_moves.push(mr.mv);
                } else if score == best {
                    best_moves.push(mr.mv);
                }
            }
            proof {
                i = i + 1;
            }
        }
        if best_moves.len() == 0 {
            proof {
                assert(i == rem0.len());
            }
            return None;
        }
        let k = pick_index(best_moves.len());
        let m = best_moves[k];
        proof {
            assert(root_score(v0, m, d) == best);
            assert forall|j: int| 0 <= j < all_moves_spec(v0).len() implies prefers(
                v0.current,
                root_score(v0, m, d),
                root_score(v0, #[trigger] all_moves_spec(v0)[j], d),
            ) by {
                crate::minimax::lemma_move_count_at_index(moves@, j);
                crate::minimax::lemma_move_count_exists(omvs, moves@[j]);
                let t = choose|t: int| 0 <= t < omvs.len() && omvs[t] == moves@[j];
                assert(prefers(v0.current, best as int, root_score(v0, rem0[t].mv, d)));
            }
            assert(best_root(v0, m, d));
            let t = choose|t: int| 0 <= t < moves@.len() && best_moves@[k as int] == moves@[t];
            assert(all_moves_spec(v0)[t] == m);
            assert(all_moves_spec(v0).contains(m));
        }
        let nb = board.transition(m, keys);
        Some(nb)
    }
}

} // verus!
