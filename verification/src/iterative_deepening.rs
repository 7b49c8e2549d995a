//! Time-budgeted iterative deepening: the fixed-depth alpha-beta search is
//! re-run at depth 1, 2, 3, ... against a wall-clock deadline. The answer
//! of the last depth that finished before the deadline is kept; a deeper
//! search cut short by the clock is discarded, because it may have explored
//! the root moves unevenly.

use vstd::prelude::*;
use crate::color::Color;
use crate::chess_move::Move;
use crate::clock::now_millis;
use crate::minimax::{
    minimax_value, best_of_spec, mvs_of, lemma_mvs_of_counts, lemma_best_of_permutation,
    lemma_best_of_prefix_agree, lemma_best_of_submultiset, lemma_move_count_take,
};
use crate::movegen::{legal_ok, all_moves_spec};
use crate::move_order::{order_moves, plays, entry_ok, move_count};
use crate::pst::lemma_heuristic_bound;
use crate::rng::pick_index;
use crate::score::{SCORE_INF, score_in_range, terminal_score};
use crate::zobrist::{ZobristBoard, ZobristKeys};
use crate::display::DisplayableBoard;

verus! {

/// The deepest level iterative deepening will ever try; the clock runs out
/// long before this on any real budget.
pub const MAX_ID_DEPTH: u64 = 64;

pub struct IterativeDeepening {
}

impl IterativeDeepening {
    pub fn new() -> (r: IterativeDeepening) {
        IterativeDeepening {  }
    }

    /// Alpha-beta with a cooperative deadline: a branch entered after the
    /// deadline answers zero at once, flagged as timed out, and the caller
    /// discards the level. A result whose flag is false was computed
    /// without any deadline cutoff, here or below, and then carries the
    /// plain alpha-beta fail-soft guarantee: inside the window it is
    /// exactly the minimax value of the position at the depth, at or
    /// below alpha an upper bound on it, at or above beta a lower bound.
    #[verifier::rlimit(100)]
    pub fn mini_max_ab(board: &ZobristBoard, depth: u64, alpha: i64, beta: i64, deadline: u64, keys: &ZobristKeys) -> (r: (i64, bool))
        requires
            board.wf_with(*keys),
            -SCORE_INF - 1 <= alpha < beta <= SCORE_INF + 1,
        ensures
            score_in_range(r.0 as int),
            !r.1 ==> (alpha < r.0 < beta ==> r.0 as int == minimax_value(
                board.inner.inner@,
                depth as nat,
            )),
            !r.1 ==> (r.0 <= alpha ==> minimax_value(board.inner.inner@, depth as nat) <= r.0 as int),
            !r.1 ==> (r.0 >= beta ==> minimax_value(board.inner.inner@, depth as nat) >= r.0 as int),
        decreases depth,
    {
        if now_millis() > deadline {
            return (0, true);
        }
        let ghost v0 = board.inner.inner@;
        let ghost d = depth as nat;
        let terminal = board.is_terminal();
        if depth == 0 || terminal.is_some() {
            match terminal {
                Some(c) => { return (terminal_score(c), false); },
                None => {
                    proof {
                        lemma_heuristic_bound(board.inner.inner@.squares);
                    }
                    return (board.heuristic() as i64, false);
                },
            }
        }
        let moves = board.all_moves();
        let white = board.current_player() == Color::White;
        let mut rem = order_moves(moves, board, keys);
        let ghost rem0 = rem@;
        let ghost omvs = mvs_of(rem0);
        proof {
            assert forall|m: Move| #[trigger] move_count(omvs, m) == move_count(moves@, m) by {
                lemma_mvs_of_counts(rem0, m);
            }
        }
        let mut a = alpha;
        let mut b = beta;
        let mut value: i64 = if white {
            -SCORE_INF
        } else {
            SCORE_INF
        };
        if white {
            if value > a {
                a = value;
            }
        } else {
            if value < b {
                b = value;
            }
        }
        let mut cut = a >= b;
        let mut timed = false;
        let ghost mut i: int = 0;
        while rem.len() > 0 && !cut
            invariant
                board.wf_with(*keys),
                v0 == board.inner.inner@,
                depth >= 1,
                d == depth as nat,
                white == (v0.current == Color::White),
                moves@ == all_moves_spec(v0),
                moves@.len() > 0,
                rem0.len() == moves@.len(),
                omvs == mvs_of(rem0),
                forall|m: Move| #[trigger] move_count(omvs, m) == move_count(moves@, m),
                0 <= i <= rem0.len(),
                rem@.len() == rem0.len() - i,
                forall|j: int| 0 <= j < rem@.len() ==> #[trigger] rem@[j] == rem0[i + j],
                forall|j: int|
                    0 <= j < rem0.len() ==> entry_ok(v0, *keys, moves@, #[trigger] rem0[j]),
                -SCORE_INF - 1 <= alpha < beta <= SCORE_INF + 1,
                score_in_range(value as int),
                white ==> a == (if value > alpha {
                    value
                } else {
                    alpha
                }),
                white ==> b == beta,
                !white ==> b == (if value < beta {
                    value
                } else {
                    beta
                }),
                !white ==> a == alpha,
                !timed ==> (white ==> (value <= alpha ==> best_of_spec(v0, omvs, i, d) <= value)),
                !timed ==> (!white ==> (value >= beta ==> best_of_spec(v0, omvs, i, d) >= value)),
                !timed ==> ((alpha < value < beta) ==> value == best_of_spec(v0, omvs, i, d)),
                !timed ==> (white ==> (value >= beta ==> best_of_spec(v0, omvs, i, d) >= value)),
                !timed ==> (!white ==> (value <= alpha ==> best_of_spec(v0, omvs, i, d) <= value)),
                !cut ==> a < b,
                cut ==> (white && value >= beta) || (!white && value <= alpha),
            decreases rem@.len(),
        {
            let ghost old_rem = rem@;
            let mr = rem.remove(0);
            proof {
                assert forall|j: int| 0 <= j < rem@.len() implies #[trigger] rem@[j] == rem0[i + 1
                    + j] by {
                    assert(rem@[j] == old_rem[j + 1]);
                }
                assert(mr == rem0[i]);
                assert(entry_ok(v0, *keys, moves@, rem0[i]));
                reveal(plays);
                assert(mr.mv == omvs[i]);
            }
            let sr = Self::mini_max_ab(&mr.board, depth - 1, a, b, deadline, keys);
            let s = sr.0;
            if sr.1 {
                timed = true;
            }
            let ghost vc = minimax_value(v0.transition_view(omvs[i]), (d - 1) as nat);
            if white {
                if s > value {
                    value = s;
                }
                if value > a {
                    a = value;
                }
                if a >= b {
                    cut = true;
                }
            } else {
                if s < value {
                    value = s;
                }
                if value < b {
                    b = value;
                }
                if b <= a {
                    cut = true;
                }
            }
            proof {
                i = i + 1;
            }
        }
        proof {
            if !timed {
                if !cut {
                    assert(i == rem0.len());
                    lemma_best_of_prefix_agree(v0, omvs, omvs, omvs.len() as int, d);
                    lemma_best_of_permutation(v0, omvs, moves@, d);
                } else {
                    lemma_best_of_prefix_agree(v0, omvs, omvs.take(i), i, d);
                    assert(omvs.take(i).len() == i);
                    assert forall|m: Move|
                        #[trigger] move_count(omvs.take(i), m) <= move_count(moves@, m) by {
                        lemma_move_count_take(omvs, i, m);
                    }
                    lemma_best_of_submultiset(v0, omvs.take(i), moves@, d);
                }
            }
        }
        (value, timed)
    }

    /// Searches at increasing depths against a deadline of one twentieth
    /// of the side's remaining clock, keeps the best moves of the last
    /// fully completed depth, and plays one of them uniformly at random.
    /// Falls back to a uniformly random legal move when not even depth one
    /// completed.
    pub fn make_move(&self, board: &DisplayableBoard, keys: &ZobristKeys) -> (r: Option<
        DisplayableBoard,
    >)
        requires
            board.wf_with(*keys),
        ensures
            match r {
                Some(nb) => nb.wf_with(*keys) && (exists|m: Move|
                    crate::movegen::all_moves_spec(board.pos()).contains(m) && legal_ok(
                        board.pos(),
                        m,
                    ) && nb.pos() == board.pos().transition_view(m)),
                None => crate::movegen::all_moves_spec(board.pos()).len() == 0,
            },
    {
        let ghost v0 = board.pos();
        let clock = board.get_clock();
        let remaining_time = if board.current_player() == Color::White {
            clock[0]
        } else {
            clock[1]
        };
        let time_budget = remaining_time / 20;
        let start = now_millis();
        let deadline = if start <= u64::MAX - time_budget {
            start + time_budget
        } else {
            u64::MAX
        };

        let moves = board.all_moves();
        let mut backup_moves: Vec<Move> = Vec::new();
        let mut search_depth: u64 = 0;
        while search_depth < MAX_ID_DEPTH && now_millis() < deadline
            invariant
                board.wf_with(*keys),
                v0 == board.pos(),
                search_depth <= MAX_ID_DEPTH,
                forall|j: int|
                    0 <= j < moves@.len() ==> legal_ok(v0, #[trigger] moves@[j]),
                forall|j: int|
                    0 <= j < backup_moves@.len() ==> legal_ok(v0, #[trigger] backup_moves@[j]),
                forall|j: int|
                    0 <= j < backup_moves@.len() ==> crate::move_order::move_count(
                        moves@,
                        #[trigger] backup_moves@[j],
                    ) > 0,
            decreases MAX_ID_DEPTH - search_depth,
        {
            search_depth = search_depth + 1;
            let white = board.current_player() == Color::White;
            let mut rem = order_moves(self.clone_moves(&moves), &board.inner, keys);
            let mut best_moves: Vec<Move> = Vec::new();
            let mut best: i64 = if white {
                -SCORE_INF - 1
            } else {
                SCORE_INF + 1
            };
            while rem.len() > 0
                invariant
                    board.wf_with(*keys),
                    v0 == board.pos(),
                    forall|j: int|
                        0 <= j < rem@.len() ==> plays(v0, *keys, #[trigger] rem@[j]) && (exists|
                            t: int,
                        |
                            0 <= t < moves@.len() && rem@[j].mv == moves@[t]),
                    forall|j: int|
                        0 <= j < moves@.len() ==> legal_ok(v0, #[trigger] moves@[j]),
                    forall|j: int|
                        0 <= j < best_moves@.len() ==> legal_ok(v0, #[trigger] best_moves@[j]),
                    forall|j: int|
                        0 <= j < best_moves@.len() ==> crate::move_order::move_count(
                            moves@,
                            #[trigger] best_moves@[j],
                        ) > 0,
                decreases rem@.len(),
            {
                let ghost old_rem = rem@;
                let mr = rem.remove(0);
                proof {
                    assert forall|j: int| 0 <= j < rem@.len() implies plays(
                        v0,
                        *keys,
                        #[trigger] rem@[j],
                    ) && (exists|t: int| 0 <= t < moves@.len() && rem@[j].mv == moves@[t]) by {
                        assert(rem@[j] == old_rem[j + 1]);
                    }
                    reveal(plays);
                    let t0 = choose|t: int| 0 <= t < moves@.len() && mr.mv == moves@[t];
                    crate::minimax::lemma_move_count_at_index(moves@, t0);
                    assert(crate::move_order::move_count(moves@, mr.mv) > 0);
                }
                let score = Self::mini_max_ab(
                    &mr.board,
                    search_depth,
                    -SCORE_INF - 1,
                    SCORE_INF + 1,
                    deadline,
                    keys,
                ).0;
                if white {
                    if score > best {
                        best = score;
                        best_moves = Vec::new();
                        best_moves.push(mr.mv);
                    } else if score == best {
                        best_moves.push(mr.mv);
                    }
                } else {
                    if score < best {
                        best = score;
                        best_moves = Vec::new();
                        best_moves.push(mr.mv);
                    } else if score == best {
                        best_moves.push(mr.mv);
                    }
                }
            }
            if now_millis() < deadline {
                let ghost bm = best_moves@;
                backup_moves = best_moves;
                proof {
                    assert forall|j: int|
                        0 <= j < backup_moves@.len() implies crate::move_order::move_count(
                        moves@,
                        #[trigger] backup_moves@[j],
                    ) > 0 by {
                        assert(crate::move_order::move_count(moves@, bm[j]) > 0);
                    }
                }
            }
        }

        let m: Move;
        if backup_moves.len() > 0 {
            let k = pick_index(backup_moves.len());
            m = backup_moves[k];
            proof {
                assert(crate::move_order::move_count(moves@, backup_moves@[k as int]) > 0);
                crate::minimax::lemma_move_count_exists(moves@, m);
                let t = choose|t: int| 0 <= t < moves@.len() && moves@[t] == m;
                assert(crate::movegen::all_moves_spec(v0)[t] == m);
                assert(crate::movegen::all_moves_spec(v0).contains(m));
            }
        } else if moves.len() > 0 {
            let k = pick_index(moves.len());
            m = moves[k];
            proof {
                assert(crate::movegen::all_moves_spec(v0)[k as int] == m);
                assert(crate::movegen::all_moves_spec(v0).contains(m));
            }
        } else {
            return None;
        }
        let nb = board.transition(m, keys);
        Some(nb)
    }

    /// A plain copy of a move list.
    fn clone_moves(&self, moves: &Vec<Move>) -> (r: Vec<Move>)
        ensures
            r@ == moves@,
    {
        let mut r: Vec<Move> = Vec::new();
        let mut i: usize = 0;
        while i < moves.len()
            invariant
                i <= moves.len(),
                r@ =~= moves@.take(i as int),
            decreases moves.len() - i,
        {
            r.push(moves[i]);
            assert(moves@.take(i + 1) =~= moves@.take(i as int).push(moves@[i as int]));
            i += 1;
        }
        assert(moves@.take(moves@.len() as int) =~= moves@);
        r
    }
}

} // verus!
