//! Plain full-width minimax search to a fixed depth, and a move chooser
//! that picks uniformly at random among the moves tied for the best score.

use vstd::prelude::*;
use crate::color::Color;
use crate::chess_move::Move;
use crate::basic::BoardView;
use crate::king_check::in_check;
use crate::movegen::{legal_ok, all_moves_spec};
use crate::move_order::{prefers, move_count};
use crate::pst::{heuristic_spec, lemma_heuristic_bound};
use crate::score::terminal_score_spec;
use crate::rng::pick_index;
use crate::score::{SCORE_INF, score_in_range, terminal_score};
use crate::zobrist::{ZobristBoard, ZobristKeys};
use crate::display::DisplayableBoard;

verus! {

/// The winner a position with no legal moves is scored for: the opponent
/// of a side in check, nobody on stalemate.
pub open spec fn terminal_winner(v: BoardView) -> Color {
    if in_check(v.squares, v.current) {
        v.current.other_spec()
    } else {
        Color::EmptyColor
    }
}

/// The true minimax value of a position at a depth: decided games score
/// their sentinel, the horizon scores the heuristic, and an interior
/// position takes the best child value for the side to move over all its
/// legal moves.
pub open spec fn minimax_value(v: BoardView, depth: nat) -> int
    decreases depth + 1, 0int,
{
    if all_moves_spec(v).len() == 0 {
        terminal_score_spec(terminal_winner(v))
    } else if depth == 0 {
        heuristic_spec(v.squares)
    } else {
        best_of_spec(v, all_moves_spec(v), all_moves_spec(v).len() as int, depth)
    }
}

/// The best value for the side to move among the first `n` moves of
/// `ms`, each searched one level shallower than `pd`.
pub open spec fn best_of_spec(v: BoardView, ms: Seq<Move>, n: int, pd: nat) -> int
    decreases pd, n,
{
    if n <= 0 || pd == 0 {
        if v.current == Color::White {
            -crate::score::SCORE_INF as int
        } else {
            crate::score::SCORE_INF as int
        }
    } else {
        let rest = best_of_spec(v, ms, n - 1, pd);
        let c = minimax_value(v.transition_view(ms[n - 1]), (pd - 1) as nat);
        if v.current == Color::White {
            if rest >= c {
                rest
            } else {
                c
            }
        } else {
            if rest <= c {
                rest
            } else {
                c
            }
        }
    }
}

/// `best_of_spec` reads only the first `n` moves: lists that agree there
/// give the same value.
pub proof fn lemma_best_of_prefix_agree(
    v: BoardView,
    ms1: Seq<Move>,
    ms2: Seq<Move>,
    n: int,
    pd: nat,
)
    requires
        forall|j: int| 0 <= j < n ==> ms1[j] == ms2[j],
    ensures
        best_of_spec(v, ms1, n, pd) == best_of_spec(v, ms2, n, pd),
    decreases n,
{
    if n > 0 && pd > 0 {
        lemma_best_of_prefix_agree(v, ms1, ms2, n - 1, pd);
    }
}

pub proof fn lemma_move_count_nonneg(ms: Seq<Move>, m: Move)
    ensures
        move_count(ms, m) >= 0,
    decreases ms.len(),
{
    if ms.len() > 0 {
        lemma_move_count_nonneg(ms.drop_last(), m);
    }
}

/// Every entry of a list occurs in it.
pub proof fn lemma_move_count_at_index(ms: Seq<Move>, j: int)
    requires
        0 <= j < ms.len(),
    ensures
        move_count(ms, ms[j]) >= 1,
    decreases ms.len(),
{
    lemma_move_count_nonneg(ms.drop_last(), ms[j]);
    if j < ms.len() - 1 {
        lemma_move_count_at_index(ms.drop_last(), j);
    }
}

/// A move that occurs somewhere has an index.
pub proof fn lemma_move_count_exists(ms: Seq<Move>, m: Move)
    requires
        move_count(ms, m) > 0,
    ensures
        exists|j: int| 0 <= j < ms.len() && ms[j] == m,
    decreases ms.len(),
{
    if ms.len() > 0 {
        if ms.last() == m {
            assert(ms[ms.len() - 1] == m);
        } else {
            lemma_move_count_exists(ms.drop_last(), m);
            let j = choose|j: int| 0 <= j < ms.drop_last().len() && ms.drop_last()[j] == m;
            assert(ms[j] == m);
        }
    }
}

/// Removing one entry removes exactly one occurrence of its move.
pub proof fn lemma_move_count_remove(ms: Seq<Move>, i: int, m: Move)
    requires
        0 <= i < ms.len(),
    ensures
        move_count(ms.remove(i), m) == move_count(ms, m) - (if ms[i] == m {
            1int
        } else {
            0int
        }),
    decreases ms.len(),
{
    if i == ms.len() - 1 {
        assert(ms.remove(i) =~= ms.drop_last());
    } else {
        lemma_move_count_remove(ms.drop_last(), i, m);
        assert(ms.remove(i).drop_last() =~= ms.drop_last().remove(i));
        assert(ms.remove(i).last() == ms.last());
    }
}

/// A prefix holds no more occurrences of any move than the whole list.
pub proof fn lemma_move_count_take(ms: Seq<Move>, i: int, m: Move)
    requires
        0 <= i <= ms.len(),
    ensures
        move_count(ms.take(i), m) <= move_count(ms, m),
    decreases ms.len(),
{
    if i == ms.len() {
        assert(ms.take(i) =~= ms);
    } else {
        assert(ms.take(i) =~= ms.drop_last().take(i));
        lemma_move_count_take(ms.drop_last(), i, m);
    }
}

/// Taking any one move out of the fold leaves the best of the rest,
/// combined with that move's value.
pub proof fn lemma_best_of_remove(v: BoardView, ms: Seq<Move>, i: int, pd: nat)
    requires
        0 <= i < ms.len(),
        pd >= 1,
    ensures
        best_of_spec(v, ms, ms.len() as int, pd) == (if v.current == Color::White {
            if best_of_spec(v, ms.remove(i), ms.len() - 1, pd) >= minimax_value(
                v.transition_view(ms[i]),
                (pd - 1) as nat,
            ) {
                best_of_spec(v, ms.remove(i), ms.len() - 1, pd)
            } else {
                minimax_value(v.transition_view(ms[i]), (pd - 1) as nat)
            }
        } else {
            if best_of_spec(v, ms.remove(i), ms.len() - 1, pd) <= minimax_value(
                v.transition_view(ms[i]),
                (pd - 1) as nat,
            ) {
                best_of_spec(v, ms.remove(i), ms.len() - 1, pd)
            } else {
                minimax_value(v.transition_view(ms[i]), (pd - 1) as nat)
            }
        }),
    decreases ms.len(),
{
    if i == ms.len() - 1 {
        assert(ms.remove(i) =~= ms.drop_last());
        lemma_best_of_prefix_agree(v, ms, ms.remove(i), ms.len() - 1, pd);
    } else {
        lemma_best_of_prefix_agree(v, ms, ms.drop_last(), ms.len() - 1, pd);
        lemma_best_of_remove(v, ms.drop_last(), i, pd);
        assert(ms.remove(i).drop_last() =~= ms.drop_last().remove(i));
        lemma_best_of_prefix_agree(
            v,
            ms.remove(i),
            ms.drop_last().remove(i),
            ms.len() - 2,
            pd,
        );
        assert(ms.remove(i)[ms.len() - 2] == ms.last());
    }
}

/// The fold over a list depends only on which moves it holds, not their
/// order: lists with equal occurrence counts have equal best values.
pub proof fn lemma_best_of_permutation(v: BoardView, ms1: Seq<Move>, ms2: Seq<Move>, pd: nat)
    requires
        pd >= 1,
        forall|m: Move| #[trigger] move_count(ms1, m) == move_count(ms2, m),
    ensures
        best_of_spec(v, ms1, ms1.len() as int, pd) == best_of_spec(v, ms2, ms2.len() as int, pd),
    decreases ms1.len(),
{
    if ms1.len() == 0 {
        if ms2.len() > 0 {
            lemma_move_count_at_index(ms2, ms2.len() - 1);
            assert(move_count(ms1, ms2.last()) == 0);
        }
    } else {
        let m = ms1.last();
        lemma_move_count_at_index(ms1, ms1.len() - 1);
        lemma_move_count_exists(ms2, m);
        let j = choose|j: int| 0 <= j < ms2.len() && ms2[j] == m;
        lemma_best_of_remove(v, ms2, j, pd);
        lemma_best_of_prefix_agree(v, ms1, ms1.drop_last(), ms1.len() - 1, pd);
        assert forall|mm: Move|
            #[trigger] move_count(ms1.drop_last(), mm) == move_count(ms2.remove(j), mm) by {
            lemma_move_count_remove(ms2, j, mm);
            assert(move_count(ms1, mm) == move_count(ms2, mm));
            assert(move_count(ms1, mm) == move_count(ms1.drop_last(), mm) + (if ms1.last() == mm {
                1int
            } else {
                0int
            }));
        }
        lemma_best_of_permutation(v, ms1.drop_last(), ms2.remove(j), pd);
    }
}

/// With no moves the fold sits at the side's worst value, and every move
/// only improves it.
pub proof fn lemma_best_of_base_bound(v: BoardView, ms: Seq<Move>, n: int, pd: nat)
    ensures
        v.current == Color::White ==> best_of_spec(v, ms, n, pd) >= -SCORE_INF,
        v.current != Color::White ==> best_of_spec(v, ms, n, pd) <= SCORE_INF,
    decreases n,
{
    if n > 0 && pd > 0 {
        lemma_best_of_base_bound(v, ms, n - 1, pd);
    }
}

/// A list that holds no more occurrences of any move than another cannot
/// beat it: the larger list's best is at least as good for its side.
pub proof fn lemma_best_of_submultiset(v: BoardView, sub: Seq<Move>, sup: Seq<Move>, pd: nat)
    requires
        pd >= 1,
        forall|m: Move| #[trigger] move_count(sub, m) <= move_count(sup, m),
    ensures
        v.current == Color::White ==> best_of_spec(v, sub, sub.len() as int, pd) <= best_of_spec(
            v,
            sup,
            sup.len() as int,
            pd,
        ),
        v.current != Color::White ==> best_of_spec(v, sub, sub.len() as int, pd) >= best_of_spec(
            v,
            sup,
            sup.len() as int,
            pd,
        ),
    decreases sub.len(),
{
    if sub.len() == 0 {
        lemma_best_of_base_bound(v, sup, sup.len() as int, pd);
        if v.current == Color::White {
            assert(best_of_spec(v, sub, 0, pd) == -SCORE_INF);
        }
    } else {
        let m = sub.last();
        lemma_move_count_at_index(sub, sub.len() - 1);
        lemma_move_count_nonneg(sub, m);
        lemma_move_count_exists(sup, m);
        let j = choose|j: int| 0 <= j < sup.len() && sup[j] == m;
        lemma_best_of_remove(v, sup, j, pd);
        lemma_best_of_prefix_agree(v, sub, sub.drop_last(), sub.len() - 1, pd);
        assert forall|mm: Move|
            #[trigger] move_count(sub.drop_last(), mm) <= move_count(sup.remove(j), mm) by {
            lemma_move_count_remove(sup, j, mm);
            assert(move_count(sub, mm) <= move_count(sup, mm));
            assert(move_count(sub, mm) == move_count(sub.drop_last(), mm) + (if sub.last() == mm {
                1int
            } else {
                0int
            }));
        }
        lemma_best_of_submultiset(v, sub.drop_last(), sup.remove(j), pd);
    }
}

/// The moves an ordered list plays, in its order.
pub open spec fn mvs_of(rs: Seq<crate::move_order::MoveRes>) -> Seq<Move> {
    Seq::new(rs.len(), |i: int| rs[i].mv)
}

/// Projecting the moves keeps the occurrence counts.
pub proof fn lemma_mvs_of_counts(rs: Seq<crate::move_order::MoveRes>, m: Move)
    ensures
        move_count(mvs_of(rs), m) == crate::move_order::mv_count(rs, m),
    decreases rs.len(),
{
    if rs.len() > 0 {
        lemma_mvs_of_counts(rs.drop_last(), m);
        assert(mvs_of(rs).drop_last() =~= mvs_of(rs.drop_last()));
        assert(mvs_of(rs).last() == rs.last().mv);
    }
}

/// The value playing `m` reaches, searched to the given depth.
pub open spec fn root_score(v: BoardView, m: Move, depth: nat) -> int {
    minimax_value(v.transition_view(m), depth)
}

/// `m` scores at least as well for the side to move as every legal move.
pub open spec fn best_root(v: BoardView, m: Move, depth: nat) -> bool {
    forall|j: int|
        0 <= j < all_moves_spec(v).len() ==> prefers(
            v.current,
            root_score(v, m, depth),
            root_score(v, #[trigger] all_moves_spec(v)[j], depth),
        )
}

pub struct Minimax {
    pub search_depth: u64,
}

impl Minimax {
    pub fn new(search_depth: u64) -> (r: Minimax)
        ensures
            r.search_depth == search_depth,
    {
        Minimax { search_depth }
    }

    /// Computes exactly the minimax value of the position at the given
    /// depth.
    pub fn mini_max(board: &ZobristBoard, depth: u64, keys: &ZobristKeys) -> (r: i64)
        requires
            board.wf_with(*keys),
        ensures
            r == minimax_value(board.inner.inner@, depth as nat),
            score_in_range(r as int),
        decreases depth,
    {
        let ghost v0 = board.inner.inner@;
        let terminal = board.is_terminal();
        if depth == 0 || terminal.is_some() {
            match terminal {
                Some(c) => terminal_score(c),
                None => {
                    proof {
                        lemma_heuristic_bound(board.inner.inner@.squares);
                    }
                    board.heuristic() as i64
                },
            }
        } else {
            let moves = board.all_moves();
            let white = board.current_player() == Color::White;
            let mut value: i64 = if white {
                -SCORE_INF
            } else {
                SCORE_INF
            };
            let mut i: usize = 0;
            while i < moves.len()
                invariant
                    board.wf_with(*keys),
                    v0 == board.inner.inner@,
                    depth > 0,
                    white == (v0.current == Color::White),
                    moves@ == all_moves_spec(v0),
                    moves@.len() > 0,
                    value == best_of_spec(v0, moves@, i as int, depth as nat),
                    score_in_range(value as int),
                    i <= moves.len(),
                    forall|j: int|
                        0 <= j < moves@.len() ==> legal_ok(board.inner.inner@, #[trigger] moves@[j]),
                decreases moves.len() - i,
            {
                let m = moves[i];
                let nb = board.transition(m, keys);
                let s = Self::mini_max(&nb, depth - 1, keys);
                if white {
                    if s > value {
                        value = s;
                    }
                } else {
                    if s < value {
                        value = s;
                    }
                }
                i += 1;
            }
            value
        }
    }

    /// Searches every legal move to the configured depth and plays one of
    /// the best-scoring moves, chosen uniformly at random among ties.
    /// Returns the next position exactly when a legal move exists, and
    /// the move played scores at least as well for the side to move as
    /// every legal alternative.
    pub fn make_move(&self, board: &DisplayableBoard, keys: &ZobristKeys) -> (r: Option<
        DisplayableBoard,
    >)
        requires
            board.wf_with(*keys),
        ensures
            match r {
                Some(nb) => nb.wf_with(*keys) && (exists|m: Move|
                    all_moves_spec(board.pos()).contains(m) && legal_ok(board.pos(), m)
                        && nb.pos() == board.pos().transition_view(m)
                        && best_root(board.pos(), m, self.search_depth as nat)),
                None => all_moves_spec(board.pos()).len() == 0,
            },
    {
        let ghost v0 = board.pos();
        let ghost d = self.search_depth as nat;
        let moves = board.all_moves();
        let white = board.current_player() == Color::White;
        let mut best_moves: Vec<Move> = Vec::new();
        let mut best: i64 = if white {
            -SCORE_INF - 1
        } else {
            SCORE_INF + 1
        };
        let mut i: usize = 0;
        while i < moves.len()
            invariant
                board.wf_with(*keys),
                v0 == board.pos(),
                d == self.search_depth as nat,
                white == (v0.current == Color::White),
                moves@ == all_moves_spec(v0),
                i <= moves.len(),
                i == 0 ==> best_moves@.len() == 0 && best == (if white {
                    -SCORE_INF - 1
                } else {
                    SCORE_INF + 1
                }),
                i > 0 ==> best_moves@.len() > 0,
                forall|j: int|
                    0 <= j < i ==> prefers(v0.current, best as int, root_score(
                        v0,
                        #[trigger] moves@[j],
                        d,
                    )),
                forall|k: int|
                    0 <= k < best_moves@.len() ==> (exists|j: int|
                        0 <= j < moves@.len() && #[trigger] best_moves@[k] == moves@[j])
                        && root_score(v0, best_moves@[k], d) == best,
                forall|j: int|
                    0 <= j < moves@.len() ==> legal_ok(board.pos(), #[trigger] moves@[j]),
                forall|j: int|
                    0 <= j < best_moves@.len() ==> legal_ok(board.pos(), #[trigger] best_moves@[j]),
            decreases moves.len() - i,
        {
            let m = moves[i];
            let nb = board.inner.transition(m, keys);
            let score = Self::mini_max(&nb, self.search_depth, keys);
            proof {
                assert(score as int == root_score(v0, m, d));
            }
            if white {
                if score > best {
                    best = score;
                    best_moves = Vec::new();
                    best_moves.push(m);
                } else if score == best {
                    best_moves.push(m);
                }
            } else {
                if score < best {
                    best = score;
                    best_moves = Vec::new();
                    best_moves.push(m);
                } else if score == best {
                    best_moves.push(m);
                }
            }
            i += 1;
        }
        if best_moves.len() == 0 {
            return None;
        }
        let k = pick_index(best_moves.len());
        let m = best_moves[k];
        proof {
            assert(root_score(v0, m, d) == best);
            assert(best_root(v0, m, d));
            let j = choose|j: int| 0 <= j < moves@.len() && best_moves@[k as int] == moves@[j];
            assert(all_moves_spec(v0)[j] == m);
            assert(all_moves_spec(v0).contains(m));
        }
        let nb = board.transition(m, keys);
        Some(nb)
    }
}

} // verus!
