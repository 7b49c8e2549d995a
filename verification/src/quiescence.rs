//! Alpha-beta search with a quiescence extension: at the horizon the search
//! keeps expanding capturing moves only, until no captures remain, so a
//! tactically unstable horizon position is not misjudged. Termination is
//! proved from the board itself: every capture removes a piece, so capture
//! sequences are bounded by the piece count.

use vstd::prelude::*;
use crate::color::Color;
use crate::chess_move::Move;
use crate::basic::BoardView;
use crate::minimax::terminal_winner;
use crate::movegen::{
    legal_ok, all_moves_spec, occupied_count, lemma_capture_reduces_occupied,
    lemma_occupied_nonneg,
};
use crate::move_order::{order_moves, plays, entry_ok};
use crate::pst::{heuristic_spec, lemma_heuristic_bound};
use crate::rng::pick_index;
use crate::score::{SCORE_INF, terminal_score, terminal_score_spec};
use crate::zobrist::{ZobristBoard, ZobristKeys};
use crate::display::DisplayableBoard;

verus! {

/// No legal move of the position captures: the capture-only extension has
/// nothing to expand and stands pat on the heuristic.
pub open spec fn no_captures(v: BoardView) -> bool {
    forall|j: int|
        0 <= j < all_moves_spec(v).len() ==> !(#[trigger] all_moves_spec(
            v,
        )[j]).extra.is_capturing_spec()
}

/// A move the capture-only extension expands: a legal capturing move of a
/// well-formed position.
pub open spec fn cap_ok(v: BoardView, m: Move) -> bool {
    &&& v.wf()
    &&& legal_ok(v, m)
    &&& m.extra.is_capturing_spec()
}

/// The position is undecided and stays undecided under every capture: no
/// checkmate or stalemate is reachable through capturing moves alone. On
/// such positions the extension never meets a mate sentinel, and its
/// answer is pinned by `quiesce_value`; on others the stand-pat window
/// cutoff and the sentinels interleave in a window-dependent way that no
/// single position value can describe.
pub open spec fn cap_live(v: BoardView) -> bool
    decreases occupied_count(v.squares),
        via cap_live_dec
{
    &&& all_moves_spec(v).len() > 0
    &&& forall|j: int|
        0 <= j < all_moves_spec(v).len() && cap_ok(v, #[trigger] all_moves_spec(v)[j])
            ==> cap_live(v.transition_view(all_moves_spec(v)[j]))
}

#[via_fn]
proof fn cap_live_dec(v: BoardView) {
    assert forall|j: int|
        0 <= j < all_moves_spec(v).len() && cap_ok(v, #[trigger] all_moves_spec(v)[j]) implies 0
        <= occupied_count(v.transition_view(all_moves_spec(v)[j]).squares) < occupied_count(
        v.squares,
    ) by {
        lemma_capture_reduces_occupied(v, all_moves_spec(v)[j]);
        lemma_occupied_nonneg(v.transition_view(all_moves_spec(v)[j]).squares);
    }
}

/// The capture-restricted value of a position: the side to move either
/// stands pat on the heuristic or plays its best legal capture, judged
/// again by this value. Capture chains shrink the board, which bounds the
/// recursion.
pub open spec fn quiesce_value(v: BoardView) -> int
    decreases occupied_count(v.squares), 1int, 0int,
{
    let stand = heuristic_spec(v.squares);
    if no_captures(v) {
        stand
    } else {
        let bc = best_cap_of(v, all_moves_spec(v), all_moves_spec(v).len() as int);
        if v.current == Color::White {
            if stand >= bc {
                stand
            } else {
                bc
            }
        } else {
            if stand <= bc {
                stand
            } else {
                bc
            }
        }
    }
}

/// The best capture-restricted value for the side to move among the legal
/// captures within the first `n` moves of `ms`; moves the extension does
/// not expand contribute nothing.
pub open spec fn best_cap_of(v: BoardView, ms: Seq<Move>, n: int) -> int
    decreases occupied_count(v.squares), 0int, n,
        via best_cap_of_dec
{
    if n <= 0 {
        if v.current == Color::White {
            -SCORE_INF as int
        } else {
            SCORE_INF as int
        }
    } else {
        let rest = best_cap_of(v, ms, n - 1);
        if cap_ok(v, ms[n - 1]) {
            let c = quiesce_value(v.transition_view(ms[n - 1]));
            if v.current == Color::White {
                if rest >= c {
                    rest
                } else {
                    c
                }
            } else {
                if rest <= c {
                    rest
                } else {
                    c
                }
            }
        } else {
            rest
        }
    }
}

#[via_fn]
proof fn best_cap_of_dec(v: BoardView, ms: Seq<Move>, n: int) {
    if n > 0 && cap_ok(v, ms[n - 1]) {
        lemma_capture_reduces_occupied(v, ms[n - 1]);
        lemma_occupied_nonneg(v.transition_view(ms[n - 1]).squares);
    }
}

/// The depth-limited search value with the capture extension at the
/// horizon: the horizon scores the capture-restricted value, a decided
/// interior position scores its sentinel, and any other interior
/// position takes the best child value for the side to move over all its
/// legal moves.
pub open spec fn qsearch_value(v: BoardView, depth: nat) -> int
    decreases depth, 1int, 0int,
{
    if depth == 0 {
        quiesce_value(v)
    } else if all_moves_spec(v).len() == 0 {
        terminal_score_spec(terminal_winner(v))
    } else {
        best_q_of(v, all_moves_spec(v), all_moves_spec(v).len() as int, depth)
    }
}

/// The best depth-limited value for the side to move among the first `n`
/// moves of `ms`, each searched one level shallower than `pd`.
pub open spec fn best_q_of(v: BoardView, ms: Seq<Move>, n: int, pd: nat) -> int
    decreases pd, 0int, n,
{
    if n <= 0 || pd == 0 {
        if v.current == Color::White {
            -SCORE_INF as int
        } else {
            SCORE_INF as int
        }
    } else {
        let rest = best_q_of(v, ms, n - 1, pd);
        let c = qsearch_value(v.transition_view(ms[n - 1]), (pd - 1) as nat);
        if v.current == Color::White {
            if rest >= c {
                rest
            } else {
                c
            }
        } else {
            if rest <= c {
                rest
            } else {
                c
            }
        }
    }
}

/// Every horizon position the depth-limited search can reach is alive
/// for the capture extension: its answer is then pinned by
/// `qsearch_value`.
pub open spec fn qsearch_live(v: BoardView, depth: nat) -> bool
    decreases depth,
{
    if depth == 0 {
        cap_live(v)
    } else if all_moves_spec(v).len() == 0 {
        true
    } else {
        forall|j: int|
            0 <= j < all_moves_spec(v).len() ==> qsearch_live(
                v.transition_view(#[trigger] all_moves_spec(v)[j]),
                (depth - 1) as nat,
            )
    }
}

/// `best_q_of` reads only the first `n` moves.
pub proof fn lemma_q_prefix_agree(v: BoardView, ms1: Seq<Move>, ms2: Seq<Move>, n: int, pd: nat)
    requires
        forall|j: int| 0 <= j < n ==> ms1[j] == ms2[j],
    ensures
        best_q_of(v, ms1, n, pd) == best_q_of(v, ms2, n, pd),
    decreases n,
{
    if n > 0 && pd > 0 {
        lemma_q_prefix_agree(v, ms1, ms2, n - 1, pd);
    }
}

/// With no moves the fold sits at the side's worst value, and every move
/// only improves it.
pub proof fn lemma_q_base_bound(v: BoardView, ms: Seq<Move>, n: int, pd: nat)
    ensures
        v.current == Color::White ==> best_q_of(v, ms, n, pd) >= -SCORE_INF,
        v.current != Color::White ==> best_q_of(v, ms, n, pd) <= SCORE_INF,
    decreases n,
{
    if n > 0 && pd > 0 {
        lemma_q_base_bound(v, ms, n - 1, pd);
    }
}

/// Taking any one move out of the fold leaves the best of the rest,
/// combined with that move's value.
pub proof fn lemma_q_remove(v: BoardView, ms: Seq<Move>, i: int, pd: nat)
    requires
        0 <= i < ms.len(),
        pd >= 1,
    ensures
        best_q_of(v, ms, ms.len() as int, pd) == (if v.current == Color::White {
            if best_q_of(v, ms.remove(i), ms.len() - 1, pd) >= qsearch_value(
                v.transition_view(ms[i]),
                (pd - 1) as nat,
            ) {
                best_q_of(v, ms.remove(i), ms.len() - 1, pd)
            } else {
                qsearch_value(v.transition_view(ms[i]), (pd - 1) as nat)
            }
        } else {
            if best_q_of(v, ms.remove(i), ms.len() - 1, pd) <= qsearch_value(
                v.transition_view(ms[i]),
                (pd - 1) as nat,
            ) {
                best_q_of(v, ms.remove(i), ms.len() - 1, pd)
            } else {
                qsearch_value(v.transition_view(ms[i]), (pd - 1) as nat)
            }
        }),
    decreases ms.len(),
{
    if i == ms.len() - 1 {
        assert(ms.remove(i) =~= ms.drop_last());
        lemma_q_prefix_agree(v, ms, ms.remove(i), ms.len() - 1, pd);
    } else {
        lemma_q_prefix_agree(v, ms, ms.drop_last(), ms.len() - 1, pd);
        lemma_q_remove(v, ms.drop_last(), i, pd);
        assert(ms.remove(i).drop_last() =~= ms.drop_last().remove(i));
        lemma_q_prefix_agree(v, ms.remove(i), ms.drop_last().remove(i), ms.len() - 2, pd);
        assert(ms.remove(i)[ms.len() - 2] == ms.last());
    }
}

/// The fold depends only on which moves the list holds, not their order.
pub proof fn lemma_q_permutation(v: BoardView, ms1: Seq<Move>, ms2: Seq<Move>, pd: nat)
    requires
        pd >= 1,
        forall|m: Move|
            #[trigger] crate::move_order::move_count(ms1, m) == crate::move_order::move_count(
                ms2,
                m,
            ),
    ensures
        best_q_of(v, ms1, ms1.len() as int, pd) == best_q_of(v, ms2, ms2.len() as int, pd),
    decreases ms1.len(),
{
    if ms1.len() == 0 {
        if ms2.len() > 0 {
            crate::minimax::lemma_move_count_at_index(ms2, ms2.len() - 1);
            crate::minimax::lemma_move_count_nonneg(ms1, ms2.last());
        }
    } else {
        let m = ms1.last();
        crate::minimax::lemma_move_count_at_index(ms1, ms1.len() - 1);
        crate::minimax::lemma_move_count_exists(ms2, m);
        let j = choose|j: int| 0 <= j < ms2.len() && ms2[j] == m;
        lemma_q_remove(v, ms2, j, pd);
        lemma_q_prefix_agree(v, ms1, ms1.drop_last(), ms1.len() - 1, pd);
        assert forall|mm: Move|
            #[trigger] crate::move_order::move_count(ms1.drop_last(), mm)
            == crate::move_order::move_count(ms2.remove(j), mm) by {
            crate::minimax::lemma_move_count_remove(ms2, j, mm);
            assert(crate::move_order::move_count(ms1, mm) == crate::move_order::move_count(
                ms1.drop_last(),
                mm,
            ) + (if ms1.last() == mm {
                1int
            } else {
                0int
            }));
        }
        lemma_q_permutation(v, ms1.drop_last(), ms2.remove(j), pd);
    }
}

/// A list holding no more occurrences of any move than another cannot
/// beat it for the side to move.
pub proof fn lemma_q_submultiset(v: BoardView, sub: Seq<Move>, sup: Seq<Move>, pd: nat)
    requires
        pd >= 1,
        forall|m: Move|
            #[trigger] crate::move_order::move_count(sub, m) <= crate::move_order::move_count(
                sup,
                m,
            ),
    ensures
        v.current == Color::White ==> best_q_of(v, sub, sub.len() as int, pd) <= best_q_of(
            v,
            sup,
            sup.len() as int,
            pd,
        ),
        v.current != Color::White ==> best_q_of(v, sub, sub.len() as int, pd) >= best_q_of(
            v,
            sup,
            sup.len() as int,
            pd,
        ),
    decreases sub.len(),
{
    if sub.len() == 0 {
        lemma_q_base_bound(v, sup, sup.len() as int, pd);
    } else {
        let m = sub.last();
        crate::minimax::lemma_move_count_at_index(sub, sub.len() - 1);
        crate::minimax::lemma_move_count_nonneg(sub, m);
        crate::minimax::lemma_move_count_exists(sup, m);
        let j = choose|j: int| 0 <= j < sup.len() && sup[j] == m;
        lemma_q_remove(v, sup, j, pd);
        lemma_q_prefix_agree(v, sub, sub.drop_last(), sub.len() - 1, pd);
        assert forall|mm: Move|
            #[trigger] crate::move_order::move_count(sub.drop_last(), mm)
            <= crate::move_order::move_count(sup.remove(j), mm) by {
            crate::minimax::lemma_move_count_remove(sup, j, mm);
            assert(crate::move_order::move_count(sub, mm) == crate::move_order::move_count(
                sub.drop_last(),
                mm,
            ) + (if sub.last() == mm {
                1int
            } else {
                0int
            }));
        }
        lemma_q_submultiset(v, sub.drop_last(), sup.remove(j), pd);
    }
}

/// `best_cap_of` reads only the first `n` moves.
pub proof fn lemma_cap_prefix_agree(v: BoardView, ms1: Seq<Move>, ms2: Seq<Move>, n: int)
    requires
        forall|j: int| 0 <= j < n ==> ms1[j] == ms2[j],
    ensures
        best_cap_of(v, ms1, n) == best_cap_of(v, ms2, n),
    decreases n,
{
    if n > 0 {
        lemma_cap_prefix_agree(v, ms1, ms2, n - 1);
    }
}

/// The fold sits at the side's worst value with no moves, and every
/// expanded capture only improves it.
pub proof fn lemma_cap_base_bound(v: BoardView, ms: Seq<Move>, n: int)
    ensures
        v.current == Color::White ==> best_cap_of(v, ms, n) >= -SCORE_INF,
        v.current != Color::White ==> best_cap_of(v, ms, n) <= SCORE_INF,
    decreases n,
{
    if n > 0 {
        lemma_cap_base_bound(v, ms, n - 1);
    }
}

/// Taking any one move out of the fold leaves the best of the rest,
/// combined with that move's contribution (nothing, if it is not an
/// expanded capture).
pub proof fn lemma_cap_remove(v: BoardView, ms: Seq<Move>, i: int)
    requires
        0 <= i < ms.len(),
    ensures
        best_cap_of(v, ms, ms.len() as int) == (if cap_ok(v, ms[i]) {
            if v.current == Color::White {
                if best_cap_of(v, ms.remove(i), ms.len() - 1) >= quiesce_value(
                    v.transition_view(ms[i]),
                ) {
                    best_cap_of(v, ms.remove(i), ms.len() - 1)
                } else {
                    quiesce_value(v.transition_view(ms[i]))
                }
            } else {
                if best_cap_of(v, ms.remove(i), ms.len() - 1) <= quiesce_value(
                    v.transition_view(ms[i]),
                ) {
                    best_cap_of(v, ms.remove(i), ms.len() - 1)
                } else {
                    quiesce_value(v.transition_view(ms[i]))
                }
            }
        } else {
            best_cap_of(v, ms.remove(i), ms.len() - 1)
        }),
    decreases ms.len(),
{
    if i == ms.len() - 1 {
        assert(ms.remove(i) =~= ms.drop_last());
        lemma_cap_prefix_agree(v, ms, ms.remove(i), ms.len() - 1);
    } else {
        lemma_cap_prefix_agree(v, ms, ms.drop_last(), ms.len() - 1);
        lemma_cap_remove(v, ms.drop_last(), i);
        assert(ms.remove(i).drop_last() =~= ms.drop_last().remove(i));
        lemma_cap_prefix_agree(v, ms.remove(i), ms.drop_last().remove(i), ms.len() - 2);
        assert(ms.remove(i)[ms.len() - 2] == ms.last());
    }
}

/// A list without expanded captures folds to the base value.
pub proof fn lemma_cap_all_skipped(v: BoardView, ms: Seq<Move>, n: int)
    requires
        forall|j: int| 0 <= j < n ==> !cap_ok(v, #[trigger] ms[j]),
    ensures
        best_cap_of(v, ms, n) == (if v.current == Color::White {
            -SCORE_INF as int
        } else {
            SCORE_INF as int
        }),
    decreases n,
{
    if n > 0 {
        lemma_cap_all_skipped(v, ms, n - 1);
    }
}

/// The fold depends only on which expanded captures the list holds, not
/// on their order or on the unexpanded moves beside them.
pub proof fn lemma_cap_permutation(v: BoardView, ms1: Seq<Move>, ms2: Seq<Move>)
    requires
        forall|m: Move|
            cap_ok(v, m) ==> #[trigger] crate::move_order::move_count(ms1, m)
                == crate::move_order::move_count(ms2, m),
    ensures
        best_cap_of(v, ms1, ms1.len() as int) == best_cap_of(v, ms2, ms2.len() as int),
    decreases ms1.len(),
{
    if ms1.len() == 0 {
        assert forall|j: int| 0 <= j < ms2.len() implies !cap_ok(v, #[trigger] ms2[j]) by {
            if cap_ok(v, ms2[j]) {
                crate::minimax::lemma_move_count_at_index(ms2, j);
                crate::minimax::lemma_move_count_nonneg(ms1, ms2[j]);
                assert(crate::move_order::move_count(ms1, ms2[j]) == crate::move_order::move_count(
                    ms2,
                    ms2[j],
                ));
            }
        }
        lemma_cap_all_skipped(v, ms2, ms2.len() as int);
    } else {
        let m = ms1.last();
        lemma_cap_prefix_agree(v, ms1, ms1.drop_last(), ms1.len() - 1);
        if cap_ok(v, m) {
            crate::minimax::lemma_move_count_at_index(ms1, ms1.len() - 1);
            assert(crate::move_order::move_count(ms2, m) > 0);
            crate::minimax::lemma_move_count_exists(ms2, m);
            let j = choose|j: int| 0 <= j < ms2.len() && ms2[j] == m;
            lemma_cap_remove(v, ms2, j);
            assert forall|mm: Move| cap_ok(v, mm) implies #[trigger] crate::move_order::move_count(
                ms1.drop_last(),
                mm,
            ) == crate::move_order::move_count(ms2.remove(j), mm) by {
                crate::minimax::lemma_move_count_remove(ms2, j, mm);
                assert(crate::move_order::move_count(ms1, mm) == crate::move_order::move_count(
                    ms1.drop_last(),
                    mm,
                ) + (if ms1.last() == mm {
                    1int
                } else {
                    0int
                }));
            }
            lemma_cap_permutation(v, ms1.drop_last(), ms2.remove(j));
        } else {
            assert forall|mm: Move| cap_ok(v, mm) implies #[trigger] crate::move_order::move_count(
                ms1.drop_last(),
                mm,
            ) == crate::move_order::move_count(ms2, mm) by {
                assert(crate::move_order::move_count(ms1, mm) == crate::move_order::move_count(
                    ms1.drop_last(),
                    mm,
                ) + (if ms1.last() == mm {
                    1int
                } else {
                    0int
                }));
            }
            lemma_cap_permutation(v, ms1.drop_last(), ms2);
        }
    }
}

/// A list holding no more occurrences of any expanded capture than
/// another cannot beat it for the side to move.
pub proof fn lemma_cap_submultiset(v: BoardView, sub: Seq<Move>, sup: Seq<Move>)
    requires
        forall|m: Move|
            cap_ok(v, m) ==> #[trigger] crate::move_order::move_count(sub, m)
                <= crate::move_order::move_count(sup, m),
    ensures
        v.current == Color::White ==> best_cap_of(v, sub, sub.len() as int) <= best_cap_of(
            v,
            sup,
            sup.len() as int,
        ),
        v.current != Color::White ==> best_cap_of(v, sub, sub.len() as int) >= best_cap_of(
            v,
            sup,
            sup.len() as int,
        ),
    decreases sub.len(),
{
    if sub.len() == 0 {
        lemma_cap_base_bound(v, sup, sup.len() as int);
    } else {
        let m = sub.last();
        lemma_cap_prefix_agree(v, sub, sub.drop_last(), sub.len() - 1);
        if cap_ok(v, m) {
            crate::minimax::lemma_move_count_at_index(sub, sub.len() - 1);
            assert(crate::move_order::move_count(sup, m) > 0);
            crate::minimax::lemma_move_count_exists(sup, m);
            let j = choose|j: int| 0 <= j < sup.len() && sup[j] == m;
            lemma_cap_remove(v, sup, j);
            assert forall|mm: Move| cap_ok(v, mm) implies #[trigger] crate::move_order::move_count(
                sub.drop_last(),
                mm,
            ) <= crate::move_order::move_count(sup.remove(j), mm) by {
                crate::minimax::lemma_move_count_remove(sup, j, mm);
                assert(crate::move_order::move_count(sub, mm) == crate::move_order::move_count(
                    sub.drop_last(),
                    mm,
                ) + (if sub.last() == mm {
                    1int
                } else {
                    0int
                }));
            }
            lemma_cap_submultiset(v, sub.drop_last(), sup.remove(j));
        } else {
            assert forall|mm: Move| cap_ok(v, mm) implies #[trigger] crate::move_order::move_count(
                sub.drop_last(),
                mm,
            ) <= crate::move_order::move_count(sup, mm) by {
                assert(crate::move_order::move_count(sub, mm) == crate::move_order::move_count(
                    sub.drop_last(),
                    mm,
                ) + (if sub.last() == mm {
                    1int
                } else {
                    0int
                }));
            }
            lemma_cap_submultiset(v, sub.drop_last(), sup);
        }
    }
}

pub struct Quiescence {
    pub search_depth: u64,
}

impl Quiescence {
    pub fn new(search_depth: u64) -> (r: Quiescence)
        ensures
            r.search_depth == search_depth,
    {
        Quiescence { search_depth }
    }

    /// The capture-only extension: stand pat on the current score, or keep
    /// exchanging captures while they improve the window. The recursion is
    /// bounded by the number of pieces on the board. The stand-pat window
    /// check comes before the terminal check, as the search's step order
    /// has it: a decided position whose raw score already clears the
    /// window answers the window bound, any other decided position its
    /// mate or stalemate sentinel; a position with moves but no capture
    /// answers its raw score clamped by the window.
    pub fn quiescense(board: &ZobristBoard, alpha: i64, beta: i64, keys: &ZobristKeys) -> (r:
        i64)
        requires
            board.wf_with(*keys),
            -SCORE_INF - 1 <= alpha <= SCORE_INF + 1,
            -SCORE_INF - 1 <= beta <= SCORE_INF + 1,
        ensures
            -SCORE_INF - 1 <= r <= SCORE_INF + 1,
            (board.inner.inner@.current == Color::White && all_moves_spec(
                board.inner.inner@,
            ).len() == 0) ==> r as int == (if heuristic_spec(board.inner.inner@.squares)
                >= beta {
                beta as int
            } else {
                terminal_score_spec(terminal_winner(board.inner.inner@))
            }),
            (board.inner.inner@.current == Color::Black && all_moves_spec(
                board.inner.inner@,
            ).len() == 0) ==> r as int == (if heuristic_spec(board.inner.inner@.squares)
                < alpha {
                alpha as int
            } else {
                terminal_score_spec(terminal_winner(board.inner.inner@))
            }),
            (board.inner.inner@.current == Color::White && all_moves_spec(
                board.inner.inner@,
            ).len() > 0 && no_captures(board.inner.inner@)) ==> r as int == (if heuristic_spec(
                board.inner.inner@.squares,
            ) >= beta {
                beta as int
            } else {
                heuristic_spec(board.inner.inner@.squares)
            }),
            (board.inner.inner@.current == Color::Black && all_moves_spec(
                board.inner.inner@,
            ).len() > 0 && no_captures(board.inner.inner@)) ==> r as int == (if heuristic_spec(
                board.inner.inner@.squares,
            ) < alpha {
                alpha as int
            } else {
                heuristic_spec(board.inner.inner@.squares)
            }),
            (cap_live(board.inner.inner@) && alpha <= beta) ==> (alpha < r < beta ==> r as int
                == quiesce_value(board.inner.inner@)),
            (cap_live(board.inner.inner@) && alpha <= beta) ==> ((r <= alpha && r < beta)
                ==> quiesce_value(board.inner.inner@) <= r as int),
            (cap_live(board.inner.inner@) && alpha <= beta) ==> ((r >= beta && r > alpha)
                ==> quiesce_value(board.inner.inner@) >= r as int),
        decreases occupied_count(board.inner.inner@.squares),
    {
        let ghost v0 = board.inner.inner@;
        let mut a = alpha;
        let mut b = beta;
        proof {
            lemma_heuristic_bound(v0.squares);
        }
        let cur_score = board.heuristic() as i64;
        let white = board.current_player() == Color::White;
        if white {
            if cur_score >= b {
                return b;
            }
            if a < cur_score {
                a = cur_score;
            }
        } else {
            if cur_score <= b {
                b = cur_score;
            }
            if a > cur_score {
                return a;
            }
        }
        let terminal = board.is_terminal();
        match terminal {
            Some(c) => { return terminal_score(c); },
            None => {},
        }
        let moves = board.all_moves();
        let mut caps: Vec<Move> = Vec::new();
        let mut i: usize = 0;
        while i < moves.len()
            invariant
                v0 == board.inner.inner@,
                i <= moves.len(),
                moves@ == all_moves_spec(v0),
                forall|j: int|
                    0 <= j < moves@.len() ==> legal_ok(v0, #[trigger] moves@[j]),
                forall|j: int|
                    0 <= j < caps@.len() ==> legal_ok(v0, #[trigger] caps@[j])
                        && caps@[j].extra.is_capturing_spec(),
                caps@.len() == 0 ==> (forall|j: int|
                    0 <= j < i ==> !(#[trigger] moves@[j]).extra.is_capturing_spec()),
                caps@.len() > 0 ==> !no_captures(v0),
                forall|m: Move|
                    #[trigger] crate::move_order::move_count(caps@, m) == (
                    if m.extra.is_capturing_spec() {
                        crate::move_order::move_count(moves@.take(i as int), m)
                    } else {
                        0
                    }),
            decreases moves.len() - i,
        {
            let ghost old_caps = caps@;
            let m = moves[i];
            if m.extra.is_capturing() {
                caps.push(m);
                proof {
                    assert(all_moves_spec(v0)[i as int].extra.is_capturing_spec());
                    assert(caps@.drop_last() =~= old_caps);
                }
            }
            proof {
                assert(moves@.take(i + 1).drop_last() =~= moves@.take(i as int));
                assert(moves@.take(i + 1).last() == moves@[i as int]);
                assert forall|mm: Move|
                    #[trigger] crate::move_order::move_count(caps@, mm) == (
                if mm.extra.is_capturing_spec() {
                    crate::move_order::move_count(moves@.take(i + 1), mm)
                } else {
                    0int
                }) by {
                    assert(crate::move_order::move_count(moves@.take(i + 1), mm)
                        == crate::move_order::move_count(moves@.take(i as int), mm) + (
                    if moves@[i as int] == mm {
                        1int
                    } else {
                        0int
                    }));
                    if moves@[i as int].extra.is_capturing_spec() {
                        assert(caps@.last() == moves@[i as int]);
                        assert(crate::move_order::move_count(caps@, mm)
                            == crate::move_order::move_count(old_caps, mm) + (
                        if moves@[i as int] == mm {
                            1int
                        } else {
                            0int
                        }));
                    }
                }
            }
            i += 1;
        }
        proof {
            assert(moves@.take(moves@.len() as int) =~= moves@);
        }
        if caps.len() == 0 {
            proof {
                assert forall|j: int| 0 <= j < all_moves_spec(v0).len() implies !(
                #[trigger] all_moves_spec(v0)[j]).extra.is_capturing_spec() by {
                    assert(!moves@[j].extra.is_capturing_spec());
                }
                assert(no_captures(v0));
            }
            return cur_score;
        }
        proof {
            assert(!no_captures(v0));
        }
        proof {
            assert(v0.wf());
        }
        let mut rem = order_moves(caps, board, keys);
        let ghost caps_view = caps@;
        let ghost rem0 = rem@;
        let ghost omvs = crate::minimax::mvs_of(rem0);
        let ghost live = cap_live(v0) && alpha <= beta;
        let ghost cur_g = cur_score as int;
        proof {
            assert forall|m: Move|
                #[trigger] crate::move_order::move_count(omvs, m)
                == crate::move_order::move_count(caps_view, m) by {
                crate::minimax::lemma_mvs_of_counts(rem0, m);
            }
        }
        let mut cut = false;
        let ghost mut k: int = 0;
        if white {
            let ghost aa = a as int;
            let ghost bb = beta as int;
            let mut value: i64 = -SCORE_INF;
            while rem.len() > 0 && !cut
                invariant
                    board.wf_with(*keys),
                    v0 == board.inner.inner@,
                    v0.current == Color::White,
                    v0.wf(),
                    live == (cap_live(v0) && alpha <= beta),
                    !no_captures(v0),
                    moves@ == all_moves_spec(v0),
                    forall|m: Move|
                        #[trigger] crate::move_order::move_count(caps_view, m) == (
                        if m.extra.is_capturing_spec() {
                            crate::move_order::move_count(moves@, m)
                        } else {
                            0
                        }),
                    forall|m: Move|
                        #[trigger] crate::move_order::move_count(omvs, m)
                            == crate::move_order::move_count(caps_view, m),
                    omvs == crate::minimax::mvs_of(rem0),
                    0 <= k <= rem0.len(),
                    rem@.len() == rem0.len() - k,
                    forall|j: int| 0 <= j < rem@.len() ==> #[trigger] rem@[j] == rem0[k + j],
                    forall|j: int|
                        0 <= j < rem0.len() ==> entry_ok(v0, *keys, caps_view, #[trigger] rem0[j]),
                    forall|j: int|
                        0 <= j < caps_view.len() ==> legal_ok(v0, #[trigger] caps_view[j])
                            && caps_view[j].extra.is_capturing_spec(),
                    -SCORE_INF - 1 <= alpha <= SCORE_INF + 1,
                    -SCORE_INF - 1 <= beta <= SCORE_INF + 1,
                    bb == beta as int,
                    aa == (if alpha as int >= cur_g {
                        alpha as int
                    } else {
                        cur_g
                    }),
                    cur_g == heuristic_spec(v0.squares),
                    -1283200 <= cur_g <= 1283200,
                    cur_g < bb,
                    -SCORE_INF <= value <= SCORE_INF + 1,
                    a as int == (if value as int > aa {
                        value as int
                    } else {
                        aa
                    }),
                    b == beta,
                    alpha <= beta ==> (!cut ==> a <= b),
                    alpha <= beta ==> (!cut ==> (aa < bb ==> a < b)),
                    cut ==> a as int >= bb,
                    live ==> (aa < bb ==> (value as int <= aa ==> best_cap_of(v0, omvs, k)
                        <= value as int)),
                    live ==> (aa < value < bb ==> value as int == best_cap_of(v0, omvs, k)),
                    live ==> (aa < bb && value as int >= bb ==> best_cap_of(v0, omvs, k)
                        >= value as int),
                    live ==> (value as int > bb ==> best_cap_of(v0, omvs, k) >= value as int),
                decreases rem@.len(),
            {
                let ghost old_rem = rem@;
                let mr = rem.remove(0);
                proof {
                    assert forall|j: int| 0 <= j < rem@.len() implies #[trigger] rem@[j] == rem0[k
                        + 1 + j] by {
                        assert(rem@[j] == old_rem[j + 1]);
                    }
                    assert(mr == rem0[k]);
                    assert(entry_ok(v0, *keys, caps_view, rem0[k]));
                    reveal(plays);
                    assert(mr.mv == omvs[k]);
                    let t = choose|t: int| 0 <= t < caps_view.len() && mr.mv == caps_view[t];
                    lemma_capture_reduces_occupied(v0, mr.mv);
                    lemma_occupied_nonneg(mr.board.inner.inner@.squares);
                    if live {
                        crate::minimax::lemma_move_count_at_index(caps_view, t);
                        assert(crate::move_order::move_count(moves@, mr.mv) > 0);
                        crate::minimax::lemma_move_count_exists(moves@, mr.mv);
                        let u = choose|u: int| 0 <= u < moves@.len() && moves@[u] == mr.mv;
                        assert(cap_ok(v0, all_moves_spec(v0)[u]));
                        assert(cap_live(v0.transition_view(mr.mv)));
                    }
                }
                let s = Self::quiescense(&mr.board, a, b, keys);
                proof {
                    if live {
                        assert(cap_ok(v0, omvs[k]));
                        let qc = quiesce_value(v0.transition_view(omvs[k]));
                        let q_old = best_cap_of(v0, omvs, k);
                        assert(best_cap_of(v0, omvs, k + 1) == (if q_old >= qc {
                            q_old
                        } else {
                            qc
                        }));
                    }
                }
                if s > value {
                    value = s;
                }
                if value > a {
                    a = value;
                }
                if a >= b {
                    cut = true;
                }
                proof {
                    k = k + 1;
                }
            }
            proof {
                if live {
                    let bc = best_cap_of(v0, all_moves_spec(v0), all_moves_spec(v0).len() as int);
                    if !cut {
                        assert(k == rem0.len());
                        assert forall|m: Move| cap_ok(v0, m) implies #[trigger]
                        crate::move_order::move_count(omvs, m) == crate::move_order::move_count(
                            moves@,
                            m,
                        ) by {}
                        lemma_cap_permutation(v0, omvs, moves@);
                        assert(best_cap_of(v0, omvs, k) == bc);
                    } else {
                        lemma_cap_prefix_agree(v0, omvs, omvs.take(k), k);
                        assert(omvs.take(k).len() == k);
                        assert forall|m: Move| cap_ok(v0, m) implies #[trigger]
                        crate::move_order::move_count(omvs.take(k), m)
                            <= crate::move_order::move_count(moves@, m) by {
                            crate::minimax::lemma_move_count_take(omvs, k, m);
                        }
                        lemma_cap_submultiset(v0, omvs.take(k), moves@);
                        assert(best_cap_of(v0, omvs, k) <= bc);
                    }
                    assert(quiesce_value(v0) == (if cur_g >= bc {
                        cur_g
                    } else {
                        bc
                    }));
                    let rr = a as int;
                    if alpha < rr < beta {
                        assert(!cut);
                        assert(aa < bb);
                        if value as int > aa {
                            assert(rr == value as int);
                            assert(value as int == bc);
                            assert(quiesce_value(v0) == rr);
                        } else {
                            assert(rr == aa);
                            assert(aa == cur_g);
                            assert(bc <= value as int);
                            assert(quiesce_value(v0) == rr);
                        }
                    }
                    if rr <= alpha && rr < beta {
                        assert(!cut);
                        assert(rr == alpha && aa == alpha as int);
                        assert(cur_g <= alpha as int);
                        assert(bc <= value as int);
                        assert(quiesce_value(v0) <= rr);
                    }
                    if rr >= beta && rr > alpha {
                        if value as int > aa {
                            assert(rr == value as int);
                            assert(best_cap_of(v0, omvs, k) >= value as int);
                            assert(bc >= rr);
                            assert(quiesce_value(v0) >= rr);
                        } else {
                            assert(rr == aa);
                            assert(aa == alpha as int);
                            assert(false);
                        }
                    }
                }
            }
            a
        } else {
            let ghost aa = alpha as int;
            let ghost bb = b as int;
            let mut value: i64 = SCORE_INF;
            while rem.len() > 0 && !cut
                invariant
                    board.wf_with(*keys),
                    v0 == board.inner.inner@,
                    v0.current == Color::Black,
                    v0.wf(),
                    live == (cap_live(v0) && alpha <= beta),
                    !no_captures(v0),
                    moves@ == all_moves_spec(v0),
                    forall|m: Move|
                        #[trigger] crate::move_order::move_count(caps_view, m) == (
                        if m.extra.is_capturing_spec() {
                            crate::move_order::move_count(moves@, m)
                        } else {
                            0
                        }),
                    forall|m: Move|
                        #[trigger] crate::move_order::move_count(omvs, m)
                            == crate::move_order::move_count(caps_view, m),
                    omvs == crate::minimax::mvs_of(rem0),
                    0 <= k <= rem0.len(),
                    rem@.len() == rem0.len() - k,
                    forall|j: int| 0 <= j < rem@.len() ==> #[trigger] rem@[j] == rem0[k + j],
                    forall|j: int|
                        0 <= j < rem0.len() ==> entry_ok(v0, *keys, caps_view, #[trigger] rem0[j]),
                    forall|j: int|
                        0 <= j < caps_view.len() ==> legal_ok(v0, #[trigger] caps_view[j])
                            && caps_view[j].extra.is_capturing_spec(),
                    -SCORE_INF - 1 <= alpha <= SCORE_INF + 1,
                    -SCORE_INF - 1 <= beta <= SCORE_INF + 1,
                    aa == alpha as int,
                    bb == (if beta as int <= cur_g {
                        beta as int
                    } else {
                        cur_g
                    }),
                    cur_g == heuristic_spec(v0.squares),
                    -1283200 <= cur_g <= 1283200,
                    cur_g >= aa,
                    -SCORE_INF - 1 <= value <= SCORE_INF,
                    b as int == (if (value as int) < bb {
                        value as int
                    } else {
                        bb
                    }),
                    a == alpha,
                    alpha <= beta ==> (!cut ==> b >= a),
                    alpha <= beta ==> (!cut ==> (aa < bb ==> b > a)),
                    cut ==> b as int <= aa,
                    live ==> (aa < bb ==> (value as int >= bb ==> best_cap_of(v0, omvs, k)
                        >= value as int)),
                    live ==> (aa < value < bb ==> value as int == best_cap_of(v0, omvs, k)),
                    live ==> (aa < bb && value as int <= aa ==> best_cap_of(v0, omvs, k)
                        <= value as int),
                    live ==> ((value as int) < aa ==> best_cap_of(v0, omvs, k) <= value as int),
                decreases rem@.len(),
            {
                let ghost old_rem = rem@;
                let mr = rem.remove(0);
                proof {
                    assert forall|j: int| 0 <= j < rem@.len() implies #[trigger] rem@[j] == rem0[k
                        + 1 + j] by {
                        assert(rem@[j] == old_rem[j + 1]);
                    }
                    assert(mr == rem0[k]);
                    assert(entry_ok(v0, *keys, caps_view, rem0[k]));
                    reveal(plays);
                    assert(mr.mv == omvs[k]);
                    let t = choose|t: int| 0 <= t < caps_view.len() && mr.mv == caps_view[t];
                    lemma_capture_reduces_occupied(v0, mr.mv);
                    lemma_occupied_nonneg(mr.board.inner.inner@.squares);
                    if live {
                        crate::minimax::lemma_move_count_at_index(caps_view, t);
                        assert(crate::move_order::move_count(moves@, mr.mv) > 0);
                        crate::minimax::lemma_move_count_exists(moves@, mr.mv);
                        let u = choose|u: int| 0 <= u < moves@.len() && moves@[u] == mr.mv;
                        assert(cap_ok(v0, all_moves_spec(v0)[u]));
                        assert(cap_live(v0.transition_view(mr.mv)));
                    }
                }
                let s = Self::quiescense(&mr.board, a, b, keys);
                proof {
                    if live {
                        assert(cap_ok(v0, omvs[k]));
                        let qc = quiesce_value(v0.transition_view(omvs[k]));
                        let q_old = best_cap_of(v0, omvs, k);
                        assert(best_cap_of(v0, omvs, k + 1) == (if q_old <= qc {
                            q_old
                        } else {
                            qc
                        }));
                    }
                }
                if s < value {
                    value = s;
                }
                if value < b {
                    b = value;
                }
                if b <= a {
                    cut = true;
                }
                proof {
                    k = k + 1;
                }
            }
            proof {
                if live {
                    let bc = best_cap_of(v0, all_moves_spec(v0), all_moves_spec(v0).len() as int);
                    if !cut {
                        assert(k == rem0.len());
                        assert forall|m: Move| cap_ok(v0, m) implies #[trigger]
                        crate::move_order::move_count(omvs, m) == crate::move_order::move_count(
                            moves@,
                            m,
                        ) by {}
                        lemma_cap_permutation(v0, omvs, moves@);
                        assert(best_cap_of(v0, omvs, k) == bc);
                    } else {
                        lemma_cap_prefix_agree(v0, omvs, omvs.take(k), k);
                        assert(omvs.take(k).len() == k);
                        assert forall|m: Move| cap_ok(v0, m) implies #[trigger]
                        crate::move_order::move_count(omvs.take(k), m)
                            <= crate::move_order::move_count(moves@, m) by {
                            crate::minimax::lemma_move_count_take(omvs, k, m);
                        }
                        lemma_cap_submultiset(v0, omvs.take(k), moves@);
                        assert(best_cap_of(v0, omvs, k) >= bc);
                    }
                    assert(quiesce_value(v0) == (if cur_g <= bc {
                        cur_g
                    } else {
                        bc
                    }));
                    let rr = b as int;
                    if alpha < rr < beta {
                        assert(!cut);
                        assert(aa < bb);
                        if (value as int) < bb {
                            assert(rr == value as int);
                            assert(value as int == bc);
                            assert(quiesce_value(v0) == rr);
                        } else {
                            assert(rr == bb);
                            assert(bb == cur_g);
                            assert(bc >= value as int);
                            assert(quiesce_value(v0) == rr);
                        }
                    }
                    if rr >= beta && rr > alpha {
                        assert(!cut);
                        assert(rr == beta as int && bb == beta as int);
                        assert(cur_g >= beta as int);
                        assert(bc >= value as int);
                        assert(quiesce_value(v0) >= rr);
                    }
                    if rr <= alpha && rr < beta {
                        if (value as int) < bb {
                            assert(rr == value as int);
                            assert(best_cap_of(v0, omvs, k) <= value as int);
                            assert(bc <= rr);
                            assert(quiesce_value(v0) <= rr);
                        } else {
                            assert(rr == bb);
                            assert(bb == cur_g || bb == beta as int);
                            if bb == beta as int && cur_g > beta as int {
                                assert(false);
                            }
                            assert(cur_g <= rr);
                            assert(quiesce_value(v0) <= rr);
                        }
                    }
                }
            }
            b
        }
    }

    /// Alpha-beta to the given depth, descending into the quiescence
    /// extension at the horizon instead of standing on the raw heuristic:
    /// an interior decided position answers its sentinel, and a horizon
    /// position answers as the capture-only extension does. Wherever
    /// every horizon position reachable within the depth is alive for
    /// the capture extension, the result is fail-soft sound against the
    /// depth-limited value `qsearch_value`: inside the window it equals
    /// it exactly, at or below alpha it is an upper bound on it, at or
    /// above beta a lower bound.
    #[verifier::rlimit(100)]
    pub fn mini_max_ab(board: &ZobristBoard, depth: u64, alpha: i64, beta: i64, keys: &ZobristKeys) -> (r: i64)
        requires
            board.wf_with(*keys),
            -SCORE_INF - 1 <= alpha < beta <= SCORE_INF + 1,
        ensures
            -SCORE_INF - 1 <= r <= SCORE_INF + 1,
            (depth >= 1 && all_moves_spec(board.inner.inner@).len() == 0) ==> r as int
                == terminal_score_spec(terminal_winner(board.inner.inner@)),
            (depth == 0 && board.inner.inner@.current == Color::White && all_moves_spec(
                board.inner.inner@,
            ).len() == 0) ==> r as int == (if heuristic_spec(board.inner.inner@.squares)
                >= beta {
                beta as int
            } else {
                terminal_score_spec(terminal_winner(board.inner.inner@))
            }),
            (depth == 0 && board.inner.inner@.current == Color::Black && all_moves_spec(
                board.inner.inner@,
            ).len() == 0) ==> r as int == (if heuristic_spec(board.inner.inner@.squares)
                < alpha {
                alpha as int
            } else {
                terminal_score_spec(terminal_winner(board.inner.inner@))
            }),
            (depth == 0 && board.inner.inner@.current == Color::White && all_moves_spec(
                board.inner.inner@,
            ).len() > 0 && no_captures(board.inner.inner@)) ==> r as int == (if heuristic_spec(
                board.inner.inner@.squares,
            ) >= beta {
                beta as int
            } else {
                heuristic_spec(board.inner.inner@.squares)
            }),
            (depth == 0 && board.inner.inner@.current == Color::Black && all_moves_spec(
                board.inner.inner@,
            ).len() > 0 && no_captures(board.inner.inner@)) ==> r as int == (if heuristic_spec(
                board.inner.inner@.squares,
            ) < alpha {
                alpha as int
            } else {
                heuristic_spec(board.inner.inner@.squares)
            }),
            qsearch_live(board.inner.inner@, depth as nat) ==> (alpha < r < beta ==> r as int
                == qsearch_value(board.inner.inner@, depth as nat)),
            qsearch_live(board.inner.inner@, depth as nat) ==> (r <= alpha ==> qsearch_value(
                board.inner.inner@,
                depth as nat,
            ) <= r as int),
            qsearch_live(board.inner.inner@, depth as nat) ==> (r >= beta ==> qsearch_value(
                board.inner.inner@,
                depth as nat,
            ) >= r as int),
        decreases depth,
    {
        let ghost v0 = board.inner.inner@;
        let ghost d = depth as nat;
        if depth == 0 {
            return Self::quiescense(board, alpha, beta, keys);
        }
        let terminal = board.is_terminal();
        match terminal {
            Some(c) => { return terminal_score(c); },
            None => {},
        }
        let moves = board.all_moves();
        let white = board.current_player() == Color::White;
        let mut rem = order_moves(moves, board, keys);
        let ghost rem0 = rem@;
        let ghost omvs = crate::minimax::mvs_of(rem0);
        let ghost live = qsearch_live(v0, d);
        proof {
            assert forall|m: Move|
                #[trigger] crate::move_order::move_count(omvs, m)
                == crate::move_order::move_count(moves@, m) by {
                crate::minimax::lemma_mvs_of_counts(rem0, m);
            }
        }
        let mut a = alpha;
        let mut b = beta;
        let mut value: i64 = if white {
            -SCORE_INF
        } else {
            SCORE_INF
        };
        if white {
            if value > a {
                a = value;
            }
        } else {
            if value < b {
                b = value;
            }
        }
        let mut cut = a >= b;
        let ghost mut k: int = 0;
        while rem.len() > 0 && !cut
            invariant
                board.wf_with(*keys),
                v0 == board.inner.inner@,
                depth >= 1,
                d == depth as nat,
                live == qsearch_live(v0, d),
                white == (v0.current == Color::White),
                moves@ == all_moves_spec(v0),
                moves@.len() > 0,
                rem0.len() == moves@.len(),
                omvs == crate::minimax::mvs_of(rem0),
                forall|m: Move|
                    #[trigger] crate::move_order::move_count(omvs, m)
                        == crate::move_order::move_count(moves@, m),
                0 <= k <= rem0.len(),
                rem@.len() == rem0.len() - k,
                forall|j: int| 0 <= j < rem@.len() ==> #[trigger] rem@[j] == rem0[k + j],
                forall|j: int|
                    0 <= j < rem0.len() ==> entry_ok(v0, *keys, moves@, #[trigger] rem0[j]),
                -SCORE_INF - 1 <= alpha < beta <= SCORE_INF + 1,
                -SCORE_INF - 1 <= value <= SCORE_INF + 1,
                white ==> a == (if value > alpha {
                    value
                } else {
                    alpha
                }),
                white ==> b == beta,
                !white ==> b == (if value < beta {
                    value
                } else {
                    beta
                }),
                !white ==> a == alpha,
                live ==> (white ==> (value <= alpha ==> best_q_of(v0, omvs, k, d) <= value)),
                live ==> (!white ==> (value >= beta ==> best_q_of(v0, omvs, k, d) >= value)),
                live ==> ((alpha < value < beta) ==> value == best_q_of(v0, omvs, k, d)),
                live ==> (white ==> (value >= beta ==> best_q_of(v0, omvs, k, d) >= value)),
                live ==> (!white ==> (value <= alpha ==> best_q_of(v0, omvs, k, d) <= value)),
                !cut ==> a < b,
                cut ==> (white && value >= beta) || (!white && value <= alpha),
            decreases rem@.len(),
        {
            let ghost old_rem = rem@;
            let mr = rem.remove(0);
            proof {
                assert forall|j: int| 0 <= j < rem@.len() implies #[trigger] rem@[j] == rem0[k + 1
                    + j] by {
                    assert(rem@[j] == old_rem[j + 1]);
                }
                assert(mr == rem0[k]);
                assert(entry_ok(v0, *keys, moves@, rem0[k]));
                reveal(plays);
                assert(mr.mv == omvs[k]);
                if live {
                    let u = choose|u: int| 0 <= u < moves@.len() && mr.mv == moves@[u];
                    assert(qsearch_live(
                        v0.transition_view(all_moves_spec(v0)[u]),
                        (d - 1) as nat,
                    ));
                    assert(qsearch_live(mr.board.inner.inner@, (d - 1) as nat));
                }
            }
            let s = Self::mini_max_ab(&mr.board, depth - 1, a, b, keys);
            let ghost vc = qsearch_value(v0.transition_view(omvs[k]), (d - 1) as nat);
            if white {
                if s > value {
                    value = s;
                }
                if value > a {
                    a = value;
                }
                if a >= b {
                    cut = true;
                }
            } else {
                if s < value {
                    value = s;
                }
                if value < b {
                    b = value;
                }
                if b <= a {
                    cut = true;
                }
            }
            proof {
                k = k + 1;
            }
        }
        proof {
            if live {
                if !cut {
                    assert(k == rem0.len());
                    lemma_q_prefix_agree(v0, omvs, omvs, omvs.len() as int, d);
                    lemma_q_permutation(v0, omvs, moves@, d);
                } else {
                    lemma_q_prefix_agree(v0, omvs, omvs.take(k), k, d);
                    assert(omvs.take(k).len() == k);
                    assert forall|m: Move|
                        #[trigger] crate::move_order::move_count(omvs.take(k), m)
                        <= crate::move_order::move_count(moves@, m) by {
                        crate::minimax::lemma_move_count_take(omvs, k, m);
                    }
                    lemma_q_submultiset(v0, omvs.take(k), moves@, d);
                }
                assert(qsearch_value(v0, d) == best_q_of(v0, moves@, moves@.len() as int, d));
            }
        }
        value
    }

    /// Searches every legal move with the full window and plays one of the
    /// best-scoring moves, chosen uniformly at random among ties.
    pub fn make_move(&self, board: &DisplayableBoard, keys: &ZobristKeys) -> (r: Option<
        DisplayableBoard,
    >)
        requires
            board.wf_with(*keys),
        ensures
            match r {
                Some(nb) => nb.wf_with(*keys) && (exists|m: Move|
                    crate::movegen::all_moves_spec(board.pos()).contains(m) && legal_ok(
                        board.pos(),
                        m,
                    ) && nb.pos() == board.pos().transition_view(m)),
                None => crate::movegen::all_moves_spec(board.pos()).len() == 0,
            },
    {
        let ghost v0 = board.pos();
        let moves = board.all_moves();
        let white = board.current_player() == Color::White;
        let mut rem = order_moves(moves, &board.inner, keys);
        let mut best_moves: Vec<Move> = Vec::new();
        let mut best: i64 = if white {
            -SCORE_INF - 2
        } else {
            SCORE_INF + 2
        };
        while rem.len() > 0
            invariant
                board.wf_with(*keys),
                v0 == board.pos(),
                moves@ == crate::movegen::all_moves_spec(v0),
                best_moves@.len() == 0 ==> rem@.len() == moves@.len(),
                best_moves@.len() == 0 ==> best == (if white {
                    -SCORE_INF - 2
                } else {
                    SCORE_INF + 2
                }),
                white == (v0.current == Color::White),
                forall|j: int|
                    0 <= j < rem@.len() ==> plays(v0, *keys, #[trigger] rem@[j]) && (exists|t: int|
                        0 <= t < moves@.len() && rem@[j].mv == moves@[t]),
                forall|j: int|
                    0 <= j < moves@.len() ==> legal_ok(v0, #[trigger] moves@[j]),
                forall|j: int|
                    0 <= j < best_moves@.len() ==> legal_ok(v0, #[trigger] best_moves@[j]),
                forall|j: int|
                    0 <= j < best_moves@.len() ==> (exists|t: int|
                        0 <= t < moves@.len() && #[trigger] best_moves@[j] == moves@[t]),
            decreases rem@.len(),
        {
            let ghost old_rem = rem@;
            let mr = rem.remove(0);
            proof {
                assert forall|j: int| 0 <= j < rem@.len() implies plays(
                    v0,
                    *keys,
                    #[trigger] rem@[j],
                ) && (exists|t: int| 0 <= t < moves@.len() && rem@[j].mv == moves@[t]) by {
                    assert(rem@[j] == old_rem[j + 1]);
                }
                reveal(plays);
            }
            let score = Self::mini_max_ab(
                &mr.board,
                self.search_depth,
                -SCORE_INF - 1,
                SCORE_INF + 1,
                keys,
            );
            if white {
                if score > best {
                    best = score;
                    best_moves = Vec::new();
                    best_moves.push(mr.mv);
                } else if score == best {
                    best_moves.push(mr.mv);
                }
            } else {
                if score < best {
                    best = score;
                    best_moves = Vec::new();
                    best_moves.push(mr.mv);
                } else if score == best {
                    best_moves.push(mr.mv);
                }
            }
        }
        if best_moves.len() == 0 {
            return None;
        }
        let k = pick_index(best_moves.len());
        let m = best_moves[k];
        proof {
            let t = choose|t: int| 0 <= t < moves@.len() && best_moves@[k as int] == moves@[t];
            assert(crate::movegen::all_moves_spec(v0)[t] == m);
            assert(crate::movegen::all_moves_spec(v0).contains(m));
        }
        let nb = board.transition(m, keys);
        Some(nb)
    }
}

} // verus!
