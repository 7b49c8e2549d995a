//! Iterative deepening combined with the quiescence extension: the
//! deadline-checked alpha-beta descends into capture-only search at the
//! horizon, and the whole search is re-run at increasing depths against
//! the clock, keeping the last fully completed depth's answer.

use vstd::prelude::*;
use crate::color::Color;
use crate::chess_move::Move;
use crate::clock::now_millis;
use crate::basic::BoardView;
use crate::minimax::terminal_winner;
use crate::movegen::{
    legal_ok, all_moves_spec, occupied_count, lemma_capture_reduces_occupied,
    lemma_occupied_nonneg,
};
use crate::move_order::{order_moves, plays, entry_ok};
use crate::pst::{heuristic_spec, lemma_heuristic_bound};
use crate::quiescence::{no_captures, cap_ok, cap_live, quiesce_value, best_cap_of, qsearch_value, best_q_of, qsearch_live, lemma_cap_permutation, lemma_cap_prefix_agree, lemma_cap_submultiset, lemma_q_permutation, lemma_q_prefix_agree, lemma_q_submultiset};
use crate::rng::pick_index;
use crate::score::{SCORE_INF, terminal_score, terminal_score_spec};
use crate::zobrist::{ZobristBoard, ZobristKeys};
use crate::display::DisplayableBoard;
use crate::iterative_deepening::MAX_ID_DEPTH;

verus! {

pub struct IDQuiescence {
}

impl IDQuiescence {
    pub fn new() -> (r: IDQuiescence) {
        IDQuiescence {  }
    }

    /// The capture-only extension with a cooperative deadline: as the
    /// undeadlined extension, but a branch entered after the deadline
    /// answers zero at once, flagged as timed out. A result whose flag is
    /// false was computed without any deadline cutoff and carries the
    /// undeadlined extension's exact and fail-soft guarantees. The stand-pat window
    /// check comes before the terminal check, as the search's step order
    /// has it: a decided position whose raw score already clears the
    /// window answers the window bound, any other decided position its
    /// mate or stalemate sentinel; a position with moves but no capture
    /// answers its raw score clamped by the window.
    pub fn quiescense(board: &ZobristBoard, alpha: i64, beta: i64, deadline: u64, keys: &ZobristKeys) -> (r: (i64, bool))
        requires
            board.wf_with(*keys),
            -SCORE_INF - 1 <= alpha <= SCORE_INF + 1,
            -SCORE_INF - 1 <= beta <= SCORE_INF + 1,
        ensures
            -SCORE_INF - 1 <= r.0 <= SCORE_INF + 1,
            (!r.1 && board.inner.inner@.current == Color::White && all_moves_spec(
                board.inner.inner@,
            ).len() == 0) ==> r.0 as int == (if heuristic_spec(board.inner.inner@.squares)
                >= beta {
                beta as int
            } else {
                terminal_score_spec(terminal_winner(board.inner.inner@))
            }),
            (!r.1 && board.inner.inner@.current == Color::Black && all_moves_spec(
                board.inner.inner@,
            ).len() == 0) ==> r.0 as int == (if heuristic_spec(board.inner.inner@.squares)
                < alpha {
                alpha as int
            } else {
                terminal_score_spec(terminal_winner(board.inner.inner@))
            }),
            (!r.1 && board.inner.inner@.current == Color::White && all_moves_spec(
                board.inner.inner@,
            ).len() > 0 && no_captures(board.inner.inner@)) ==> r.0 as int == (if heuristic_spec(
                board.inner.inner@.squares,
            ) >= beta {
                beta as int
            } else {
                heuristic_spec(board.inner.inner@.squares)
            }),
            (!r.1 && board.inner.inner@.current == Color::Black && all_moves_spec(
                board.inner.inner@,
            ).len() > 0 && no_captures(board.inner.inner@)) ==> r.0 as int == (if heuristic_spec(
                board.inner.inner@.squares,
            ) < alpha {
                alpha as int
            } else {
                heuristic_spec(board.inner.inner@.squares)
            }),
            (!r.1 && cap_live(board.inner.inner@) && alpha <= beta) ==> (alpha < r.0 < beta ==> r.0 as int
                == quiesce_value(board.inner.inner@)),
            (!r.1 && cap_live(board.inner.inner@) && alpha <= beta) ==> ((r.0 <= alpha && r.0 < beta)
                ==> quiesce_value(board.inner.inner@) <= r.0 as int),
            (!r.1 && cap_live(board.inner.inner@) && alpha <= beta) ==> ((r.0 >= beta && r.0 > alpha)
                ==> quiesce_value(board.inner.inner@) >= r.0 as int),
        decreases occupied_count(board.inner.inner@.squares),
    {
        if now_millis() > deadline {
            return (0, true);
        }
        let ghost v0 = board.inner.inner@;
        let mut a = alpha;
        let mut b = beta;
        proof {
            lemma_heuristic_bound(v0.squares);
        }
        let cur_score = board.heuristic() as i64;
        let white = board.current_player() == Color::White;
        if white {
            if cur_score >= b {
                return (b, false);
            }
            if a < cur_score {
                a = cur_score;
            }
        } else {
            if cur_score <= b {
                b = cur_score;
            }
            if a > cur_score {
                return (a, false);
            }
        }
        let terminal = board.is_terminal();
        match terminal {
            Some(c) => { return (terminal_score(c), false); },
            None => {},
        }
        let moves = board.all_moves();
        let mut caps: Vec<Move> = Vec::new();
        let mut i: usize = 0;
        while i < moves.len()
            invariant
                v0 == board.inner.inner@,
                i <= moves.len(),
                moves@ == all_moves_spec(v0),
                forall|j: int|
                    0 <= j < moves@.len() ==> legal_ok(v0, #[trigger] moves@[j]),
                forall|j: int|
                    0 <= j < caps@.len() ==> legal_ok(v0, #[trigger] caps@[j])
                        && caps@[j].extra.is_capturing_spec(),
                caps@.len() == 0 ==> (forall|j: int|
                    0 <= j < i ==> !(#[trigger] moves@[j]).extra.is_capturing_spec()),
                caps@.len() > 0 ==> !no_captures(v0),
                forall|m: Move|
                    #[trigger] crate::move_order::move_count(caps@, m) == (
                    if m.extra.is_capturing_spec() {
                        crate::move_order::move_count(moves@.take(i as int), m)
                    } else {
                        0
                    }),
            decreases moves.len() - i,
        {
            let ghost old_caps = caps@;
            let m = moves[i];
            if m.extra.is_capturing() {
                caps.push(m);
                proof {
                    assert(all_moves_spec(v0)[i as int].extra.is_capturing_spec());
                    assert(caps@.drop_last() =~= old_caps);
                }
            }
            proof {
                assert(moves@.take(i + 1).drop_last() =~= moves@.take(i as int));
                assert(moves@.take(i + 1).last() == moves@[i as int]);
                assert forall|mm: Move|
                    #[trigger] crate::move_order::move_count(caps@, mm) == (
                if mm.extra.is_capturing_spec() {
                    crate::move_order::move_count(moves@.take(i + 1), mm)
                } else {
                    0int
                }) by {
                    assert(crate::move_order::move_count(moves@.take(i + 1), mm)
                        == crate::move_order::move_count(moves@.take(i as int), mm) + (
                    if moves@[i as int] == mm {
                        1int
                    } else {
                        0int
                    }));
                    if moves@[i as int].extra.is_capturing_spec() {
                        assert(caps@.last() == moves@[i as int]);
                        assert(crate::move_order::move_count(caps@, mm)
                            == crate::move_order::move_count(old_caps, mm) + (
                        if moves@[i as int] == mm {
                            1int
                        } else {
                            0int
                        }));
                    }
                }
            }
            i += 1;
        }
        proof {
            assert(moves@.take(moves@.len() as int) =~= moves@);
        }
        if caps.len() == 0 {
            proof {
                assert forall|j: int| 0 <= j < all_moves_spec(v0).len() implies !(
                #[trigger] all_moves_spec(v0)[j]).extra.is_capturing_spec() by {
                    assert(!moves@[j].extra.is_capturing_spec());
                }
                assert(no_captures(v0));
            }
            return (cur_score, false);
        }
        proof {
            assert(!no_captures(v0));
        }
        proof {
            assert(v0.wf());
        }
        let mut rem = order_moves(caps, board, keys);
        let ghost caps_view = caps@;
        let ghost rem0 = rem@;
        let ghost omvs = crate::minimax::mvs_of(rem0);
        let ghost live = cap_live(v0) && alpha <= beta;
        let ghost cur_g = cur_score as int;
        proof {
            assert forall|m: Move|
                #[trigger] crate::move_order::move_count(omvs, m)
                == crate::move_order::move_count(caps_view, m) by {
                crate::minimax::lemma_mvs_of_counts(rem0, m);
            }
        }
        let mut cut = false;
        let mut timed = false;
        let ghost mut k: int = 0;
        if white {
            let ghost aa = a as int;
            let ghost bb = beta as int;
            let mut value: i64 = -SCORE_INF;
            while rem.len() > 0 && !cut
                invariant
                    board.wf_with(*keys),
                    v0 == board.inner.inner@,
                    v0.current == Color::White,
                    v0.wf(),
                    live == (cap_live(v0) && alpha <= beta),
                    !no_captures(v0),
                    moves@ == all_moves_spec(v0),
                    forall|m: Move|
                        #[trigger] crate::move_order::move_count(caps_view, m) == (
                        if m.extra.is_capturing_spec() {
                            crate::move_order::move_count(moves@, m)
                        } else {
                            0
                        }),
                    forall|m: Move|
                        #[trigger] crate::move_order::move_count(omvs, m)
                            == crate::move_order::move_count(caps_view, m),
                    omvs == crate::minimax::mvs_of(rem0),
                    0 <= k <= rem0.len(),
                    rem@.len() == rem0.len() - k,
                    forall|j: int| 0 <= j < rem@.len() ==> #[trigger] rem@[j] == rem0[k + j],
                    forall|j: int|
                        0 <= j < rem0.len() ==> entry_ok(v0, *keys, caps_view, #[trigger] rem0[j]),
                    forall|j: int|
                        0 <= j < caps_view.len() ==> legal_ok(v0, #[trigger] caps_view[j])
                            && caps_view[j].extra.is_capturing_spec(),
                    -SCORE_INF - 1 <= alpha <= SCORE_INF + 1,
                    -SCORE_INF - 1 <= beta <= SCORE_INF + 1,
                    bb == beta as int,
                    aa == (if alpha as int >= cur_g {
                        alpha as int
                    } else {
                        cur_g
                    }),
                    cur_g == heuristic_spec(v0.squares),
                    -1283200 <= cur_g <= 1283200,
                    cur_g < bb,
                    -SCORE_INF <= value <= SCORE_INF + 1,
                    a as int == (if value as int > aa {
                        value as int
                    } else {
                        aa
                    }),
                    b == beta,
                    alpha <= beta ==> (!cut ==> a <= b),
                    alpha <= beta ==> (!cut ==> (aa < bb ==> a < b)),
                    cut ==> a as int >= bb,
                    live && !timed ==> (aa < bb ==> (value as int <= aa ==> best_cap_of(v0, omvs, k)
                        <= value as int)),
                    live && !timed ==> (aa < value < bb ==> value as int == best_cap_of(v0, omvs, k)),
                    live && !timed ==> (aa < bb && value as int >= bb ==> best_cap_of(v0, omvs, k)
                        >= value as int),
                    live && !timed ==> (value as int > bb ==> best_cap_of(v0, omvs, k) >= value as int),
                decreases rem@.len(),
            {
                let ghost old_rem = rem@;
                let mr = rem.remove(0);
                proof {
                    assert forall|j: int| 0 <= j < rem@.len() implies #[trigger] rem@[j] == rem0[k
                        + 1 + j] by {
                        assert(rem@[j] == old_rem[j + 1]);
                    }
                    assert(mr == rem0[k]);
                    assert(entry_ok(v0, *keys, caps_view, rem0[k]));
                    reveal(plays);
                    assert(mr.mv == omvs[k]);
                    let t = choose|t: int| 0 <= t < caps_view.len() && mr.mv == caps_view[t];
                    lemma_capture_reduces_occupied(v0, mr.mv);
                    lemma_occupied_nonneg(mr.board.inner.inner@.squares);
                    if live && !timed {
                        crate::minimax::lemma_move_count_at_index(caps_view, t);
                        assert(crate::move_order::move_count(moves@, mr.mv) > 0);
                        crate::minimax::lemma_move_count_exists(moves@, mr.mv);
                        let u = choose|u: int| 0 <= u < moves@.len() && moves@[u] == mr.mv;
                        assert(cap_ok(v0, all_moves_spec(v0)[u]));
                        assert(cap_live(v0.transition_view(mr.mv)));
                    }
                }
                let sr = Self::quiescense(&mr.board, a, b, deadline, keys);
                let s = sr.0;
                if sr.1 {
                    timed = true;
                }
                proof {
                    if live && !timed {
                        assert(cap_ok(v0, omvs[k]));
                        let qc = quiesce_value(v0.transition_view(omvs[k]));
                        let q_old = best_cap_of(v0, omvs, k);
                        assert(best_cap_of(v0, omvs, k + 1) == (if q_old >= qc {
                            q_old
                        } else {
                            qc
                        }));
                    }
                }
                if s > value {
                    value = s;
                }
                if value > a {
                    a = value;
                }
                if a >= b {
                    cut = true;
                }
                proof {
                    k = k + 1;
                }
            }
            proof {
                if live && !timed {
                    let bc = best_cap_of(v0, all_moves_spec(v0), all_moves_spec(v0).len() as int);
                    if !cut {
                        assert(k == rem0.len());
                        assert forall|m: Move| cap_ok(v0, m) implies #[trigger]
                        crate::move_order::move_count(omvs, m) == crate::move_order::move_count(
                            moves@,
                            m,
                        ) by {}
                        lemma_cap_permutation(v0, omvs, moves@);
                        assert(best_cap_of(v0, omvs, k) == bc);
                    } else {
                        lemma_cap_prefix_agree(v0, omvs, omvs.take(k), k);
                        assert(omvs.take(k).len() == k);
                        assert forall|m: Move| cap_ok(v0, m) implies #[trigger]
                        crate::move_order::move_count(omvs.take(k), m)
                            <= crate::move_order::move_count(moves@, m) by {
                            crate::minimax::lemma_move_count_take(omvs, k, m);
                        }
                        lemma_cap_submultiset(v0, omvs.take(k), moves@);
                        assert(best_cap_of(v0, omvs, k) <= bc);
                    }
                    assert(quiesce_value(v0) == (if cur_g >= bc {
                        cur_g
                    } else {
                        bc
                    }));
                    let rr = a as int;
                    if alpha < rr < beta {
                        assert(!cut);
                        assert(aa < bb);
                        if value as int > aa {
                            assert(rr == value as int);
                            assert(value as int == bc);
                            assert(quiesce_value(v0) == rr);
                        } else {
                            assert(rr == aa);
                            assert(aa == cur_g);
                            assert(bc <= value as int);
                            assert(quiesce_value(v0) == rr);
                        }
                    }
                    if rr <= alpha && rr < beta {
                        assert(!cut);
                        assert(rr == alpha && aa == alpha as int);
                        assert(cur_g <= alpha as int);
                        assert(bc <= value as int);
                        assert(quiesce_value(v0) <= rr);
                    }
                    if rr >= beta && rr > alpha {
                        if value as int > aa {
                            assert(rr == value as int);
                            assert(best_cap_of(v0, omvs, k) >= value as int);
                            assert(bc >= rr);
                            assert(quiesce_value(v0) >= rr);
                        } else {
                            assert(rr == aa);
                            assert(aa == alpha as int);
                            assert(false);
                        }
                    }
                }
            }
            (a, timed)
        } else {
            let ghost aa = alpha as int;
            let ghost bb = b as int;
            let mut value: i64 = SCORE_INF;
            while rem.len() > 0 && !cut
                invariant
                    board.wf_with(*keys),
                    v0 == board.inner.inner@,
                    v0.current == Color::Black,
                    v0.wf(),
                    live == (cap_live(v0) && alpha <= beta),
                    !no_captures(v0),
                    moves@ == all_moves_spec(v0),
                    forall|m: Move|
                        #[trigger] crate::move_order::move_count(caps_view, m) == (
                        if m.extra.is_capturing_spec() {
                            crate::move_order::move_count(moves@, m)
                        } else {
                            0
                        }),
                    forall|m: Move|
                        #[trigger] crate::move_order::move_count(omvs, m)
                            == crate::move_order::move_count(caps_view, m),
                    omvs == crate::minimax::mvs_of(rem0),
                    0 <= k <= rem0.len(),
                    rem@.len() == rem0.len() - k,
                    forall|j: int| 0 <= j < rem@.len() ==> #[trigger] rem@[j] == rem0[k + j],
                    forall|j: int|
                        0 <= j < rem0.len() ==> entry_ok(v0, *keys, caps_view, #[trigger] rem0[j]),
                    forall|j: int|
                        0 <= j < caps_view.len() ==> legal_ok(v0, #[trigger] caps_view[j])
                            && caps_view[j].extra.is_capturing_spec(),
                    -SCORE_INF - 1 <= alpha <= SCORE_INF + 1,
                    -SCORE_INF - 1 <= beta <= SCORE_INF + 1,
                    aa == alpha as int,
                    bb == (if beta as int <= cur_g {
                        beta as int
                    } else {
                        cur_g
                    }),
                    cur_g == heuristic_spec(v0.squares),
                    -1283200 <= cur_g <= 1283200,
                    cur_g >= aa,
                    -SCORE_INF - 1 <= value <= SCORE_INF,
                    b as int == (if (value as int) < bb {
                        value as int
                    } else {
                        bb
                    }),
                    a == alpha,
                    alpha <= beta ==> (!cut ==> b >= a),
                    alpha <= beta ==> (!cut ==> (aa < bb ==> b > a)),
                    cut ==> b as int <= aa,
                    live && !timed ==> (aa < bb ==> (value as int >= bb ==> best_cap_of(v0, omvs, k)
                        >= value as int)),
                    live && !timed ==> (aa < value < bb ==> value as int == best_cap_of(v0, omvs, k)),
                    live && !timed ==> (aa < bb && value as int <= aa ==> best_cap_of(v0, omvs, k)
                        <= value as int),
                    live && !timed ==> ((value as int) < aa ==> best_cap_of(v0, omvs, k) <= value as int),
                decreases rem@.len(),
            {
                let ghost old_rem = rem@;
                let mr = rem.remove(0);
                proof {
                    assert forall|j: int| 0 <= j < rem@.len() implies #[trigger] rem@[j] == rem0[k
                        + 1 + j] by {
                        assert(rem@[j] == old_rem[j + 1]);
                    }
                    assert(mr == rem0[k]);
                    assert(entry_ok(v0, *keys, caps_view, rem0[k]));
                    reveal(plays);
                    assert(mr.mv == omvs[k]);
                    let t = choose|t: int| 0 <= t < caps_view.len() && mr.mv == caps_view[t];
                    lemma_capture_reduces_occupied(v0, mr.mv);
                    lemma_occupied_nonneg(mr.board.inner.inner@.squares);
                    if live && !timed {
                        crate::minimax::lemma_move_count_at_index(caps_view, t);
                        assert(crate::move_order::move_count(moves@, mr.mv) > 0);
                        crate::minimax::lemma_move_count_exists(moves@, mr.mv);
                        let u = choose|u: int| 0 <= u < moves@.len() && moves@[u] == mr.mv;
                        assert(cap_ok(v0, all_moves_spec(v0)[u]));
                        assert(cap_live(v0.transition_view(mr.mv)));
                    }
                }
                let sr = Self::quiescense(&mr.board, a, b, deadline, keys);
                let s = sr.0;
                if sr.1 {
                    timed = true;
                }
                proof {
                    if live && !timed {
                        assert(cap_ok(v0, omvs[k]));
                        let qc = quiesce_value(v0.transition_view(omvs[k]));
                        let q_old = best_cap_of(v0, omvs, k);
                        assert(best_cap_of(v0, omvs, k + 1) == (if q_old <= qc {
                            q_old
                        } else {
                            qc
                        }));
                    }
                }
                if s < value {
                    value = s;
                }
                if value < b {
                    b = value;
                }
                if b <= a {
                    cut = true;
                }
                proof {
                    k = k + 1;
                }
            }
            proof {
                if live && !timed {
                    let bc = best_cap_of(v0, all_moves_spec(v0), all_moves_spec(v0).len() as int);
                    if !cut {
                        assert(k == rem0.len());
                        assert forall|m: Move| cap_ok(v0, m) implies #[trigger]
                        crate::move_order::move_count(omvs, m) == crate::move_order::move_count(
                            moves@,
                            m,
                        ) by {}
                        lemma_cap_permutation(v0, omvs, moves@);
                        assert(best_cap_of(v0, omvs, k) == bc);
                    } else {
                        lemma_cap_prefix_agree(v0, omvs, omvs.take(k), k);
                        assert(omvs.take(k).len() == k);
                        assert forall|m: Move| cap_ok(v0, m) implies #[trigger]
                        crate::move_order::move_count(omvs.take(k), m)
                            <= crate::move_order::move_count(moves@, m) by {
                            crate::minimax::lemma_move_count_take(omvs, k, m);
                        }
                        lemma_cap_submultiset(v0, omvs.take(k), moves@);
                        assert(best_cap_of(v0, omvs, k) >= bc);
                    }
                    assert(quiesce_value(v0) == (if cur_g <= bc {
                        cur_g
                    } else {
                        bc
                    }));
                    let rr = b as int;
                    if alpha < rr < beta {
                        assert(!cut);
                        assert(aa < bb);
                        if (value as int) < bb {
                            assert(rr == value as int);
                            assert(value as int == bc);
                            assert(quiesce_value(v0) == rr);
                        } else {
                            assert(rr == bb);
                            assert(bb == cur_g);
                            assert(bc >= value as int);
                            assert(quiesce_value(v0) == rr);
                        }
                    }
                    if rr >= beta && rr > alpha {
                        assert(!cut);
                        assert(rr == beta as int && bb == beta as int);
                        assert(cur_g >= beta as int);
                        assert(bc >= value as int);
                        assert(quiesce_value(v0) >= rr);
                    }
                    if rr <= alpha && rr < beta {
                        if (value as int) < bb {
                            assert(rr == value as int);
                            assert(best_cap_of(v0, omvs, k) <= value as int);
                            assert(bc <= rr);
                            assert(quiesce_value(v0) <= rr);
                        } else {
                            assert(rr == bb);
                            assert(bb == cur_g || bb == beta as int);
                            if bb == beta as int && cur_g > beta as int {
                                assert(false);
                            }
                            assert(cur_g <= rr);
                            assert(quiesce_value(v0) <= rr);
                        }
                    }
                }
            }
            (b, timed)
        }
    }

    /// Deadline-checked alpha-beta to the given depth, descending into
    /// the quiescence extension at the horizon. The flag reports a
    /// deadline cutoff here or below. A result whose flag is false
    /// answers an interior decided position with its sentinel, a horizon
    /// position as the capture-only extension does, and — wherever every
    /// horizon position reachable within the depth is alive for the
    /// capture extension — is fail-soft sound against the depth-limited
    /// value `qsearch_value`: inside the window it equals it exactly, at
    /// or below alpha it is an upper bound on it, at or above beta a
    /// lower bound.
    #[verifier::rlimit(100)]
    pub fn mini_max_ab(board: &ZobristBoard, depth: u64, alpha: i64, beta: i64, deadline: u64, keys: &ZobristKeys) -> (r: (i64, bool))
        requires
            board.wf_with(*keys),
            -SCORE_INF - 1 <= alpha < beta <= SCORE_INF + 1,
        ensures
            -SCORE_INF - 1 <= r.0 <= SCORE_INF + 1,
            (!r.1 && depth >= 1 && all_moves_spec(board.inner.inner@).len() == 0) ==> r.0 as int
                == terminal_score_spec(terminal_winner(board.inner.inner@)),
            (!r.1 && depth == 0 && board.inner.inner@.current == Color::White && all_moves_spec(
                board.inner.inner@,
            ).len() == 0) ==> r.0 as int == (if heuristic_spec(board.inner.inner@.squares)
                >= beta {
                beta as int
            } else {
                terminal_score_spec(terminal_winner(board.inner.inner@))
            }),
            (!r.1 && depth == 0 && board.inner.inner@.current == Color::Black && all_moves_spec(
                board.inner.inner@,
            ).len() == 0) ==> r.0 as int == (if heuristic_spec(board.inner.inner@.squares)
                < alpha {
                alpha as int
            } else {
                terminal_score_spec(terminal_winner(board.inner.inner@))
            }),
            (!r.1 && depth == 0 && board.inner.inner@.current == Color::White && all_moves_spec(
                board.inner.inner@,
            ).len() > 0 && no_captures(board.inner.inner@)) ==> r.0 as int == (if heuristic_spec(
                board.inner.inner@.squares,
            ) >= beta {
                beta as int
            } else {
                heuristic_spec(board.inner.inner@.squares)
            }),
            (!r.1 && depth == 0 && board.inner.inner@.current == Color::Black && all_moves_spec(
                board.inner.inner@,
            ).len() > 0 && no_captures(board.inner.inner@)) ==> r.0 as int == (if heuristic_spec(
                board.inner.inner@.squares,
            ) < alpha {
                alpha as int
            } else {
                heuristic_spec(board.inner.inner@.squares)
            }),
            !r.1 && qsearch_live(board.inner.inner@, depth as nat) ==> (alpha < r.0 < beta ==> r.0 as int
                == qsearch_value(board.inner.inner@, depth as nat)),
            !r.1 && qsearch_live(board.inner.inner@, depth as nat) ==> (r.0 <= alpha ==> qsearch_value(
                board.inner.inner@,
                depth as nat,
            ) <= r.0 as int),
            !r.1 && qsearch_live(board.inner.inner@, depth as nat) ==> (r.0 >= beta ==> qsearch_value(
                board.inner.inner@,
                depth as nat,
            ) >= r.0 as int),
        decreases depth,
    {
        if now_millis() > deadline {
            return (0, true);
        }
        let ghost v0 = board.inner.inner@;
        let ghost d = depth as nat;
        if depth == 0 {
            return Self::quiescense(board, alpha, beta, deadline, keys);
        }
        let terminal = board.is_terminal();
        match terminal {
            Some(c) => { return (terminal_score(c), false); },
            None => {},
        }
        let moves = board.all_moves();
        let white = board.current_player() == Color::White;
        let mut rem = order_moves(moves, board, keys);
        let ghost rem0 = rem@;
        let ghost omvs = crate::minimax::mvs_of(rem0);
        let ghost live = qsearch_live(v0, d);
        proof {
            assert forall|m: Move|
                #[trigger] crate::move_order::move_count(omvs, m)
                == crate::move_order::move_count(moves@, m) by {
                crate::minimax::lemma_mvs_of_counts(rem0, m);
            }
        }
        let mut a = alpha;
        let mut b = beta;
        let mut value: i64 = if white {
            -SCORE_INF
        } else {
            SCORE_INF
        };
        if white {
            if value > a {
                a = value;
            }
        } else {
            if value < b {
                b = value;
            }
        }
        let mut cut = a >= b;
        let mut timed = false;
        let ghost mut k: int = 0;
        while rem.len() > 0 && !cut
            invariant
                board.wf_with(*keys),
                v0 == board.inner.inner@,
                depth >= 1,
                d == depth as nat,
                live == qsearch_live(v0, d),
                white == (v0.current == Color::White),
                moves@ == all_moves_spec(v0),
                moves@.len() > 0,
                rem0.len() == moves@.len(),
                omvs == crate::minimax::mvs_of(rem0),
                forall|m: Move|
                    #[trigger] crate::move_order::move_count(omvs, m)
                        == crate::move_order::move_count(moves@, m),
                0 <= k <= rem0.len(),
                rem@.len() == rem0.len() - k,
                forall|j: int| 0 <= j < rem@.len() ==> #[trigger] rem@[j] == rem0[k + j],
                forall|j: int|
                    0 <= j < rem0.len() ==> entry_ok(v0, *keys, moves@, #[trigger] rem0[j]),
                -SCORE_INF - 1 <= alpha < beta <= SCORE_INF + 1,
                -SCORE_INF - 1 <= value <= SCORE_INF + 1,
                white ==> a == (if value > alpha {
                    value
                } else {
                    alpha
                }),
                white ==> b == beta,
                !white ==> b == (if value < beta {
                    value
                } else {
                    beta
                }),
                !white ==> a == alpha,
                live && !timed ==> (white ==> (value <= alpha ==> best_q_of(v0, omvs, k, d) <= value)),
                live && !timed ==> (!white ==> (value >= beta ==> best_q_of(v0, omvs, k, d) >= value)),
                live && !timed ==> ((alpha < value < beta) ==> value == best_q_of(v0, omvs, k, d)),
                live && !timed ==> (white ==> (value >= beta ==> best_q_of(v0, omvs, k, d) >= value)),
                live && !timed ==> (!white ==> (value <= alpha ==> best_q_of(v0, omvs, k, d) <= value)),
                !cut ==> a < b,
                cut ==> (white && value >= beta) || (!white && value <= alpha),
            decreases rem@.len(),
        {
            let ghost old_rem = rem@;
            let mr = rem.remove(0);
            proof {
                assert forall|j: int| 0 <= j < rem@.len() implies #[trigger] rem@[j] == rem0[k + 1
                    + j] by {
                    assert(rem@[j] == old_rem[j + 1]);
                }
                assert(mr == rem0[k]);
                assert(entry_ok(v0, *keys, moves@, rem0[k]));
                reveal(plays);
                assert(mr.mv == omvs[k]);
                if live {
                    let u = choose|u: int| 0 <= u < moves@.len() && mr.mv == moves@[u];
                    assert(qsearch_live(
                        v0.transition_view(all_moves_spec(v0)[u]),
                        (d - 1) as nat,
                    ));
                    assert(qsearch_live(mr.board.inner.inner@, (d - 1) as nat));
                }
            }
            let sr = Self::mini_max_ab(&mr.board, depth - 1, a, b, deadline, keys);
            let s = sr.0;
            if sr.1 {
                timed = true;
            }
            let ghost vc = qsearch_value(v0.transition_view(omvs[k]), (d - 1) as nat);
            if white {
                if s > value {
                    value = s;
                }
                if value > a {
                    a = value;
                }
                if a >= b {
                    cut = true;
                }
            } else {
                if s < value {
                    value = s;
                }
                if value < b {
                    b = value;
                }
                if b <= a {
                    cut = true;
                }
            }
            proof {
                k = k + 1;
            }
        }
        proof {
            if live && !timed {
                if !cut {
                    assert(k == rem0.len());
                    lemma_q_prefix_agree(v0, omvs, omvs, omvs.len() as int, d);
                    lemma_q_permutation(v0, omvs, moves@, d);
                } else {
                    lemma_q_prefix_agree(v0, omvs, omvs.take(k), k, d);
                    assert(omvs.take(k).len() == k);
                    assert forall|m: Move|
                        #[trigger] crate::move_order::move_count(omvs.take(k), m)
                        <= crate::move_order::move_count(moves@, m) by {
                        crate::minimax::lemma_move_count_take(omvs, k, m);
                    }
                    lemma_q_submultiset(v0, omvs.take(k), moves@, d);
                }
                assert(qsearch_value(v0, d) == best_q_of(v0, moves@, moves@.len() as int, d));
            }
        }
        (value, timed)
    }

    /// Iterative deepening under one twentieth of the remaining clock,
    /// with the quiescence extension at every horizon; plays one of the
    /// best moves of the last fully completed depth, or a uniformly
    /// random legal move if not even depth one completed.
    pub fn make_move(&self, board: &DisplayableBoard, keys: &ZobristKeys) -> (r: Option<
        DisplayableBoard,
    >)
        requires
            board.wf_with(*keys),
        ensures
            match r {
                Some(nb) => nb.wf_with(*keys) && (exists|m: Move|
                    crate::movegen::all_moves_spec(board.pos()).contains(m) && legal_ok(
                        board.pos(),
                        m,
                    ) && nb.pos() == board.pos().transition_view(m)),
                None => crate::movegen::all_moves_spec(board.pos()).len() == 0,
            },
    {
        let ghost v0 = board.pos();
        let clock = board.get_clock();
        let remaining_time = if board.current_player() == Color::White {
            clock[0]
        } else {
            clock[1]
        };
        let time_budget = remaining_time / 20;
        let start = now_millis();
        let deadline = if start <= u64::MAX - time_budget {
            start + time_budget
        } else {
            u64::MAX
        };

        let moves = board.all_moves();
        let mut backup_moves: Vec<Move> = Vec::new();
        let mut search_depth: u64 = 0;
        while search_depth < MAX_ID_DEPTH && now_millis() < deadline
            invariant
                board.wf_with(*keys),
                v0 == board.pos(),
                search_depth <= MAX_ID_DEPTH,
                forall|j: int|
                    0 <= j < moves@.len() ==> legal_ok(v0, #[trigger] moves@[j]),
                forall|j: int|
                    0 <= j < backup_moves@.len() ==> legal_ok(v0, #[trigger] backup_moves@[j]),
                forall|j: int|
                    0 <= j < backup_moves@.len() ==> crate::move_order::move_count(
                        moves@,
                        #[trigger] backup_moves@[j],
                    ) > 0,
            decreases MAX_ID_DEPTH - search_depth,
        {
            search_depth = search_depth + 1;
            let white = board.current_player() == Color::White;
            let mut again: Vec<Move> = Vec::new();
            let mut i: usize = 0;
            while i < moves.len()
                invariant
                    i <= moves.len(),
                    again@ =~= moves@.take(i as int),
                decreases moves.len() - i,
            {
                again.push(moves[i]);
                assert(moves@.take(i + 1) =~= moves@.take(i as int).push(moves@[i as int]));
                i += 1;
            }
            assert(moves@.take(moves@.len() as int) =~= moves@);
            let mut rem = order_moves(again, &board.inner, keys);
            let mut best_moves: Vec<Move> = Vec::new();
            let mut best: i64 = if white {
                -SCORE_INF - 2
            } else {
                SCORE_INF + 2
            };
            while rem.len() > 0
                invariant
                    board.wf_with(*keys),
                    v0 == board.pos(),
                    forall|j: int|
                        0 <= j < rem@.len() ==> plays(v0, *keys, #[trigger] rem@[j]) && (exists|
                            t: int,
                        |
                            0 <= t < moves@.len() && rem@[j].mv == moves@[t]),
                    forall|j: int|
                        0 <= j < moves@.len() ==> legal_ok(v0, #[trigger] moves@[j]),
                    forall|j: int|
                        0 <= j < best_moves@.len() ==> legal_ok(v0, #[trigger] best_moves@[j]),
                    forall|j: int|
                        0 <= j < best_moves@.len() ==> crate::move_order::move_count(
                            moves@,
                            #[trigger] best_moves@[j],
                        ) > 0,
                decreases rem@.len(),
            {
                let ghost old_rem = rem@;
                let mr = rem.remove(0);
                proof {
                    assert forall|j: int| 0 <= j < rem@.len() implies plays(
                        v0,
                        *keys,
                        #[trigger] rem@[j],
                    ) && (exists|t: int| 0 <= t < moves@.len() && rem@[j].mv == moves@[t]) by {
                        assert(rem@[j] == old_rem[j + 1]);
                    }
                    reveal(plays);
                    let t0 = choose|t: int| 0 <= t < moves@.len() && mr.mv == moves@[t];
                    crate::minimax::lemma_move_count_at_index(moves@, t0);
                    assert(crate::move_order::move_count(moves@, mr.mv) > 0);
                }
                let score = Self::mini_max_ab(
                    &mr.board,
                    search_depth,
                    -SCORE_INF - 1,
                    SCORE_INF + 1,
                    deadline,
                    keys,
                ).0;
                if white {
                    if score > best {
                        best = score;
                        best_moves = Vec::new();
                        best_moves.push(mr.mv);
                    } else if score == best {
                        best_moves.push(mr.mv);
                    }
                } else {
                    if score < best {
                        best = score;
                        best_moves = Vec::new();
                        best_moves.push(mr.mv);
                    } else if score == best {
                        best_moves.push(mr.mv);
                    }
                }
            }
            if now_millis() < deadline {
                let ghost bm = best_moves@;
                backup_moves = best_moves;
                proof {
                    assert forall|j: int|
                        0 <= j < backup_moves@.len() implies crate::move_order::move_count(
                        moves@,
                        #[trigger] backup_moves@[j],
                    ) > 0 by {
                        assert(crate::move_order::move_count(moves@, bm[j]) > 0);
                    }
                }
            }
        }

        let m: Move;
        if backup_moves.len() > 0 {
            let k = pick_index(backup_moves.len());
            m = backup_moves[k];
            proof {
                assert(crate::move_order::move_count(moves@, backup_moves@[k as int]) > 0);
                crate::minimax::lemma_move_count_exists(moves@, m);
                let t = choose|t: int| 0 <= t < moves@.len() && moves@[t] == m;
                assert(crate::movegen::all_moves_spec(v0)[t] == m);
                assert(crate::movegen::all_moves_spec(v0).contains(m));
            }
        } else if moves.len() > 0 {
            let k = pick_index(moves.len());
            m = moves[k];
            proof {
                assert(crate::movegen::all_moves_spec(v0)[k as int] == m);
                assert(crate::movegen::all_moves_spec(v0).contains(m));
            }
        } else {
            return None;
        }
        let nb = board.transition(m, keys);
        Some(nb)
    }
}

} // verus!
