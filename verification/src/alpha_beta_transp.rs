//! Alpha-beta search with a transposition table: search results are cached
//! under the position fingerprint with the depth they were computed at and
//! a bound classification, and reused to answer or tighten later visits.
//!
//! Because two positions can share a 64-bit fingerprint, the search result
//! cannot unconditionally equal plain minimax. The contract makes the
//! dependence explicit: the table carries a ghost record of the position
//! each slot's entry was computed for, every cleanly computed entry
//! provably bounds the minimax value of its recorded position at its
//! stored depth, and a search whose probes all hit entries recorded for
//! the probed position itself (at the probing depth) returns fail-soft
//! bounds on the true minimax value, exactly as the plain alpha-beta
//! searcher does.

use vstd::prelude::*;
use crate::color::Color;
use crate::chess_move::Move;
use crate::basic::BoardView;
use crate::minimax::{
    minimax_value, best_of_spec, mvs_of, lemma_mvs_of_counts, lemma_best_of_permutation,
    lemma_best_of_prefix_agree, lemma_best_of_submultiset, lemma_move_count_take,
};
use crate::movegen::{legal_ok, all_moves_spec};
use crate::move_order::{order_moves, plays, entry_ok, move_count};
use crate::pst::lemma_heuristic_bound;
use crate::rng::pick_index;
use crate::score::{SCORE_INF, score_in_range, terminal_score};
use crate::transposition_table::TranspositionTable;
use crate::zobrist::{ZobristBoard, ZobristKeys};
use crate::display::DisplayableBoard;

verus! {

/// Whether a cached value is exact, or only bounds the true value because
/// pruning cut the node short.
#[derive(Clone, Copy, Eq, PartialEq, Debug, Structural)]
pub enum EntryType {
    Exact,
    Lower,
    Upper,
}

/// A cached search result: the depth it was computed at, the value, and
/// its bound classification.
#[derive(Clone, Copy, Eq, PartialEq, Debug, Structural)]
pub struct Entry {
    pub depth: u64,
    pub value: i64,
    pub tp: EntryType,
}

/// What a cached entry claims of the position it was computed for: an
/// exact entry is the minimax value of that position at the stored depth,
/// a lower entry is at most it, an upper entry at least it.
pub open spec fn entry_sound(e: Entry, v: BoardView) -> bool {
    match e.tp {
        EntryType::Exact => e.value as int == minimax_value(v, e.depth as nat),
        EntryType::Lower => minimax_value(v, e.depth as nat) >= e.value as int,
        EntryType::Upper => minimax_value(v, e.depth as nat) <= e.value as int,
    }
}

pub struct AlphaBetaTransp {
    pub search_depth: u64,
    pub transposition_table: TranspositionTable<Entry>,
    /// For each occupied slot: the position its entry was computed for,
    /// and whether that computation was clean — every probe it consumed
    /// hit an entry recorded for the probed position at the probing depth.
    pub meta: Ghost<Map<int, (BoardView, bool)>>,
}

impl AlphaBetaTransp {
    /// Every cached value stays within the mate sentinels, and every
    /// cleanly computed entry soundly bounds the minimax value of the
    /// position it was recorded for, at its stored depth.
    pub open spec fn wf(self) -> bool {
        &&& self.transposition_table.wf()
        &&& forall|h: u64|
            (#[trigger] self.transposition_table.lookup(h)) matches Some(e) ==> {
                &&& score_in_range(e.value as int)
                &&& self.meta@.contains_key(self.transposition_table.slot_of(h))
                &&& (self.meta@[self.transposition_table.slot_of(h)].1 ==> entry_sound(
                    e,
                    self.meta@[self.transposition_table.slot_of(h)].0,
                ))
            }
    }

    /// A fresh searcher with an empty table. The table lives for this
    /// searcher's lifetime: it persists across `make_move` calls and is
    /// discarded with the searcher.
    pub fn new(search_depth: u64, transposition_size: u64) -> (r: AlphaBetaTransp)
        requires
            1 <= transposition_size <= 0x1000_0000,
        ensures
            r.wf(),
            r.search_depth == search_depth,
    {
        AlphaBetaTransp {
            search_depth,
            transposition_table: TranspositionTable::new(transposition_size),
            meta: Ghost(Map::empty()),
        }
    }

    /// Caches a value under a fingerprint, classified against the node's
    /// original window: a value at or below alpha is only an upper bound
    /// on the true value (the search failed low), one at or above beta
    /// only a lower bound (the cutoff fired), and anything strictly
    /// inside the window is exact. The ghost record keeps the position
    /// the value was computed for; a clean store must hand in fail-soft
    /// bounds on that position's minimax value.
    fn store(
        &mut self,
        hash: u64,
        depth: u64,
        value: i64,
        alpha: i64,
        beta: i64,
        Ghost(pos): Ghost<BoardView>,
        Ghost(clean): Ghost<bool>,
    )
        requires
            old(self).wf(),
            score_in_range(value as int),
            clean ==> (alpha < value < beta ==> value as int == minimax_value(
                pos,
                depth as nat,
            )),
            clean ==> (value <= alpha ==> minimax_value(pos, depth as nat) <= value as int),
            clean ==> (value >= beta ==> minimax_value(pos, depth as nat) >= value as int),
        ensures
            final(self).wf(),
            final(self).search_depth == old(self).search_depth,
    {
        let tp = if value <= alpha {
            EntryType::Upper
        } else if value >= beta {
            EntryType::Lower
        } else {
            EntryType::Exact
        };
        let ghost slot = self.transposition_table.slot_of(hash);
        self.transposition_table.insert(hash, Entry { depth, value, tp });
        proof {
            self.meta@ = self.meta@.insert(slot, (pos, clean));
            assert forall|h: u64|
                (#[trigger] self.transposition_table.lookup(h)) is Some implies {
                let e = self.transposition_table.lookup(h)->Some_0;
                &&& score_in_range(e.value as int)
                &&& self.meta@.contains_key(self.transposition_table.slot_of(h))
                &&& (self.meta@[self.transposition_table.slot_of(h)].1 ==> entry_sound(
                    e,
                    self.meta@[self.transposition_table.slot_of(h)].0,
                ))
            } by {
                let e = self.transposition_table.lookup(h)->Some_0;
                if self.transposition_table.slot_of(h) == slot {
                    assert(h == hash);
                    assert(e == Entry { depth, value, tp });
                } else {
                    assert(self.transposition_table.lookup(h) == old(
                        self,
                    ).transposition_table.lookup(h));
                    assert(self.meta@[self.transposition_table.slot_of(h)] == old(
                        self,
                    ).meta@[old(self).transposition_table.slot_of(h)]);
                }
            }
        }
    }

    /// Alpha-beta with the transposition table: a cached entry of
    /// sufficient depth answers an exact probe outright or tightens the
    /// window; the computed value is cached on the way out. The ghost
    /// flag reports a clean search: every probe consumed, here and in
    /// every recursive call, hit an entry recorded for the probed
    /// position at the probing depth. A clean result carries the same
    /// fail-soft guarantee as the plain alpha-beta searcher: inside the
    /// window it is exactly the minimax value, at or below alpha an upper
    /// bound on it, at or above beta a lower bound.
    #[verifier::rlimit(100)]
    pub fn mini_max_ab(&mut self, board: &ZobristBoard, depth: u64, alpha: i64, beta: i64, keys: &ZobristKeys) -> (r: (i64, Ghost<bool>))
        requires
            old(self).wf(),
            board.wf_with(*keys),
            -SCORE_INF - 1 <= alpha < beta <= SCORE_INF + 1,
        ensures
            final(self).wf(),
            final(self).search_depth == old(self).search_depth,
            score_in_range(r.0 as int),
            r.1@ ==> (alpha < r.0 < beta ==> r.0 as int == minimax_value(
                board.inner.inner@,
                depth as nat,
            )),
            r.1@ ==> (r.0 <= alpha ==> minimax_value(board.inner.inner@, depth as nat) <= r.0 as int),
            r.1@ ==> (r.0 >= beta ==> minimax_value(board.inner.inner@, depth as nat) >= r.0 as int),
        decreases depth,
    {
        let ghost v0 = board.inner.inner@;
        let ghost d = depth as nat;
        let board_hash = board.hash();
        let mut a = alpha;
        let mut b = beta;
        let ghost mut ok: bool = true;

        match self.transposition_table.get(board_hash) {
            Some(entry) => {
                if entry.depth >= depth {
                    let ghost slot = self.transposition_table.slot_of(board_hash);
                    proof {
                        ok = self.meta@[slot].1 && self.meta@[slot].0 == v0 && entry.depth
                            == depth;
                    }
                    match entry.tp {
                        EntryType::Exact => {
                            return (entry.value, Ghost(ok));
                        },
                        EntryType::Lower => {
                            if entry.value > a {
                                a = entry.value;
                            }
                        },
                        EntryType::Upper => {
                            if entry.value < b {
                                b = entry.value;
                            }
                        },
                    }
                    if a >= b {
                        proof {
                            if ok {
                                assert(entry_sound(entry, v0));
                            }
                        }
                        return (entry.value, Ghost(ok));
                    }
                }
            },
            None => {},
        }
        let ghost a0 = a as int;
        let ghost b0 = b as int;
        proof {
            if ok {
                assert(a0 > alpha ==> minimax_value(v0, d) >= a0);
                assert(b0 < beta ==> minimax_value(v0, d) <= b0);
            }
        }

        let terminal = board.is_terminal();
        if depth == 0 || terminal.is_some() {
            let value = match terminal {
                Some(c) => terminal_score(c),
                None => {
                    proof {
                        lemma_heuristic_bound(board.inner.inner@.squares);
                    }
                    board.heuristic() as i64
                },
            };
            proof {
                assert(value as int == minimax_value(v0, d));
            }
            self.store(board_hash, depth, value, alpha, beta, Ghost(v0), Ghost(true));
            return (value, Ghost(ok));
        }

        let moves = board.all_moves();
        let white = board.current_player() == Color::White;
        let mut rem = order_moves(moves, board, keys);
        let ghost rem0 = rem@;
        let ghost omvs = mvs_of(rem0);
        proof {
            assert forall|m: Move| #[trigger] move_count(omvs, m) == move_count(moves@, m) by {
                lemma_mvs_of_counts(rem0, m);
            }
        }
        let mut value: i64 = if white {
            -SCORE_INF
        } else {
            SCORE_INF
        };
        if white {
            if value > a {
                a = value;
            }
        } else {
            if value < b {
                b = value;
            }
        }
        let mut cut = a >= b;
        let ghost mut i: int = 0;
        while rem.len() > 0 && !cut
            invariant
                self.wf(),
                self.search_depth == old(self).search_depth,
                board.wf_with(*keys),
                v0 == board.inner.inner@,
                depth >= 1,
                d == depth as nat,
                white == (v0.current == Color::White),
                moves@ == all_moves_spec(v0),
                moves@.len() > 0,
                rem0.len() == moves@.len(),
                omvs == mvs_of(rem0),
                forall|m: Move| #[trigger] move_count(omvs, m) == move_count(moves@, m),
                0 <= i <= rem0.len(),
                rem@.len() == rem0.len() - i,
                forall|j: int| 0 <= j < rem@.len() ==> #[trigger] rem@[j] == rem0[i + j],
                forall|j: int|
                    0 <= j < rem0.len() ==> entry_ok(v0, *keys, moves@, #[trigger] rem0[j]),
                -SCORE_INF - 1 <= alpha < beta <= SCORE_INF + 1,
                alpha <= a0 < b0 <= beta,
                ok ==> (a0 > alpha ==> minimax_value(v0, d) >= a0),
                ok ==> (b0 < beta ==> minimax_value(v0, d) <= b0),
                score_in_range(value as int),
                white ==> a == (if value > a0 {
                    value as int
                } else {
                    a0
                }),
                white ==> b == b0,
                !white ==> b == (if value < b0 {
                    value as int
                } else {
                    b0
                }),
                !white ==> a == a0,
                ok ==> (white ==> (value <= a0 ==> best_of_spec(v0, omvs, i, d) <= value)),
                ok ==> (!white ==> (value >= b0 ==> best_of_spec(v0, omvs, i, d) >= value)),
                ok ==> ((a0 < value < b0) ==> value == best_of_spec(v0, omvs, i, d)),
                ok ==> (white ==> (value >= b0 ==> best_of_spec(v0, omvs, i, d) >= value)),
                ok ==> (!white ==> (value <= a0 ==> best_of_spec(v0, omvs, i, d) <= value)),
                !cut ==> a < b,
                cut ==> (white && value >= b0) || (!white && value <= a0),
            decreases rem@.len(),
        {
            let ghost old_rem = rem@;
            let mr = rem.remove(0);
            proof {
                assert forall|j: int| 0 <= j < rem@.len() implies #[trigger] rem@[j] == rem0[i + 1
                    + j] by {
                    assert(rem@[j] == old_rem[j + 1]);
                }
                assert(mr == rem0[i]);
                assert(entry_ok(v0, *keys, moves@, rem0[i]));
                reveal(plays);
                assert(mr.mv == omvs[i]);
            }
            let sr = self.mini_max_ab(&mr.board, depth - 1, a, b, keys);
            let s = sr.0;
            proof {
                ok = ok && sr.1@;
            }
            let ghost vc = minimax_value(v0.transition_view(omvs[i]), (d - 1) as nat);
            if white {
                if s > value {
                    value = s;
                }
                if value > a {
                    a = value;
                }
                if a >= b {
                    cut = true;
                }
            } else {
                if s < value {
                    value = s;
                }
                if value < b {
                    b = value;
                }
                if b <= a {
                    cut = true;
                }
            }
            proof {
                i = i + 1;
            }
        }
        proof {
            if ok {
                if !cut {
                    assert(i == rem0.len());
                    lemma_best_of_prefix_agree(v0, omvs, omvs, omvs.len() as int, d);
                    lemma_best_of_permutation(v0, omvs, moves@, d);
                } else {
                    lemma_best_of_prefix_agree(v0, omvs, omvs.take(i), i, d);
                    assert(omvs.take(i).len() == i);
                    assert forall|m: Move|
                        #[trigger] move_count(omvs.take(i), m) <= move_count(moves@, m) by {
                        lemma_move_count_take(omvs, i, m);
                    }
                    lemma_best_of_submultiset(v0, omvs.take(i), moves@, d);
                }
                assert(minimax_value(v0, d) == best_of_spec(
                    v0,
                    moves@,
                    moves@.len() as int,
                    d,
                ));
                assert(value <= a0 ==> minimax_value(v0, d) <= value);
                assert(a0 < value < b0 ==> value as int == minimax_value(v0, d));
                assert(value >= b0 ==> minimax_value(v0, d) >= value);
                assert(alpha < value < beta ==> value as int == minimax_value(v0, d));
                assert(value <= alpha ==> minimax_value(v0, d) <= value);
                assert(value >= beta ==> minimax_value(v0, d) >= value);
            }
        }
        self.store(board_hash, depth, value, alpha, beta, Ghost(v0), Ghost(ok));
        (value, Ghost(ok))
    }

    /// Searches every legal move with the full window, reusing the table
    /// across the whole call, and plays one of the best-scoring moves,
    /// chosen uniformly at random among ties.
    pub fn make_move(&mut self, board: &DisplayableBoard, keys: &ZobristKeys) -> (r: Option<
        DisplayableBoard,
    >)
        requires
            old(self).wf(),
            board.wf_with(*keys),
        ensures
            final(self).wf(),
            match r {
                Some(nb) => nb.wf_with(*keys) && (exists|m: Move|
                    crate::movegen::all_moves_spec(board.pos()).contains(m) && legal_ok(
                        board.pos(),
                        m,
                    ) && nb.pos() == board.pos().transition_view(m)),
                None => crate::movegen::all_moves_spec(board.pos()).len() == 0,
            },
    {
        let ghost v0 = board.pos();
        let moves = board.all_moves();
        let white = board.current_player() == Color::White;
        let mut rem = order_moves(moves, &board.inner, keys);
        let mut best_moves: Vec<Move> = Vec::new();
        let mut best: i64 = if white {
            -SCORE_INF - 1
        } else {
            SCORE_INF + 1
        };
        while rem.len() > 0
            invariant
                self.wf(),
                board.wf_with(*keys),
                v0 == board.pos(),
                moves@ == crate::movegen::all_moves_spec(v0),
                best_moves@.len() == 0 ==> rem@.len() == moves@.len(),
                best_moves@.len() == 0 ==> best == (if white {
                    -SCORE_INF - 1
                } else {
                    SCORE_INF + 1
                }),
                white == (v0.current == Color::White),
                forall|j: int|
                    0 <= j < rem@.len() ==> plays(v0, *keys, #[trigger] rem@[j]) && (exists|t: int|
                        0 <= t < moves@.len() && rem@[j].mv == moves@[t]),
                forall|j: int|
                    0 <= j < moves@.len() ==> legal_ok(v0, #[trigger] moves@[j]),
                forall|j: int|
                    0 <= j < best_moves@.len() ==> legal_ok(v0, #[trigger] best_moves@[j]),
                forall|j: int|
                    0 <= j < best_moves@.len() ==> (exists|t: int|
                        0 <= t < moves@.len() && #[trigger] best_moves@[j] == moves@[t]),
            decreases rem@.len(),
        {
            let ghost old_rem = rem@;
            let mr = rem.remove(0);
            proof {
                assert forall|j: int| 0 <= j < rem@.len() implies plays(
                    v0,
                    *keys,
                    #[trigger] rem@[j],
                ) && (exists|t: int| 0 <= t < moves@.len() && rem@[j].mv == moves@[t]) by {
                    assert(rem@[j] == old_rem[j + 1]);
                }
                reveal(plays);
            }
            let sr = self.mini_max_ab(
                &mr.board,
                self.search_depth,
                -SCORE_INF - 1,
                SCORE_INF + 1,
                keys,
            );
            let score = sr.0;
            if white {
                if score > best {
                    best = score;
                    best_moves = Vec::new();
                    best_moves.push(mr.mv);
                } else if score == best {
                    best_moves.push(mr.mv);
                }
            } else {
                if score < best {
                    best = score;
                    best_moves = Vec::new();
                    best_moves.push(mr.mv);
                } else if score == best {
                    best_moves.push(mr.mv);
                }
            }
        }
        if best_moves.len() == 0 {
            return None;
        }
        let k = pick_index(best_moves.len());
        let m = best_moves[k];
        proof {
            let t = choose|t: int| 0 <= t < moves@.len() && best_moves@[k as int] == moves@[t];
            assert(crate::movegen::all_moves_spec(v0)[t] == m);
            assert(crate::movegen::all_moves_spec(v0).contains(m));
        }
        let nb = board.transition(m, keys);
        Some(nb)
    }
}

} // verus!
