//! Move ordering: each candidate move is played out, and the resulting
//! positions are sorted by the side to move's preference (descending
//! heuristic for White, ascending for Black), so the search visits
//! probable-best moves first and prunes more.

use vstd::prelude::*;
use crate::color::Color;
use crate::chess_move::Move;
use crate::basic::BoardView;
use crate::movegen::legal_ok;
use crate::zobrist::{ZobristBoard, ZobristKeys};

verus! {

/// One candidate move together with the position it leads to.
pub struct MoveRes {
    pub board: ZobristBoard,
    pub mv: Move,
}

/// The score ordering prefers `a` before `b` for the given side: White
/// wants descending scores, Black ascending.
pub open spec fn prefers(side: Color, a: int, b: int) -> bool {
    if side == Color::White {
        a >= b
    } else {
        a <= b
    }
}

/// How many entries of an ordered list play the given move.
pub open spec fn mv_count(rs: Seq<MoveRes>, m: Move) -> int
    decreases rs.len(),
{
    if rs.len() == 0 {
        0
    } else {
        mv_count(rs.drop_last(), m) + (if rs.last().mv == m {
            1int
        } else {
            0int
        })
    }
}

/// How many times a move occurs in a move list.
pub open spec fn move_count(ms: Seq<Move>, m: Move) -> int
    decreases ms.len(),
{
    if ms.len() == 0 {
        0
    } else {
        move_count(ms.drop_last(), m) + (if ms.last() == m {
            1int
        } else {
            0int
        })
    }
}

/// Removing one entry removes exactly its move's occurrence.
pub proof fn lemma_mv_count_remove(rs: Seq<MoveRes>, i: int, m: Move)
    requires
        0 <= i < rs.len(),
    ensures
        mv_count(rs.remove(i), m) == mv_count(rs, m) - (if rs[i].mv == m {
            1int
        } else {
            0int
        }),
    decreases rs.len(),
{
    if i == rs.len() - 1 {
        assert(rs.remove(i) =~= rs.drop_last());
    } else {
        lemma_mv_count_remove(rs.drop_last(), i, m);
        assert(rs.remove(i).drop_last() =~= rs.drop_last().remove(i));
        assert(rs.remove(i).last() == rs.last());
    }
}

/// The entry plays its move on the given board, with the fingerprint and
/// score layers intact. Kept opaque so that quantifiers over whole move
/// lists stay cheap; `reveal` it where the content is needed.
#[verifier::opaque]
pub open spec fn plays(v0: BoardView, k: ZobristKeys, mr: MoveRes) -> bool {
    &&& mr.board.wf_with(k)
    &&& mr.board.inner.inner@ == v0.transition_view(mr.mv)
}

/// What the search relies on of an ordered move list: every entry plays
/// one of the given moves on the given board (with the fingerprint and
/// score layers intact), and the entries come sorted by the side to
/// move's preference.
pub open spec fn ordered_ok(
    v0: BoardView,
    k: ZobristKeys,
    moves: Seq<Move>,
    r: Seq<MoveRes>,
) -> bool {
    &&& r.len() == moves.len()
    &&& forall|i: int| 0 <= i < r.len() ==> entry_ok(v0, k, moves, #[trigger] r[i])
    &&& forall|m: Move| #[trigger] mv_count(r, m) == move_count(moves, m)
    &&& forall|i1: int, i2: int|
        0 <= i1 <= i2 < r.len() ==> prefers(
            v0.current,
            (#[trigger] r[i1]).board.inner.heuristic_value as int,
            (#[trigger] r[i2]).board.inner.heuristic_value as int,
        )
}

/// Holds of every entry the orderer handles: it plays one of the given
/// moves on the given board.
pub open spec fn entry_ok(v0: BoardView, k: ZobristKeys, moves: Seq<Move>, e: MoveRes) -> bool {
    &&& plays(v0, k, e)
    &&& exists|t: int| 0 <= t < moves.len() && e.mv == moves[t]
}

/// Selection sort of played-out moves by score, descending or ascending.
/// Every output entry is an input entry, and the output is sorted.
fn select_sorted(
    descending: bool,
    arr: Vec<MoveRes>,
    scores: Vec<i32>,
    Ghost(v0): Ghost<BoardView>,
    Ghost(k): Ghost<ZobristKeys>,
    Ghost(moves): Ghost<Seq<Move>>,
) -> (r: Vec<MoveRes>)
    requires
        scores@.len() == arr@.len(),
        forall|j: int|
            0 <= j < arr@.len() ==> #[trigger] scores@[j] == arr@[j].board.inner.heuristic_value,
        forall|j: int| 0 <= j < arr@.len() ==> entry_ok(v0, k, moves, #[trigger] arr@[j]),
    ensures
        r@.len() == arr@.len(),
        forall|j: int| 0 <= j < r@.len() ==> entry_ok(v0, k, moves, #[trigger] r@[j]),
        forall|m: Move| #[trigger] mv_count(r@, m) == mv_count(arr@, m),
        forall|i1: int, i2: int|
            0 <= i1 <= i2 < r@.len() ==> (if descending {
                (#[trigger] r@[i1]).board.inner.heuristic_value
                    >= (#[trigger] r@[i2]).board.inner.heuristic_value
            } else {
                r@[i1].board.inner.heuristic_value <= r@[i2].board.inner.heuristic_value
            }),
{
    let ghost n = arr@.len();
    let ghost all = arr@;
    let mut rest = arr;
    let mut rest_scores = scores;
    let mut out: Vec<MoveRes> = Vec::new();
    proof {
        assert(out@ =~= Seq::<MoveRes>::empty());
    }
    while rest.len() > 0
        invariant
            out@.len() + rest@.len() == n,
            forall|m: Move|
                #[trigger] mv_count(out@, m) + mv_count(rest@, m) == mv_count(all, m),
            rest_scores@.len() == rest@.len(),
            forall|j: int|
                0 <= j < rest@.len() ==> #[trigger] rest_scores@[j]
                    == rest@[j].board.inner.heuristic_value,
            forall|j: int| 0 <= j < rest@.len() ==> entry_ok(v0, k, moves, #[trigger] rest@[j]),
            forall|j: int| 0 <= j < out@.len() ==> entry_ok(v0, k, moves, #[trigger] out@[j]),
            forall|i1: int, i2: int|
                0 <= i1 <= i2 < out@.len() ==> (if descending {
                    (#[trigger] out@[i1]).board.inner.heuristic_value
                        >= (#[trigger] out@[i2]).board.inner.heuristic_value
                } else {
                    out@[i1].board.inner.heuristic_value <= out@[i2].board.inner.heuristic_value
                }),
            forall|i1: int, j: int|
                0 <= i1 < out@.len() && 0 <= j < rest@.len() ==> (if descending {
                    (#[trigger] out@[i1]).board.inner.heuristic_value
                        >= (#[trigger] rest@[j]).board.inner.heuristic_value
                } else {
                    out@[i1].board.inner.heuristic_value <= rest@[j].board.inner.heuristic_value
                }),
        decreases rest@.len(),
    {
        let mut best: usize = 0;
        let mut t: usize = 1;
        while t < rest_scores.len()
            invariant
                rest_scores@.len() == rest@.len(),
                rest@.len() > 0,
                best < rest_scores@.len(),
                t <= rest_scores@.len(),
                forall|j: int|
                    0 <= j < t ==> (if descending {
                        rest_scores@[best as int] >= #[trigger] rest_scores@[j]
                    } else {
                        rest_scores@[best as int] <= #[trigger] rest_scores@[j]
                    }),
            decreases rest_scores@.len() - t,
        {
            if descending {
                if rest_scores[t] > rest_scores[best] {
                    best = t;
                }
            } else {
                if rest_scores[t] < rest_scores[best] {
                    best = t;
                }
            }
            t += 1;
        }
        let ghost old_rest = rest@;
        let ghost old_out = out@;
        let ghost old_scores = rest_scores@;
        proof {
            assert forall|j: int| 0 <= j < old_rest.len() implies (if descending {
                old_rest[best as int].board.inner.heuristic_value
                    >= (#[trigger] old_rest[j]).board.inner.heuristic_value
            } else {
                old_rest[best as int].board.inner.heuristic_value
                    <= old_rest[j].board.inner.heuristic_value
            }) by {
                assert(old_scores[j] == old_rest[j].board.inner.heuristic_value);
                assert(old_scores[best as int]
                    == old_rest[best as int].board.inner.heuristic_value);
            }
        }
        let item = rest.remove(best);
        rest_scores.remove(best);
        out.push(item);
        proof {
            assert forall|m: Move|
                #[trigger] mv_count(out@, m) + mv_count(rest@, m) == mv_count(all, m) by {
                lemma_mv_count_remove(old_rest, best as int, m);
                assert(mv_count(old_out, m) + mv_count(old_rest, m) == mv_count(all, m));
                assert(out@.drop_last() =~= old_out);
                assert(out@.last() == item);
                assert(item == old_rest[best as int]);
                assert(mv_count(out@, m) == mv_count(old_out, m) + (if item.mv == m {
                    1int
                } else {
                    0int
                }));
                assert(mv_count(rest@, m) == mv_count(old_rest, m) - (if old_rest[best as int].mv
                    == m {
                    1int
                } else {
                    0int
                }));
            }
            assert forall|j: int| 0 <= j < rest@.len() implies (#[trigger] rest@[j]) == (if j
                < best {
                old_rest[j]
            } else {
                old_rest[j + 1]
            }) by {
            }
            assert(out@[out@.len() - 1] == old_rest[best as int]);
            assert forall|i1: int, j: int|
                0 <= i1 < out@.len() && 0 <= j < rest@.len() implies (if descending {
                (#[trigger] out@[i1]).board.inner.heuristic_value
                    >= (#[trigger] rest@[j]).board.inner.heuristic_value
            } else {
                out@[i1].board.inner.heuristic_value <= rest@[j].board.inner.heuristic_value
            }) by {
                let oj = if j < best {
                    j
                } else {
                    j + 1
                };
                assert(rest@[j] == old_rest[oj]);
                if i1 < old_out.len() {
                    assert(out@[i1] == old_out[i1]);
                } else {
                    assert(out@[i1] == old_rest[best as int]);
                }
            }
        }
    }
    out
}

/// Plays every candidate move and sorts the results by the side to
/// move's preference.
pub fn order_moves(moves: Vec<Move>, board: &ZobristBoard, keys: &ZobristKeys) -> (r: Vec<
    MoveRes,
>)
    requires
        board.wf_with(*keys),
        forall|j: int| 0 <= j < moves@.len() ==> legal_ok(board.inner.inner@, #[trigger] moves@[j]),
    ensures
        ordered_ok(board.inner.inner@, *keys, moves@, r@),
{
    let ghost v0 = board.inner.inner@;
    let descending = board.current_player() == Color::White;

    let mut arr: Vec<MoveRes> = Vec::new();
    let mut arr_scores: Vec<i32> = Vec::new();
    let mut i: usize = 0;
    while i < moves.len()
        invariant
            board.wf_with(*keys),
            v0 == board.inner.inner@,
            forall|j: int|
                0 <= j < moves@.len() ==> legal_ok(board.inner.inner@, #[trigger] moves@[j]),
            i <= moves.len(),
            arr@.len() == i,
            arr_scores@.len() == i,
            forall|j: int|
                0 <= j < i ==> (#[trigger] arr@[j]).mv == moves@[j] && plays(v0, *keys, arr@[j]),
            forall|j: int|
                0 <= j < i ==> #[trigger] arr_scores@[j] == arr@[j].board.inner.heuristic_value,
            forall|m: Move|
                #[trigger] mv_count(arr@, m) == move_count(moves@.take(i as int), m),
        decreases moves.len() - i,
    {
        let m = moves[i];
        let nb = board.transition(m, keys);
        let score = nb.heuristic();
        let mr = MoveRes { board: nb, mv: m };
        proof {
            reveal(plays);
            assert(plays(v0, *keys, mr));
        }
        let ghost old_arr = arr@;
        arr.push(mr);
        arr_scores.push(score);
        proof {
            assert forall|mm: Move|
                #[trigger] mv_count(arr@, mm) == move_count(moves@.take(i + 1), mm) by {
                assert(mv_count(old_arr, mm) == move_count(moves@.take(i as int), mm));
                assert(arr@.drop_last() =~= old_arr);
                assert(arr@.last() == mr);
                assert(mr.mv == moves@[i as int]);
                assert(mv_count(arr@, mm) == mv_count(old_arr, mm) + (if mr.mv == mm {
                    1int
                } else {
                    0int
                }));
                assert(moves@.take(i + 1).drop_last() =~= moves@.take(i as int));
                assert(moves@.take(i + 1).last() == moves@[i as int]);
                assert(move_count(moves@.take(i + 1), mm) == move_count(
                    moves@.take(i as int),
                    mm,
                ) + (if moves@[i as int] == mm {
                    1int
                } else {
                    0int
                }));
            }
        }
        i += 1;
    }
    let ghost all = arr@;
    proof {
        assert forall|j: int| 0 <= j < arr@.len() implies entry_ok(
            v0,
            *keys,
            moves@,
            #[trigger] arr@[j],
        ) by {
            assert(arr@[j].mv == moves@[j]);
        }
        assert(moves@.take(moves@.len() as int) =~= moves@);
    }
    let out = select_sorted(
        descending,
        arr,
        arr_scores,
        Ghost(v0),
        Ghost(*keys),
        Ghost(moves@),
    );
    out
}

} // verus!
