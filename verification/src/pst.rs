//! Positional evaluation: piece-square tables and a board layer that keeps a
//! heuristic score (positional bonus plus material) incrementally in sync
//! with the squares, proved equal to the from-scratch recomputation.

use vstd::prelude::*;
use crate::color::Color;
use crate::piece::Piece;
use crate::chess_move::{Location, Move};
use crate::movegen::{legal_ok, moves_spec, all_moves_spec};
use crate::basic::{
    BasicBoard, BoardView, SquareChange, apply_changes, changes_ok, lemma_apply_changes_len,
    lemma_changes_ok_prefix, lemma_apply_changes_take_step,
};
use crate::sums::{sum_squares, lemma_sum_update, lemma_sum_take_step, lemma_sum_bound};

verus! {

pub const TABLE_PAWN: [[i32; 8]; 8] = [
    [0, 0, 0, 0, 0, 0, 0, 0],
    [50, 50, 50, 50, 50, 50, 50, 50],
    [10, 10, 20, 30, 30, 20, 10, 10],
    [5, 5, 10, 25, 25, 10, 5, 5],
    [0, 0, 0, 20, 20, 0, 0, 0],
    [5, -5, -10, 0, 0, -10, -5, 5],
    [5, 10, 10, -20, -20, 10, 10, 5],
    [0, 0, 0, 0, 0, 0, 0, 0],
];

pub const TABLE_KNIGHT: [[i32; 8]; 8] = [
    [-50, -40, -30, -30, -30, -30, -40, -50],
    [-40, -20, 0, 0, 0, 0, -20, -40],
    [-30, 0, 10, 15, 15, 10, 0, -30],
    [-30, 5, 15, 20, 20, 15, 5, -30],
    [-30, 0, 15, 20, 20, 15, 0, -30],
    [-30, 5, 10, 15, 15, 10, 5, -30],
    [-40, -20, 0, 5, 5, 0, -20, -40],
    [-50, -40, -30, -30, -30, -30, -40, -50],
];

pub const TABLE_BISHOP: [[i32; 8]; 8] = [
    [-20, -10, -10, -10, -10, -10, -10, -20],
    [-10, 0, 0, 0, 0, 0, 0, -10],
    [-10, 0, 5, 10, 10, 5, 0, -10],
    [-10, 5, 5, 10, 10, 5, 5, -10],
    [-10, 0, 10, 10, 10, 10, 0, -10],
    [-10, 10, 10, 10, 10, 10, 10, -10],
    [-10, 5, 0, 0, 0, 0, 5, -10],
    [-20, -10, -10, -10, -10, -10, -10, -20],
];

pub const TABLE_ROOK: [[i32; 8]; 8] = [
    [0, 0, 0, 0, 0, 0, 0, 0],
    [5, 10, 10, 10, 10, 10, 10, 5],
    [-5, 0, 0, 0, 0, 0, 0, -5],
    [-5, 0, 0, 0, 0, 0, 0, -5],
    [-5, 0, 0, 0, 0, 0, 0, -5],
    [-5, 0, 0, 0, 0, 0, 0, -5],
    [-5, 0, 0, 0, 0, 0, 0, -5],
    [0, 0, 0, 5, 5, 0, 0, 0],
];

pub const TABLE_QUEEN: [[i32; 8]; 8] = [
    [-20, -10, -10, -5, -5, -10, -10, -20],
    [-10, 0, 0, 0, 0, 0, 0, -10],
    [-10, 0, 5, 5, 5, 5, 0, -10],
    [-5, 0, 5, 5, 5, 5, 0, -5],
    [0, 0, 5, 5, 5, 5, 0, -5],
    [-10, 5, 5, 5, 5, 5, 0, -10],
    [-10, 0, 5, 0, 0, 0, 0, -10],
    [-20, -10, -10, -5, -5, -10, -10, -20],
];

pub const TABLE_KING_MIDDLE: [[i32; 8]; 8] = [
    [-30, -40, -40, -50, -50, -40, -40, -30],
    [-30, -40, -40, -50, -50, -40, -40, -30],
    [-30, -40, -40, -50, -50, -40, -40, -30],
    [-30, -40, -40, -50, -50, -40, -40, -30],
    [-20, -30, -30, -40, -40, -30, -30, -20],
    [-10, -20, -20, -20, -20, -20, -20, -10],
    [20, 20, 0, 0, 0, 0, 20, 20],
    [20, 30, 10, 0, 0, 10, 30, 20],
];

/// The positional bonus for a piece on a square. The tables are authored
/// from White's perspective (rank 7 is White's back rank); Black reads them
/// mirrored and negated.
pub open spec fn pos_score_spec(p: Piece, x: int, y: int) -> int {
    if p.color_spec() == Color::EmptyColor {
        0
    } else {
        let yy: int = if p.color_spec() == Color::White {
            y
        } else {
            7 - y
        };
        let v: int = if p.is_pawn_spec() {
            TABLE_PAWN@[yy]@[x] as int
        } else if p.is_knight_spec() {
            TABLE_KNIGHT@[yy]@[x] as int
        } else if p.is_bishop_spec() {
            TABLE_BISHOP@[yy]@[x] as int
        } else if p.is_rook_spec() {
            TABLE_ROOK@[yy]@[x] as int
        } else if p.is_queen_spec() {
            TABLE_QUEEN@[yy]@[x] as int
        } else {
            TABLE_KING_MIDDLE@[yy]@[x] as int
        };
        if p.color_spec() == Color::White {
            v
        } else {
            -v
        }
    }
}

/// Every table entry lies in [-50, 50].
pub proof fn lemma_pos_score_bounds(p: Piece, x: int, y: int)
    requires
        0 <= x < 8,
        0 <= y < 8,
    ensures
        -50 <= pos_score_spec(p, x, y) <= 50,
{
}

pub fn pos_score(p: Piece, l: Location) -> (r: i32)
    requires
        l.wf(),
    ensures
        r == pos_score_spec(p, l.x as int, l.y as int),
        -50 <= r <= 50,
{
    proof {
        lemma_pos_score_bounds(p, l.x as int, l.y as int);
    }
    if p.color() == Color::EmptyColor {
        return 0;
    }
    let x = l.x as usize;
    let y: usize = if p.color() == Color::White {
        l.y as usize
    } else {
        (7 - l.y) as usize
    };
    let v: i32 = if p.is_pawn() {
        TABLE_PAWN[y][x]
    } else if p.is_knight() {
        TABLE_KNIGHT[y][x]
    } else if p.is_bishop() {
        TABLE_BISHOP[y][x]
    } else if p.is_rook() {
        TABLE_ROOK[y][x]
    } else if p.is_queen() {
        TABLE_QUEEN[y][x]
    } else {
        TABLE_KING_MIDDLE[y][x]
    };
    if p.color() == Color::White {
        v
    } else {
        -v
    }
}

/// Per-square heuristic contribution: positional bonus minus the
/// Black-positive material value, so the whole sum is White-positive.
pub open spec fn heur_at() -> spec_fn(int, Piece) -> int {
    |i: int, p: Piece| pos_score_spec(p, i % 8, i / 8) - p.material_worth_spec()
}

/// The from-scratch heuristic score of a board: positional bonus plus
/// White-positive material, summed over all squares.
pub open spec fn heuristic_spec(s: Seq<Piece>) -> int {
    sum_squares(s, heur_at())
}

/// The heuristic of any 64-square board stays far below the mate
/// sentinels: no accumulation of piece values can reach them.
pub proof fn lemma_heuristic_bound(s: Seq<Piece>)
    requires
        s.len() == 64,
    ensures
        -1283200 <= heuristic_spec(s) <= 1283200,
{
    assert forall|i: int, p: Piece| 0 <= i < s.len() implies -20050 <= #[trigger] heur_at()(
        i,
        p,
    ) <= 20050 by {
        lemma_pos_score_bounds(p, i % 8, i / 8);
    }
    lemma_sum_bound(s, heur_at(), 20050);
}

/// The per-square heuristic contribution, executably.
fn heur_val(p: Piece, x: usize, y: usize) -> (r: i32)
    requires
        x < 8,
        y < 8,
    ensures
        r == pos_score_spec(p, x as int, y as int) - p.material_worth_spec(),
        -20050 <= r <= 20050,
{
    pos_score(p, Location::new(x as i8, y as i8)) - p.material_worth()
}

/// A board layer that maintains the heuristic score incrementally across
/// transitions. Its invariant ties the cached score to the from-scratch
/// recomputation on the current squares.
#[derive(Clone, Debug)]
pub struct PSTBoard {
    pub inner: BasicBoard,
    pub heuristic_value: i32,
}

impl PSTBoard {
    /// The cached score equals the bulk recomputation; this is the
    /// incremental/bulk evaluation equivalence, kept as an invariant.
    pub open spec fn wf(self) -> bool {
        &&& self.inner.wf()
        &&& self.heuristic_value == heuristic_spec(self.inner@.squares)
    }

    /// Builds the layer by scoring the whole board from scratch.
    pub fn new(inner: BasicBoard) -> (r: PSTBoard)
        requires
            inner.wf(),
        ensures
            r.wf(),
            r.inner == inner,
            r.heuristic_value == heuristic_spec(inner@.squares),
    {
        let ghost s = inner@.squares;
        let mut hv: i64 = 0;
        let mut i: usize = 0;
        while i < 64
            invariant
                inner.wf(),
                s == inner@.squares,
                i <= 64,
                hv == sum_squares(s.take(i as int), heur_at()),
                -20050 * (i as int) <= hv <= 20050 * (i as int),
            decreases 64 - i,
        {
            let x = i % 8;
            let y = i / 8;
            let l = Location::new(x as i8, y as i8);
            assert(l.index() == i) by {
                vstd::arithmetic::div_mod::lemma_fundamental_div_mod(i as int, 8);
            }
            let p = inner.piece_at(l);
            let c = heur_val(p, x, y);
            proof {
                lemma_sum_take_step(s, heur_at(), i as int);
                assert(heur_at()(i as int, p) == c);
            }
            hv = hv + (c as i64);
            i += 1;
        }
        assert(s.take(64) =~= s);
        PSTBoard { inner, heuristic_value: hv as i32 }
    }

    pub fn heuristic(&self) -> (r: i32)
        ensures
            r == self.heuristic_value,
    {
        self.heuristic_value
    }

    /// The heuristic score doubles as this layer's material score, as the
    /// move orderer consumes it.
    pub fn get_material_score(&self) -> (r: i32)
        ensures
            r == self.heuristic_value,
    {
        self.heuristic_value
    }

    pub fn current_player(&self) -> (r: Color)
        ensures
            r == self.inner@.current,
    {
        self.inner.current_player()
    }

    pub fn piece_at(&self, l: Location) -> (r: Piece)
        requires
            self.wf(),
            l.wf(),
        ensures
            r == self.inner@.squares[l.index()],
    {
        self.inner.piece_at(l)
    }

    pub fn get_en_passant(&self) -> (r: i8)
        ensures
            r == self.inner@.en_passant,
    {
        self.inner.get_en_passant()
    }

    pub fn get_castling_rights(&self) -> (r: [bool; 4])
        requires
            self.wf(),
        ensures
            r@ =~= self.inner@.rights,
    {
        self.inner.get_castling_rights()
    }

    /// The legal moves of the piece on `location`.
    pub fn moves(&self, location: Location) -> (r: Vec<Move>)
        requires
            self.wf(),
            location.wf(),
        ensures
            r@ == moves_spec(self.inner@, location),
            forall|i: int|
                0 <= i < r@.len() ==> (#[trigger] r@[i]).from == location && crate::piece_moves::gen_ok(
                    self.inner@,
                    r@[i],
                ) && !crate::king_check::in_check(
                    crate::basic::BoardView::transition_squares(self.inner@.squares, r@[i]),
                    self.inner@.current,
                ),
    {
        self.inner.moves(location)
    }

    /// The legal moves of the side to move.
    pub fn all_moves(&self) -> (r: Vec<Move>)
        requires
            self.wf(),
        ensures
            r@ == all_moves_spec(self.inner@),
            forall|i: int| 0 <= i < r@.len() ==> legal_ok(self.inner@, #[trigger] r@[i]),
    {
        self.inner.all_moves()
    }

    /// Checkmate, stalemate, or an ongoing game.
    pub fn is_terminal(&self) -> (r: Option<Color>)
        requires
            self.wf(),
        ensures
            r is Some <==> all_moves_spec(self.inner@).len() == 0,
            (all_moves_spec(self.inner@).len() == 0 && crate::king_check::in_check(
                self.inner@.squares,
                self.inner@.current,
            )) ==> r == Some(self.inner@.current.other_spec()),
            (all_moves_spec(self.inner@).len() == 0 && !crate::king_check::in_check(
                self.inner@.squares,
                self.inner@.current,
            )) ==> r == Some(Color::EmptyColor),
    {
        self.inner.is_terminal()
    }

    /// Applies a move, updating the cached heuristic from the square-level
    /// changes alone; the result provably carries the score a from-scratch
    /// recomputation would give.
    pub fn transition(&self, m: Move) -> (r: PSTBoard)
        requires
            self.wf(),
            self.inner@.move_ok(m),
        ensures
            r.wf(),
            r.inner@ == self.inner@.transition_view(m),
    {
        let (r, _) = self.transition_with_changes(m);
        r
    }

    /// Like `transition`, but also hands on the square-level changes for
    /// further observers.
    pub fn transition_with_changes(&self, m: Move) -> (r: (PSTBoard, Vec<SquareChange>))
        requires
            self.wf(),
            self.inner@.move_ok(m),
        ensures
            r.0.wf(),
            r.0.inner@ == self.inner@.transition_view(m),
            changes_ok(self.inner@.squares, r.1@),
            apply_changes(self.inner@.squares, r.1@) == r.0.inner@.squares,
    {
        let ghost s0 = self.inner@.squares;
        let (inner2, ds) = self.inner.transition_with_changes(m);
        let mut hv: i64 = self.heuristic_value as i64;
        proof {
            lemma_heuristic_bound(s0);
            assert(ds@.take(0) =~= Seq::<SquareChange>::empty());
        }
        let mut k: usize = 0;
        while k < ds.len()
            invariant
                s0.len() == 64,
                changes_ok(s0, ds@),
                apply_changes(s0, ds@) == inner2@.squares,
                k <= ds.len(),
                hv == sum_squares(apply_changes(s0, ds@.take(k as int)), heur_at()),
                -1283200 <= hv <= 1283200,
            decreases ds.len() - k,
        {
            let ghost cur = apply_changes(s0, ds@.take(k as int));
            proof {
                lemma_changes_ok_prefix(s0, ds@, k as int);
                lemma_changes_ok_prefix(s0, ds@, k + 1);
                lemma_apply_changes_len(s0, ds@.take(k as int));
                assert(ds@.take(k + 1).drop_last() =~= ds@.take(k as int));
                assert(ds@.take(k + 1).last() == ds@[k as int]);
            }
            let d = ds[k];
            assert(cur[d.index as int] == d.was);
            let x = d.index % 8;
            let y = d.index / 8;
            let was_c = heur_val(d.was, x, y);
            let now_c = heur_val(d.now, x, y);
            proof {
                vstd::arithmetic::div_mod::lemma_fundamental_div_mod(d.index as int, 8);
                assert(heur_at()(d.index as int, d.was) == was_c);
                assert(heur_at()(d.index as int, d.now) == now_c);
                lemma_sum_update(cur, heur_at(), d.index as int, d.now);
                lemma_apply_changes_take_step(s0, ds@, k as int);
                lemma_apply_changes_len(s0, ds@.take(k + 1));
                lemma_heuristic_bound(apply_changes(s0, ds@.take(k + 1)));
            }
            hv = hv - (was_c as i64) + (now_c as i64);
            k += 1;
        }
        proof {
            assert(ds@.take(ds@.len() as int) =~= ds@);
            lemma_heuristic_bound(inner2@.squares);
        }
        (PSTBoard { inner: inner2, heuristic_value: hv as i32 }, ds)
    }
}

/// Incremental/bulk evaluation equivalence: the cached heuristic of a
/// well-formed layer is determined by the squares alone, so any two
/// layers over the same position — one maintained move by move, one
/// scored from scratch — carry the same value.
pub proof fn lemma_eval_incremental_matches_bulk(b1: PSTBoard, b2: PSTBoard)
    requires
        b1.wf(),
        b2.wf(),
        b1.inner@.squares == b2.inner@.squares,
    ensures
        b1.heuristic_value == b2.heuristic_value,
{
}

} // verus!
