//! A board layer carrying presentation state: highlighted squares and the
//! last move played. Rendering itself is left to the program around the
//! library; this layer only keeps the data the renderer needs.

use vstd::prelude::*;
use crate::color::Color;
use crate::piece::Piece;
use crate::chess_move::{Location, Move};
use crate::basic::BoardView;
use crate::zobrist::{ZobristBoard, ZobristKeys};

verus! {

#[derive(Clone, Debug)]
pub struct DisplayableBoard {
    pub inner: ZobristBoard,
    pub highlighted: Vec<Location>,
    pub last_from: Option<Location>,
    pub last_to: Option<Location>,
}

impl DisplayableBoard {
    pub open spec fn wf_with(self, k: ZobristKeys) -> bool {
        self.inner.wf_with(k)
    }

    /// The underlying position model.
    pub open spec fn pos(self) -> BoardView {
        self.inner.inner.inner@
    }

    pub fn new(inner: ZobristBoard) -> (r: DisplayableBoard)
        ensures
            r.inner == inner,
            r.highlighted@.len() == 0,
            r.last_from is None,
            r.last_to is None,
    {
        DisplayableBoard { inner, highlighted: Vec::new(), last_from: None, last_to: None }
    }

    /// Marks a set of squares for the renderer.
    pub fn highlight(&mut self, locations: Vec<Location>)
        ensures
            final(self).inner == old(self).inner,
            final(self).highlighted == locations,
            final(self).last_from == old(self).last_from,
            final(self).last_to == old(self).last_to,
    {
        self.highlighted = locations;
    }

    /// Applies a move; the new board remembers the move's endpoints so the
    /// renderer can mark them.
    pub fn transition(&self, m: Move, keys: &ZobristKeys) -> (r: DisplayableBoard)
        requires
            self.wf_with(*keys),
            self.pos().move_ok(m),
        ensures
            r.wf_with(*keys),
            r.pos() == self.pos().transition_view(m),
            r.last_from == Some(m.from),
            r.last_to == Some(m.to),
    {
        let inner = self.inner.transition(m, keys);
        let mut highlighted: Vec<Location> = Vec::new();
        DisplayableBoard { inner, highlighted, last_from: Some(m.from), last_to: Some(m.to) }
    }

    pub fn all_moves(&self) -> (r: Vec<Move>)
        requires
            self.inner.inner.wf(),
        ensures
            r@ == crate::movegen::all_moves_spec(self.pos()),
            forall|i: int|
                0 <= i < r@.len() ==> crate::movegen::legal_ok(self.pos(), #[trigger] r@[i]),
    {
        self.inner.all_moves()
    }

    pub fn moves(&self, location: Location) -> (r: Vec<Move>)
        requires
            self.inner.inner.wf(),
            location.wf(),
        ensures
            r@ == crate::movegen::moves_spec(self.pos(), location),
            forall|i: int|
                0 <= i < r@.len() ==> (#[trigger] r@[i]).from == location
                    && crate::piece_moves::gen_ok(self.pos(), r@[i])
                    && !crate::king_check::in_check(
                    BoardView::transition_squares(self.pos().squares, r@[i]),
                    self.pos().current,
                ),
    {
        self.inner.inner.moves(location)
    }

    pub fn is_terminal(&self) -> (r: Option<Color>)
        requires
            self.inner.inner.wf(),
        ensures
            r is Some <==> crate::movegen::all_moves_spec(self.pos()).len() == 0,
            (crate::movegen::all_moves_spec(self.pos()).len() == 0 && crate::king_check::in_check(
                self.pos().squares,
                self.pos().current,
            )) ==> r == Some(self.pos().current.other_spec()),
            (crate::movegen::all_moves_spec(self.pos()).len() == 0
                && !crate::king_check::in_check(self.pos().squares, self.pos().current)) ==> r
                == Some(Color::EmptyColor),
    {
        self.inner.is_terminal()
    }

    pub fn current_player(&self) -> (r: Color)
        ensures
            r == self.pos().current,
    {
        self.inner.current_player()
    }

    pub fn piece_at(&self, l: Location) -> (r: Piece)
        requires
            self.inner.inner.wf(),
            l.wf(),
        ensures
            r == self.pos().squares[l.index()],
    {
        self.inner.piece_at(l)
    }

    pub fn hash(&self) -> (r: u64)
        ensures
            r == self.inner.hash,
    {
        self.inner.hash()
    }

    pub fn heuristic(&self) -> (r: i32)
        ensures
            r == self.inner.inner.heuristic_value,
    {
        self.inner.heuristic()
    }

    pub fn get_material_score(&self) -> (r: i32)
        ensures
            r == self.inner.inner.heuristic_value,
    {
        self.inner.get_material_score()
    }

    pub fn get_en_passant(&self) -> (r: i8)
        ensures
            r == self.pos().en_passant,
    {
        self.inner.get_en_passant()
    }

    pub fn get_castling_rights(&self) -> (r: [bool; 4])
        requires
            self.inner.inner.wf(),
        ensures
            r@ =~= self.pos().rights,
    {
        self.inner.get_castling_rights()
    }

    /// Decrements the given side's remaining clock by the elapsed
    /// milliseconds, saturating at zero. The score and fingerprint layers
    /// are untouched: neither reads the clock.
    pub fn decrement_clock(&mut self, side: Color, elapsed: u64)
        requires
            old(self).inner.inner.wf(),
            old(self).inner.inner.inner.wf(),
            side == Color::Black || side == Color::White,
        ensures
            final(self).pos() == (crate::basic::BoardView {
                clock: old(self).pos().clock.update(
                    if side == Color::White {
                        0int
                    } else {
                        1int
                    },
                    (if old(self).pos().clock[if side == Color::White {
                        0int
                    } else {
                        1int
                    }] >= elapsed {
                        (old(self).pos().clock[if side == Color::White {
                            0int
                        } else {
                            1int
                        }] - elapsed) as u64
                    } else {
                        0u64
                    }),
                ),
                ..old(self).pos()
            }),
            final(self).inner.hash == old(self).inner.hash,
            final(self).inner.inner.heuristic_value == old(self).inner.inner.heuristic_value,
            forall|k: ZobristKeys| old(self).wf_with(k) ==> final(self).wf_with(k),
    {
        self.inner.inner.inner.decrement_clock(side, elapsed);
    }

    pub fn get_clock(&self) -> (r: [u64; 2])
        requires
            self.inner.inner.wf(),
        ensures
            r@ =~= self.pos().clock,
    {
        self.inner.inner.inner.get_clock()
    }
}

} // verus!
