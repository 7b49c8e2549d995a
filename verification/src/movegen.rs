//! Legal move collection and terminal detection on the canonical board:
//! pseudo-legal generation filtered so no returned move leaves the mover's
//! own king in check, and the checkmate/stalemate classification.

use vstd::prelude::*;
use crate::color::Color;
use crate::piece::Piece;
use crate::chess_move::{Location, Move, Extra};
use crate::basic::{BasicBoard, BoardView};
use crate::king_check::{in_check, king_check};
use crate::piece_moves::{
    gen_ok, pawn_moves_black, pawn_moves_white, bishop_moves, knight_moves, rook_moves,
    king_moves, queen_moves, append_moves, pawn_moves_black_spec, pawn_moves_white_spec,
    bishop_moves_spec, knight_moves_spec, rook_moves_spec, king_moves_spec, queen_moves_spec,
};
use crate::sums::{sum_squares, lemma_sum_update, lemma_sum_nonneg};

verus! {

/// Everything the search relies on of a move handed out as legal: it is
/// consistent with the board, it moves the side to move's own piece, and
/// playing it does not leave that side's king in check.
pub open spec fn legal_ok(v: BoardView, m: Move) -> bool {
    &&& gen_ok(v, m)
    &&& v.squares[m.from.index()].color_spec() == v.current
    &&& !in_check(BoardView::transition_squares(v.squares, m), v.current)
}

/// The pseudo-legal moves of the piece on `l`, by its kind; an empty
/// square offers none.
pub open spec fn pseudo_moves_spec(v: BoardView, l: Location) -> Seq<Move> {
    match v.squares[l.index()] {
        Piece::Empty => Seq::empty(),
        Piece::BlackPawn => pawn_moves_black_spec(v, l),
        Piece::WhitePawn => pawn_moves_white_spec(v, l),
        Piece::BlackBishop => bishop_moves_spec(v, l),
        Piece::WhiteBishop => bishop_moves_spec(v, l),
        Piece::BlackKnight => knight_moves_spec(v, l),
        Piece::WhiteKnight => knight_moves_spec(v, l),
        Piece::BlackRook => rook_moves_spec(v, l),
        Piece::WhiteRook => rook_moves_spec(v, l),
        Piece::BlackKing => king_moves_spec(v, l),
        Piece::WhiteKing => king_moves_spec(v, l),
        Piece::BlackQueen => queen_moves_spec(v, l),
        Piece::WhiteQueen => queen_moves_spec(v, l),
    }
}

/// The moves of a candidate list that do not leave the side to move's own
/// king in check, in order.
pub open spec fn legal_filter_spec(v: BoardView, ms: Seq<Move>) -> Seq<Move>
    decreases ms.len(),
{
    if ms.len() == 0 {
        Seq::empty()
    } else {
        legal_filter_spec(v, ms.drop_last()) + (if !in_check(
            BoardView::transition_squares(v.squares, ms.last()),
            v.current,
        ) {
            seq![ms.last()]
        } else {
            Seq::empty()
        })
    }
}

/// Exactly the moves `BasicBoard::moves` returns for the piece on `l`.
pub open spec fn moves_spec(v: BoardView, l: Location) -> Seq<Move> {
    legal_filter_spec(v, pseudo_moves_spec(v, l))
}

/// The square with row-major index `i`.
pub open spec fn loc_of(i: int) -> Location {
    Location { x: (i % 8) as i8, y: (i / 8) as i8 }
}

/// The side to move's pieces on the first `n` squares, with their
/// squares, in scan order.
pub open spec fn pieces_prefix_spec(v: BoardView, n: int) -> Seq<(Piece, Location)>
    decreases n,
{
    if n <= 0 {
        Seq::empty()
    } else {
        pieces_prefix_spec(v, n - 1) + (if v.squares[n - 1] != Piece::Empty && v.squares[n
            - 1].color_spec() == v.current {
            seq![(v.squares[n - 1], loc_of(n - 1))]
        } else {
            Seq::empty()
        })
    }
}

/// Exactly the pieces `BasicBoard::all_pieces` returns.
pub open spec fn all_pieces_spec(v: BoardView) -> Seq<(Piece, Location)> {
    pieces_prefix_spec(v, 64)
}

/// The legal moves of a list of pieces, in order.
pub open spec fn moves_of_pieces_spec(v: BoardView, ps: Seq<(Piece, Location)>) -> Seq<Move>
    decreases ps.len(),
{
    if ps.len() == 0 {
        Seq::empty()
    } else {
        moves_of_pieces_spec(v, ps.drop_last()) + moves_spec(v, ps.last().1)
    }
}

/// Exactly the moves `BasicBoard::all_moves` returns: the legal moves of
/// the side to move, over all of its pieces in scan order. A position is
/// decided exactly when this list is empty.
pub open spec fn all_moves_spec(v: BoardView) -> Seq<Move> {
    moves_of_pieces_spec(v, all_pieces_spec(v))
}

impl BasicBoard {
    /// The legal moves of the piece standing on `location`: its
    /// pseudo-legal moves, minus every move after which the mover's own
    /// king would stand in check.
    pub fn moves(&self, location: Location) -> (r: Vec<Move>)
        requires
            self.wf(),
            location.wf(),
        ensures
            r@ == moves_spec(self@, location),
            forall|i: int|
                0 <= i < r@.len() ==> (#[trigger] r@[i]).from == location && gen_ok(self@, r@[i])
                    && !in_check(
                    BoardView::transition_squares(self@.squares, r@[i]),
                    self@.current,
                ),
    {
        let p = self.piece_at(location);
        let pseudo: Vec<Move> = match p {
            Piece::Empty => Vec::new(),
            Piece::BlackPawn => pawn_moves_black(location, self),
            Piece::WhitePawn => pawn_moves_white(location, self),
            Piece::BlackBishop => bishop_moves(location, self),
            Piece::WhiteBishop => bishop_moves(location, self),
            Piece::BlackKnight => knight_moves(location, self),
            Piece::WhiteKnight => knight_moves(location, self),
            Piece::BlackRook => rook_moves(location, self),
            Piece::WhiteRook => rook_moves(location, self),
            Piece::BlackKing => king_moves(location, self),
            Piece::WhiteKing => king_moves(location, self),
            Piece::BlackQueen => queen_moves(location, self),
            Piece::WhiteQueen => queen_moves(location, self),
        };
        proof {
            assert(pseudo@ =~= pseudo_moves_spec(self@, location));
        }
        let mut out: Vec<Move> = Vec::new();
        let mut i: usize = 0;
        proof {
            assert(pseudo@.take(0) =~= Seq::<Move>::empty());
            assert(out@ =~= legal_filter_spec(self@, pseudo@.take(0)));
        }
        while i < pseudo.len()
            invariant
                self.wf(),
                location.wf(),
                i <= pseudo.len(),
                out@ == legal_filter_spec(self@, pseudo@.take(i as int)),
                forall|j: int|
                    0 <= j < pseudo.len() ==> (#[trigger] pseudo@[j]).from == location && gen_ok(
                        self@,
                        pseudo@[j],
                    ),
                forall|j: int|
                    0 <= j < out@.len() ==> (#[trigger] out@[j]).from == location && gen_ok(
                        self@,
                        out@[j],
                    ) && !in_check(
                        BoardView::transition_squares(self@.squares, out@[j]),
                        self@.current,
                    ),
            decreases pseudo.len() - i,
        {
            let ghost old_out = out@;
            let m = pseudo[i];
            let next = self.transition(m);
            if !king_check(&next, self.current_player()) {
                out.push(m);
            }
            proof {
                assert(pseudo@.take(i + 1).drop_last() =~= pseudo@.take(i as int));
                assert(pseudo@.take(i + 1).last() == pseudo@[i as int]);
                assert(out@ =~= old_out + (if !in_check(
                    BoardView::transition_squares(self@.squares, pseudo@[i as int]),
                    self@.current,
                ) {
                    seq![pseudo@[i as int]]
                } else {
                    Seq::<Move>::empty()
                }));
            }
            i += 1;
        }
        proof {
            assert(pseudo@.take(pseudo@.len() as int) =~= pseudo@);
        }
        out
    }

    /// Every piece of the side to move, with its square.
    pub fn all_pieces(&self) -> (r: Vec<(Piece, Location)>)
        requires
            self.wf(),
        ensures
            r@ == all_pieces_spec(self@),
            forall|i: int|
                0 <= i < r@.len() ==> (#[trigger] r@[i]).1.wf() && r@[i].0
                    == self@.squares[r@[i].1.index()] && r@[i].0.color_spec() == self@.current,
    {
        let mut out: Vec<(Piece, Location)> = Vec::new();
        let mut i: usize = 0;
        proof {
            assert(out@ =~= pieces_prefix_spec(self@, 0));
        }
        while i < 64
            invariant
                self.wf(),
                i <= 64,
                out@ == pieces_prefix_spec(self@, i as int),
                forall|j: int|
                    0 <= j < out@.len() ==> (#[trigger] out@[j]).1.wf() && out@[j].0
                        == self@.squares[out@[j].1.index()] && out@[j].0.color_spec()
                        == self@.current,
            decreases 64 - i,
        {
            let ghost old_out = out@;
            let l = Location::new((i % 8) as i8, (i / 8) as i8);
            proof {
                vstd::arithmetic::div_mod::lemma_fundamental_div_mod(i as int, 8);
                assert(l == loc_of(i as int));
                assert(l.index() == i);
            }
            let p = self.piece_at(l);
            if !p.is_empty() && p.color() == self.current_player() {
                out.push((p, l));
            }
            proof {
                assert(out@ =~= old_out + (if self@.squares[i as int] != Piece::Empty
                    && self@.squares[i as int].color_spec() == self@.current {
                    seq![(self@.squares[i as int], loc_of(i as int))]
                } else {
                    Seq::<(Piece, Location)>::empty()
                }));
            }
            i += 1;
        }
        out
    }

    /// The legal moves of the side to move, over all of its pieces.
    pub fn all_moves(&self) -> (r: Vec<Move>)
        requires
            self.wf(),
        ensures
            r@ == all_moves_spec(self@),
            forall|i: int|
                0 <= i < r@.len() ==> legal_ok(self@, #[trigger] r@[i]),
    {
        let pieces = self.all_pieces();
        let mut out: Vec<Move> = Vec::new();
        let mut i: usize = 0;
        proof {
            assert(pieces@.take(0) =~= Seq::<(Piece, Location)>::empty());
            assert(out@ =~= moves_of_pieces_spec(self@, pieces@.take(0)));
        }
        while i < pieces.len()
            invariant
                self.wf(),
                i <= pieces.len(),
                pieces@ == all_pieces_spec(self@),
                out@ == moves_of_pieces_spec(self@, pieces@.take(i as int)),
                forall|j: int|
                    0 <= j < pieces.len() ==> (#[trigger] pieces@[j]).1.wf() && pieces@[j].0
                        == self@.squares[pieces@[j].1.index()] && pieces@[j].0.color_spec()
                        == self@.current,
                forall|j: int| 0 <= j < out@.len() ==> legal_ok(self@, #[trigger] out@[j]),
            decreases pieces.len() - i,
        {
            let ghost old_out = out@;
            let (_, l) = pieces[i];
            append_moves(&mut out, self.moves(l));
            proof {
                assert(pieces@.take(i + 1).drop_last() =~= pieces@.take(i as int));
                assert(pieces@.take(i + 1).last() == pieces@[i as int]);
                assert(out@ =~= old_out + moves_spec(self@, pieces@[i as int].1));
            }
            i += 1;
        }
        proof {
            assert(pieces@.take(pieces@.len() as int) =~= pieces@);
        }
        out
    }

    /// Checkmate, stalemate, or an ongoing game, per `terminal_outcome`:
    /// the game is decided exactly when the side to move has no legal
    /// move, and the winner is then read off the check status.
    pub fn is_terminal(&self) -> (r: Option<Color>)
        requires
            self.wf(),
        ensures
            r is Some <==> all_moves_spec(self@).len() == 0,
            (all_moves_spec(self@).len() == 0 && in_check(self@.squares, self@.current)) ==> r
                == Some(self@.current.other_spec()),
            (all_moves_spec(self@).len() == 0 && !in_check(self@.squares, self@.current)) ==> r
                == Some(Color::EmptyColor),
    {
        let moves = self.all_moves();
        let check = king_check(self, self.current_player());
        terminal_outcome(self.current_player(), moves.len(), check)
    }
}

/// The terminal classification of a position, from the number of legal
/// moves and whether the side to move stands in check: with moves left the
/// game goes on; with none, check means the opponent has won (checkmate)
/// and no check means a draw (stalemate).
pub fn terminal_outcome(to_move: Color, num_moves: usize, check: bool) -> (r: Option<Color>)
    ensures
        num_moves > 0 ==> r is None,
        (num_moves == 0 && check) ==> r == Some(to_move.other_spec()),
        (num_moves == 0 && !check) ==> r == Some(Color::EmptyColor),
{
    if num_moves == 0 {
        if check {
            Some(to_move.other())
        } else {
            Some(Color::EmptyColor)
        }
    } else {
        None
    }
}

/// One where a piece stands, zero where none does.
pub open spec fn occupied_at() -> spec_fn(int, Piece) -> int {
    |i: int, p: Piece| if p == Piece::Empty {
        0
    } else {
        1
    }
}

/// How many pieces stand on the board.
pub open spec fn occupied_count(s: Seq<Piece>) -> int {
    sum_squares(s, occupied_at())
}

pub proof fn lemma_occupied_nonneg(s: Seq<Piece>)
    ensures
        occupied_count(s) >= 0,
{
    lemma_sum_nonneg(s, occupied_at());
}

/// Every consistently generated capturing move takes a piece off the
/// board: capture sequences cannot go on forever, which bounds the
/// quiescence search.
pub proof fn lemma_capture_reduces_occupied(v: BoardView, m: Move)
    requires
        v.wf(),
        gen_ok(v, m),
        m.extra.is_capturing_spec(),
    ensures
        occupied_count(BoardView::transition_squares(v.squares, m)) < occupied_count(v.squares),
{
    let s = v.squares;
    let movable = s[m.from.index()];
    let set = BoardView::moved_piece(s, m);
    assert(set != Piece::Empty);
    let s1 = BoardView::castle_updates(s, m);
    assert(s1 == s);
    assert(m.from.index() != m.to.index());
    if m.extra == Extra::EnPassantCaptures {
        let i = BoardView::ep_capture_square(s, m)->Some_0;
        let s2 = s.update(i, Piece::Empty);
        lemma_sum_update(s, occupied_at(), i, Piece::Empty);
        assert(i != m.to.index());
        assert(i != m.from.index());
        lemma_sum_update(s2, occupied_at(), m.to.index(), set);
        lemma_sum_update(
            s2.update(m.to.index(), set),
            occupied_at(),
            m.from.index(),
            Piece::Empty,
        );
        assert(s2[m.to.index()] == s[m.to.index()]);
        assert(s2.update(m.to.index(), set)[m.from.index()] == s[m.from.index()]);
    } else {
        assert(BoardView::ep_capture_square(s, m) is None);
        lemma_sum_update(s, occupied_at(), m.to.index(), set);
        lemma_sum_update(s.update(m.to.index(), set), occupied_at(), m.from.index(), Piece::Empty);
        assert(s.update(m.to.index(), set)[m.from.index()] == s[m.from.index()]);
    }
}

} // verus!
