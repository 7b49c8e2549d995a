//! The canonical board: piece placement, side to move, castling rights,
//! en-passant file, clocks, and an incrementally maintained material score.
//!
//! The mathematical model is `BoardView`; `transition_view` is the full
//! specification of the state transition for a move, and the executable
//! `transition` is proved to implement it while keeping the material score
//! equal to a from-scratch recomputation (`-material_sum`).

use vstd::prelude::*;
use crate::color::Color;
use crate::piece::Piece;
use crate::chess_move::{Location, Move, Extra};
use crate::sums::{sum_squares, lemma_sum_update, lemma_sum_bound, lemma_sum_push};

verus! {

/// Row-major index of the square at file `x`, rank `y`.
pub open spec fn idx(x: int, y: int) -> int {
    y * 8 + x
}

/// Per-square material contribution (Black-positive, like
/// `Piece::material_worth`).
pub open spec fn worth_at() -> spec_fn(int, Piece) -> int {
    |i: int, p: Piece| p.material_worth_spec()
}

/// Total Black-favoring material on the board; the board's White-favoring
/// material score is the negation of this.
pub open spec fn material_sum(s: Seq<Piece>) -> int {
    sum_squares(s, worth_at())
}

/// Any board sum of per-piece material values is bounded by 64 times the
/// largest piece value, so a material score always fits comfortably below
/// the mate sentinels.
pub proof fn lemma_material_sum_bound(s: Seq<Piece>)
    requires
        s.len() == 64,
    ensures
        -1280000 <= material_sum(s) <= 1280000,
{
    assert(forall|i: int, p: Piece| 0 <= i < s.len() ==> -20000 <= #[trigger] worth_at()(i, p)
        <= 20000);
    lemma_sum_bound(s, worth_at(), 20000);
}

/// The mathematical model of a board state.
#[verifier::ext_equal]
pub ghost struct BoardView {
    pub squares: Seq<Piece>,
    pub current: Color,
    pub rights: Seq<bool>,
    pub en_passant: int,
    pub material: int,
    pub clock: Seq<u64>,
    pub move_count: int,
}

impl BoardView {
    /// Well-formed board: 64 squares, four castling flags, two clocks, an
    /// en-passant file of 0..=8 (8 meaning none), one of the two players to
    /// move, and a material score that equals the from-scratch
    /// recomputation over the squares.
    pub open spec fn wf(self) -> bool {
        &&& self.squares.len() == 64
        &&& self.rights.len() == 4
        &&& self.clock.len() == 2
        &&& 0 <= self.en_passant <= 8
        &&& (self.current == Color::Black || self.current == Color::White)
        &&& self.material == -material_sum(self.squares)
        &&& 0 <= self.move_count <= u64::MAX
    }

    /// The secondary rook relocation of a castling move, applied when the
    /// moving piece is the matching king making the exact castling move.
    pub open spec fn castle_updates(s: Seq<Piece>, m: Move) -> Seq<Piece> {
        let movable = s[m.from.index()];
        if movable == Piece::BlackKing && m == (Move {
            from: Location { x: 4, y: 0 },
            to: Location { x: 2, y: 0 },
            extra: Extra::QueenCastle,
        }) {
            s.update(idx(3, 0), Piece::BlackRook).update(idx(0, 0), Piece::Empty)
        } else if movable == Piece::BlackKing && m == (Move {
            from: Location { x: 4, y: 0 },
            to: Location { x: 6, y: 0 },
            extra: Extra::KingCastle,
        }) {
            s.update(idx(5, 0), Piece::BlackRook).update(idx(7, 0), Piece::Empty)
        } else if movable == Piece::WhiteKing && m == (Move {
            from: Location { x: 4, y: 7 },
            to: Location { x: 2, y: 7 },
            extra: Extra::QueenCastle,
        }) {
            s.update(idx(3, 7), Piece::WhiteRook).update(idx(0, 7), Piece::Empty)
        } else if movable == Piece::WhiteKing && m == (Move {
            from: Location { x: 4, y: 7 },
            to: Location { x: 6, y: 7 },
            extra: Extra::KingCastle,
        }) {
            s.update(idx(5, 7), Piece::WhiteRook).update(idx(7, 7), Piece::Empty)
        } else {
            s
        }
    }

    /// The square whose pawn is removed by an en-passant capture: a pawn
    /// moving diagonally onto an empty square takes the pawn it bypassed.
    pub open spec fn ep_capture_square(s: Seq<Piece>, m: Move) -> Option<int> {
        let movable = s[m.from.index()];
        if movable == Piece::BlackPawn && m.to.x != m.from.x && s[m.to.index()]
            == Piece::Empty {
            Some(idx(m.to.x as int, m.to.y - 1))
        } else if movable == Piece::WhitePawn && m.to.x != m.from.x && s[m.to.index()]
            == Piece::Empty {
            Some(idx(m.to.x as int, m.to.y + 1))
        } else {
            None
        }
    }

    /// The piece that ends up on the destination square: the moved piece,
    /// or the promoted piece when the move's tag indicates promotion.
    pub open spec fn moved_piece(s: Seq<Piece>, m: Move) -> Piece {
        let movable = s[m.from.index()];
        match m.extra.promotion_of_color_spec(movable.color_spec()) {
            Some(p) => p,
            None => movable,
        }
    }

    /// The squares after the move: the castling rook relocation, then the
    /// en-passant pawn removal, then the destination and source writes.
    pub open spec fn transition_squares(s: Seq<Piece>, m: Move) -> Seq<Piece> {
        let s1 = Self::castle_updates(s, m);
        let s2 = match Self::ep_capture_square(s, m) {
            Some(i) => s1.update(i, Piece::Empty),
            None => s1,
        };
        s2.update(m.to.index(), Self::moved_piece(s, m)).update(m.from.index(), Piece::Empty)
    }

    /// Castling rights after the move: a king move clears both of its
    /// side's flags, and any move from or onto a corner square clears that
    /// corner's flag.
    pub open spec fn new_rights(self, m: Move) -> Seq<bool> {
        let movable = self.squares[m.from.index()];
        let r = self.rights;
        let r = if movable == Piece::BlackKing {
            r.update(0, false).update(1, false)
        } else {
            r
        };
        let r = if movable == Piece::WhiteKing {
            r.update(2, false).update(3, false)
        } else {
            r
        };
        let r = if (m.from.x == 0 && m.from.y == 0) || (m.to.x == 0 && m.to.y == 0) {
            r.update(0, false)
        } else {
            r
        };
        let r = if (m.from.x == 7 && m.from.y == 0) || (m.to.x == 7 && m.to.y == 0) {
            r.update(1, false)
        } else {
            r
        };
        let r = if (m.from.x == 0 && m.from.y == 7) || (m.to.x == 0 && m.to.y == 7) {
            r.update(2, false)
        } else {
            r
        };
        let r = if (m.from.x == 7 && m.from.y == 7) || (m.to.x == 7 && m.to.y == 7) {
            r.update(3, false)
        } else {
            r
        };
        r
    }

    /// En-passant file after the move: set by a double pawn push, cleared
    /// by every other move. This is the whole en-passant window: the file
    /// survives exactly one ply.
    pub open spec fn new_en_passant(s: Seq<Piece>, m: Move) -> int {
        let movable = s[m.from.index()];
        if movable == Piece::WhitePawn && m.to.y + 2 == m.from.y {
            m.from.x as int
        } else if movable == Piece::BlackPawn && m.to.y - 2 == m.from.y {
            m.from.x as int
        } else {
            8
        }
    }

    /// The structural consistency a move needs for the transition to be
    /// defined: distinct on-board squares, and an en-passant removal square
    /// that stays on the board. Full chess legality is the move
    /// generator's responsibility.
    pub open spec fn move_ok(self, m: Move) -> bool {
        &&& m.wf()
        &&& m.from != m.to
        &&& match Self::ep_capture_square(self.squares, m) {
            Some(i) => 0 <= i < 64,
            None => true,
        }
    }

    /// The complete state transition for a move: pieces relocated, rights
    /// and en-passant file updated, material recomputed, side to move
    /// flipped, ply counter advanced. Clocks are left to the caller.
    pub open spec fn transition_view(self, m: Move) -> BoardView {
        let s3 = Self::transition_squares(self.squares, m);
        BoardView {
            squares: s3,
            current: self.current.other_spec(),
            rights: self.new_rights(m),
            en_passant: Self::new_en_passant(self.squares, m),
            material: -material_sum(s3),
            clock: self.clock,
            move_count: if self.move_count < u64::MAX {
                self.move_count + 1
            } else {
                self.move_count as int
            },
        }
    }
}

/// One board state. Fields mirror the model one for one; `material_score`
/// carries the invariant that it equals the from-scratch material
/// recomputation (White-positive).
#[derive(Clone, Debug)]
pub struct BasicBoard {
    pub board: Vec<Piece>,
    pub current: Color,
    pub castling_rights: Vec<bool>,
    pub en_passant: i8,
    pub material_score: i32,
    pub clock: Vec<u64>,
    pub move_count: u64,
}

impl View for BasicBoard {
    type V = BoardView;

    open spec fn view(&self) -> BoardView {
        BoardView {
            squares: self.board@,
            current: self.current,
            rights: self.castling_rights@,
            en_passant: self.en_passant as int,
            material: self.material_score as int,
            clock: self.clock@,
            move_count: self.move_count as int,
        }
    }
}

/// One square whose occupant changed during a transition: the square's
/// index and its content before and after the write. The list of changes a
/// transition emits lets evaluation and hashing observers maintain their
/// state in time proportional to the squares that changed.
#[derive(Clone, Copy, Eq, PartialEq, Debug, Structural)]
pub struct SquareChange {
    pub index: usize,
    pub was: Piece,
    pub now: Piece,
}

/// The squares after applying a list of changes in order.
pub open spec fn apply_changes(s: Seq<Piece>, ds: Seq<SquareChange>) -> Seq<Piece>
    decreases ds.len(),
{
    if ds.len() == 0 {
        s
    } else {
        apply_changes(s, ds.drop_last()).update(ds.last().index as int, ds.last().now)
    }
}

/// Each change records the content the square actually held when it was
/// written, and stays on the board.
pub open spec fn changes_ok(s: Seq<Piece>, ds: Seq<SquareChange>) -> bool
    decreases ds.len(),
{
    if ds.len() == 0 {
        true
    } else {
        &&& changes_ok(s, ds.drop_last())
        &&& ds.last().index < s.len()
        &&& apply_changes(s, ds.drop_last())[ds.last().index as int] == ds.last().was
    }
}

/// The changes the castling rook relocation emits: the rook written to its
/// new square and its old square emptied, exactly when the move is one of
/// the four castling moves of the king standing on the source square.
pub open spec fn castle_changes_spec(s: Seq<Piece>, m: Move) -> Seq<SquareChange> {
    let movable = s[m.from.index()];
    if movable == Piece::BlackKing && m == (Move {
        from: Location { x: 4, y: 0 },
        to: Location { x: 2, y: 0 },
        extra: Extra::QueenCastle,
    }) {
        seq![
            SquareChange { index: 3, was: s[3], now: Piece::BlackRook },
            SquareChange { index: 0, was: s[0], now: Piece::Empty },
        ]
    } else if movable == Piece::BlackKing && m == (Move {
        from: Location { x: 4, y: 0 },
        to: Location { x: 6, y: 0 },
        extra: Extra::KingCastle,
    }) {
        seq![
            SquareChange { index: 5, was: s[5], now: Piece::BlackRook },
            SquareChange { index: 7, was: s[7], now: Piece::Empty },
        ]
    } else if movable == Piece::WhiteKing && m == (Move {
        from: Location { x: 4, y: 7 },
        to: Location { x: 2, y: 7 },
        extra: Extra::QueenCastle,
    }) {
        seq![
            SquareChange { index: 59, was: s[59], now: Piece::WhiteRook },
            SquareChange { index: 56, was: s[56], now: Piece::Empty },
        ]
    } else if movable == Piece::WhiteKing && m == (Move {
        from: Location { x: 4, y: 7 },
        to: Location { x: 6, y: 7 },
        extra: Extra::KingCastle,
    }) {
        seq![
            SquareChange { index: 61, was: s[61], now: Piece::WhiteRook },
            SquareChange { index: 63, was: s[63], now: Piece::Empty },
        ]
    } else {
        Seq::empty()
    }
}

/// Exactly the change list a transition emits, in the order it is written:
/// the castling rook's two writes when the move castles, the bypassed
/// pawn's removal when it captures en passant, then the destination and
/// source writes. Every entry is written for a square the move touches and
/// records the square's content before the write, so observers see each
/// touched square's old and new occupant once.
pub open spec fn transition_changes_spec(s: Seq<Piece>, m: Move) -> Seq<SquareChange> {
    let cs = castle_changes_spec(s, m);
    let es = match BoardView::ep_capture_square(s, m) {
        Some(i) => seq![SquareChange { index: i as usize, was: s[i], now: Piece::Empty }],
        None => Seq::empty(),
    };
    cs + es + seq![
        SquareChange {
            index: m.to.index() as usize,
            was: s[m.to.index()],
            now: BoardView::moved_piece(s, m),
        },
        SquareChange { index: m.from.index() as usize, was: s[m.from.index()], now: Piece::Empty },
    ]
}

pub proof fn lemma_apply_changes_len(s: Seq<Piece>, ds: Seq<SquareChange>)
    requires
        changes_ok(s, ds),
    ensures
        apply_changes(s, ds).len() == s.len(),
    decreases ds.len(),
{
    if ds.len() > 0 {
        lemma_apply_changes_len(s, ds.drop_last());
    }
}

/// A prefix of a consistent change list is consistent.
pub proof fn lemma_changes_ok_prefix(s: Seq<Piece>, ds: Seq<SquareChange>, j: int)
    requires
        changes_ok(s, ds),
        0 <= j <= ds.len(),
    ensures
        changes_ok(s, ds.take(j)),
    decreases ds.len() - j,
{
    if j == ds.len() {
        assert(ds.take(j) =~= ds);
    } else {
        lemma_changes_ok_prefix(s, ds, j + 1);
        assert(ds.take(j + 1).drop_last() =~= ds.take(j));
    }
}

/// Walking a change list one step extends the applied board by one write.
pub proof fn lemma_apply_changes_take_step(s: Seq<Piece>, ds: Seq<SquareChange>, k: int)
    requires
        0 <= k < ds.len(),
    ensures
        apply_changes(s, ds.take(k + 1)) == apply_changes(s, ds.take(k)).update(
            ds[k].index as int,
            ds[k].now,
        ),
{
    assert(ds.take(k + 1).drop_last() =~= ds.take(k));
    assert(ds.take(k + 1).last() == ds[k]);
}

/// Copies a vector of plain values element by element.
fn copy_vec<T: Copy>(v: &Vec<T>) -> (r: Vec<T>)
    ensures
        r@ == v@,
{
    let mut r: Vec<T> = Vec::new();
    let mut i: usize = 0;
    while i < v.len()
        invariant
            i <= v.len(),
            r@ =~= v@.take(i as int),
        decreases v.len() - i,
    {
        r.push(v[i]);
        assert(v@.take(i + 1) =~= v@.take(i as int).push(v@[i as int]));
        i += 1;
    }
    assert(v@.take(v.len() as int) =~= v@);
    r
}

/// Writes one square, keeps the running White-positive material score
/// equal to the from-scratch recomputation, and records the change.
fn write_square(
    sq: &mut Vec<Piece>,
    score: &mut i64,
    ds: &mut Vec<SquareChange>,
    i: usize,
    p: Piece,
    Ghost(s0): Ghost<Seq<Piece>>,
)
    requires
        s0.len() == 64,
        old(sq)@ == apply_changes(s0, old(ds)@),
        changes_ok(s0, old(ds)@),
        old(sq)@.len() == 64,
        i < 64,
        *old(score) == -material_sum(old(sq)@),
    ensures
        final(sq)@ == old(sq)@.update(i as int, p),
        final(sq)@ == apply_changes(s0, final(ds)@),
        changes_ok(s0, final(ds)@),
        final(ds)@ == old(ds)@.push(SquareChange { index: i, was: old(sq)@[i as int], now: p }),
        *final(score) == -material_sum(final(sq)@),
        final(sq)@.len() == 64,
{
    let old_p = sq[i];
    let change = SquareChange { index: i, was: old_p, now: p };
    proof {
        lemma_sum_update(sq@, worth_at(), i as int, p);
        lemma_material_sum_bound(sq@);
        assert(ds@.push(change).drop_last() =~= ds@);
    }
    *score = *score + (old_p.material_worth() as i64) - (p.material_worth() as i64);
    sq.set(i, p);
    ds.push(change);
}

impl BasicBoard {
    /// An empty board with both clocks set to the given time budget.
    pub fn new(time_limit: u64) -> (r: BasicBoard)
        ensures
            r.wf(),
            r@.squares =~= Seq::new(64, |i: int| Piece::Empty),
            r@.current == Color::White,
            r@.rights =~= seq![true, true, true, true],
            r@.en_passant == 8,
            r@.material == 0,
            r@.clock =~= seq![time_limit, time_limit],
            r@.move_count == 0,
    {
        let mut board: Vec<Piece> = Vec::new();
        let mut i: usize = 0;
        while i < 64
            invariant
                i <= 64,
                board@.len() == i,
                material_sum(board@) == 0,
                board@ =~= Seq::new(i as nat, |j: int| Piece::Empty),
            decreases 64 - i,
        {
            proof {
                lemma_sum_push(board@, worth_at(), Piece::Empty);
            }
            board.push(Piece::Empty);
            assert(board@ =~= Seq::new((i + 1) as nat, |j: int| Piece::Empty));
            i += 1;
        }
        let mut castling_rights: Vec<bool> = Vec::new();
        castling_rights.push(true);
        castling_rights.push(true);
        castling_rights.push(true);
        castling_rights.push(true);
        let mut clock: Vec<u64> = Vec::new();
        clock.push(time_limit);
        clock.push(time_limit);
        BasicBoard {
            board,
            current: Color::White,
            castling_rights,
            en_passant: 8,
            material_score: 0,
            clock,
            move_count: 0,
        }
    }

    /// The standard chess starting arrangement at square index `i`.
    pub open spec fn start_piece(i: int) -> Piece {
        let x = i % 8;
        let y = i / 8;
        if y == 1 {
            Piece::BlackPawn
        } else if y == 6 {
            Piece::WhitePawn
        } else if y == 0 || y == 7 {
            let white = y == 7;
            if x == 0 || x == 7 {
                if white {
                    Piece::WhiteRook
                } else {
                    Piece::BlackRook
                }
            } else if x == 1 || x == 6 {
                if white {
                    Piece::WhiteKnight
                } else {
                    Piece::BlackKnight
                }
            } else if x == 2 || x == 5 {
                if white {
                    Piece::WhiteBishop
                } else {
                    Piece::BlackBishop
                }
            } else if x == 3 {
                if white {
                    Piece::WhiteQueen
                } else {
                    Piece::BlackQueen
                }
            } else {
                if white {
                    Piece::WhiteKing
                } else {
                    Piece::BlackKing
                }
            }
        } else {
            Piece::Empty
        }
    }

    /// The standard starting position: White to move, full castling
    /// rights, no en-passant file, unlimited clocks, and a material score
    /// computed from scratch.
    pub fn default_board() -> (r: BasicBoard)
        ensures
            r.wf(),
            r@.squares =~= Seq::new(64, |i: int| Self::start_piece(i)),
            r@.current == Color::White,
            r@.rights =~= seq![true, true, true, true],
            r@.en_passant == 8,
            r@.move_count == 0,
    {
        let mut board: Vec<Piece> = Vec::new();
        let mut score: i64 = 0;
        let mut i: usize = 0;
        while i < 64
            invariant
                i <= 64,
                board@.len() == i,
                board@ =~= Seq::new(i as nat, |j: int| Self::start_piece(j)),
                score == -material_sum(board@),
                -20000 * (i as int) <= score <= 20000 * (i as int),
            decreases 64 - i,
        {
            let x = i % 8;
            let y = i / 8;
            let p: Piece = if y == 1 {
                Piece::BlackPawn
            } else if y == 6 {
                Piece::WhitePawn
            } else if y == 0 || y == 7 {
                let white = y == 7;
                if x == 0 || x == 7 {
                    if white {
                        Piece::WhiteRook
                    } else {
                        Piece::BlackRook
                    }
                } else if x == 1 || x == 6 {
                    if white {
                        Piece::WhiteKnight
                    } else {
                        Piece::BlackKnight
                    }
                } else if x == 2 || x == 5 {
                    if white {
                        Piece::WhiteBishop
                    } else {
                        Piece::BlackBishop
                    }
                } else if x == 3 {
                    if white {
                        Piece::WhiteQueen
                    } else {
                        Piece::BlackQueen
                    }
                } else {
                    if white {
                        Piece::WhiteKing
                    } else {
                        Piece::BlackKing
                    }
                }
            } else {
                Piece::Empty
            };
            assert(p == Self::start_piece(i as int));
            proof {
                lemma_sum_push(board@, worth_at(), p);
            }
            score = score - (p.material_worth() as i64);
            board.push(p);
            assert(board@ =~= Seq::new((i + 1) as nat, |j: int| Self::start_piece(j)));
            i += 1;
        }
        let mut castling_rights: Vec<bool> = Vec::new();
        castling_rights.push(true);
        castling_rights.push(true);
        castling_rights.push(true);
        castling_rights.push(true);
        let mut clock: Vec<u64> = Vec::new();
        clock.push(u64::MAX);
        clock.push(u64::MAX);
        proof {
            lemma_material_sum_bound(board@);
        }
        BasicBoard {
            board,
            current: Color::White,
            castling_rights,
            en_passant: 8,
            material_score: score as i32,
            clock,
            move_count: 0,
        }
    }

    pub open spec fn wf(self) -> bool {
        self@.wf()
    }

    pub fn piece_at(&self, l: Location) -> (r: Piece)
        requires
            self.wf(),
            l.wf(),
        ensures
            r == self@.squares[l.index()],
    {
        self.board[(l.y as usize) * 8 + (l.x as usize)]
    }

    /// Replaces the piece on one square, keeping the material score equal
    /// to the from-scratch recomputation. Stands in for direct board
    /// mutation when setting up positions.
    pub fn set_piece(&mut self, l: Location, p: Piece)
        requires
            old(self).wf(),
            l.wf(),
        ensures
            final(self).wf(),
            final(self)@.squares == old(self)@.squares.update(l.index(), p),
            final(self)@.current == old(self)@.current,
            final(self)@.rights == old(self)@.rights,
            final(self)@.en_passant == old(self)@.en_passant,
            final(self)@.clock == old(self)@.clock,
            final(self)@.move_count == old(self)@.move_count,
    {
        let i = (l.y as usize) * 8 + (l.x as usize);
        let mut sq = copy_vec(&self.board);
        let mut score: i64 = self.material_score as i64;
        let mut ds: Vec<SquareChange> = Vec::new();
        assert(ds@ =~= Seq::<SquareChange>::empty());
        write_square(&mut sq, &mut score, &mut ds, i, p, Ghost(self.board@));
        proof {
            lemma_material_sum_bound(sq@);
        }
        self.board = sq;
        self.material_score = score as i32;
    }

    /// Changes the side to move; for setting up positions.
    pub fn set_current(&mut self, c: Color)
        requires
            old(self).wf(),
            c == Color::Black || c == Color::White,
        ensures
            final(self).wf(),
            final(self)@ == (BoardView { current: c, ..old(self)@ }),
    {
        self.current = c;
    }

    /// Changes the en-passant file (8 meaning none); for setting up
    /// positions.
    pub fn set_en_passant(&mut self, ep: i8)
        requires
            old(self).wf(),
            0 <= ep <= 8,
        ensures
            final(self).wf(),
            final(self)@ == (BoardView { en_passant: ep as int, ..old(self)@ }),
    {
        self.en_passant = ep;
    }

    /// Clears or sets one castling-rights flag; for setting up positions.
    pub fn set_castling_right(&mut self, i: usize, b: bool)
        requires
            old(self).wf(),
            i < 4,
        ensures
            final(self).wf(),
            final(self)@ == (BoardView {
                rights: old(self)@.rights.update(i as int, b),
                ..old(self)@
            }),
    {
        let mut r = copy_vec(&self.castling_rights);
        r.set(i, b);
        self.castling_rights = r;
    }

    pub fn current_player(&self) -> (r: Color)
        ensures
            r == self@.current,
    {
        self.current
    }

    pub fn get_en_passant(&self) -> (r: i8)
        ensures
            r == self@.en_passant,
    {
        self.en_passant
    }

    pub fn get_material_score(&self) -> (r: i32)
        ensures
            r == self@.material,
    {
        self.material_score
    }

    pub fn get_castling_rights(&self) -> (r: [bool; 4])
        requires
            self.wf(),
        ensures
            r@ =~= self@.rights,
    {
        [
            self.castling_rights[0],
            self.castling_rights[1],
            self.castling_rights[2],
            self.castling_rights[3],
        ]
    }

    pub fn get_clock(&self) -> (r: [u64; 2])
        requires
            self.wf(),
        ensures
            r@ =~= self@.clock,
    {
        [self.clock[0], self.clock[1]]
    }

    /// Decrements the given side's remaining clock by the elapsed
    /// milliseconds, saturating at zero; nothing else changes.
    pub fn decrement_clock(&mut self, side: Color, elapsed: u64)
        requires
            old(self).wf(),
            side == Color::Black || side == Color::White,
        ensures
            final(self).wf(),
            final(self)@ == (BoardView {
                clock: old(self)@.clock.update(
                    if side == Color::White {
                        0int
                    } else {
                        1int
                    },
                    (if old(self)@.clock[if side == Color::White {
                        0int
                    } else {
                        1int
                    }] >= elapsed {
                        (old(self)@.clock[if side == Color::White {
                            0int
                        } else {
                            1int
                        }] - elapsed) as u64
                    } else {
                        0u64
                    }),
                ),
                ..old(self)@
            }),
    {
        let i: usize = if side == Color::White {
            0
        } else {
            1
        };
        let current = self.clock[i];
        let next = if current >= elapsed {
            current - elapsed
        } else {
            0
        };
        let mut clock = copy_vec(&self.clock);
        clock.set(i, next);
        self.clock = clock;
    }

    /// Sets both clocks to the given number of seconds, stored as
    /// milliseconds.
    pub fn set_clock(&mut self, time: u64)
        requires
            old(self).wf(),
            time <= 0xffff_ffff,
        ensures
            final(self).wf(),
            final(self)@ == (BoardView {
                clock: seq![(time * 1000) as u64, (time * 1000) as u64],
                ..old(self)@
            }),
    {
        let ms = time * 1000;
        let mut clock: Vec<u64> = Vec::new();
        clock.push(ms);
        clock.push(ms);
        assert(clock@ =~= seq![ms, ms]);
        self.clock = clock;
    }

    /// Applies a move and returns the next board. The complete behaviour
    /// is given by `BoardView::transition_view`; the incrementally
    /// maintained material score is proved equal to the from-scratch
    /// recomputation on the new squares.
    pub fn transition(&self, m: Move) -> (r: BasicBoard)
        requires
            self.wf(),
            self@.move_ok(m),
        ensures
            r@ == self@.transition_view(m),
            r.wf(),
    {
        let (r, _) = self.transition_with_changes(m);
        r
    }

    /// Like `transition`, but also returns the list of square-level
    /// changes the move caused, in the order they were applied. Observers
    /// (evaluation, hashing) fold over this list to maintain their own
    /// incremental state. The list is pinned exactly: it holds the castle
    /// rook's writes, the en-passant removal, and the destination and
    /// source writes of this move, and nothing else.
    pub fn transition_with_changes(&self, m: Move) -> (r: (BasicBoard, Vec<SquareChange>))
        requires
            self.wf(),
            self@.move_ok(m),
        ensures
            r.0@ == self@.transition_view(m),
            r.0.wf(),
            changes_ok(self@.squares, r.1@),
            apply_changes(self@.squares, r.1@) == r.0@.squares,
            r.1@ == transition_changes_spec(self@.squares, m),
    {
        let ghost s0 = self.board@;
        let from_idx = (m.from.y as usize) * 8 + (m.from.x as usize);
        let to_idx = (m.to.y as usize) * 8 + (m.to.x as usize);
        let movable = self.board[from_idx];
        let replaces = self.board[to_idx];

        let mut sq = copy_vec(&self.board);
        let mut score: i64 = self.material_score as i64;
        let mut ds: Vec<SquareChange> = Vec::new();

        apply_castle(&mut sq, &mut score, &mut ds, m);
        apply_en_passant(&mut sq, &mut score, &mut ds, m, movable, replaces, Ghost(s0));

        // The move itself, with promotion substitution.
        let set_piece = match m.extra.promotion_of_color(movable.color()) {
            Some(p) => p,
            None => movable,
        };
        write_square(&mut sq, &mut score, &mut ds, to_idx, set_piece, Ghost(s0));
        write_square(&mut sq, &mut score, &mut ds, from_idx, Piece::Empty, Ghost(s0));
        assert(sq@ == BoardView::transition_squares(s0, m));
        assert(ds@ =~= transition_changes_spec(s0, m));

        let rights = self.compute_rights(m);

        // En-passant file.
        let mut ep: i8 = 8;
        if movable == Piece::WhitePawn && m.to.y + 2 == m.from.y {
            ep = m.from.x;
        }
        if movable == Piece::BlackPawn && m.to.y - 2 == m.from.y {
            ep = m.from.x;
        }
        assert(ep as int == BoardView::new_en_passant(s0, m));

        let move_count = if self.move_count < u64::MAX {
            self.move_count + 1
        } else {
            self.move_count
        };

        proof {
            lemma_material_sum_bound(sq@);
        }
        let r = BasicBoard {
            board: sq,
            current: self.current.other(),
            castling_rights: rights,
            en_passant: ep,
            material_score: score as i32,
            clock: copy_vec(&self.clock),
            move_count,
        };
        assert(r@ =~= self@.transition_view(m));
        (r, ds)
    }

    /// The castling-rights flags after a move, per `BoardView::new_rights`.
    fn compute_rights(&self, m: Move) -> (r: Vec<bool>)
        requires
            self.wf(),
            m.wf(),
        ensures
            r@ == self@.new_rights(m),
    {
        let from_idx = (m.from.y as usize) * 8 + (m.from.x as usize);
        let movable = self.board[from_idx];
        let mut r0 = self.castling_rights[0];
        let mut r1 = self.castling_rights[1];
        let mut r2 = self.castling_rights[2];
        let mut r3 = self.castling_rights[3];
        if movable == Piece::BlackKing {
            r0 = false;
            r1 = false;
        }
        if movable == Piece::WhiteKing {
            r2 = false;
            r3 = false;
        }
        if (m.from.x == 0 && m.from.y == 0) || (m.to.x == 0 && m.to.y == 0) {
            r0 = false;
        }
        if (m.from.x == 7 && m.from.y == 0) || (m.to.x == 7 && m.to.y == 0) {
            r1 = false;
        }
        if (m.from.x == 0 && m.from.y == 7) || (m.to.x == 0 && m.to.y == 7) {
            r2 = false;
        }
        if (m.from.x == 7 && m.from.y == 7) || (m.to.x == 7 && m.to.y == 7) {
            r3 = false;
        }
        let mut rights: Vec<bool> = Vec::new();
        rights.push(r0);
        rights.push(r1);
        rights.push(r2);
        rights.push(r3);
        assert(rights@ =~= self@.new_rights(m));
        rights
    }
}

/// The castling rook relocation, when the move is the exact castling move
/// of the king standing on the source square.
fn apply_castle(sq: &mut Vec<Piece>, score: &mut i64, ds: &mut Vec<SquareChange>, m: Move)
    requires
        old(sq)@.len() == 64,
        old(ds)@.len() == 0,
        m.wf(),
        *old(score) == -material_sum(old(sq)@),
    ensures
        final(sq)@ == BoardView::castle_updates(old(sq)@, m),
        final(sq)@ == apply_changes(old(sq)@, final(ds)@),
        changes_ok(old(sq)@, final(ds)@),
        final(ds)@ == castle_changes_spec(old(sq)@, m),
        *final(score) == -material_sum(final(sq)@),
        final(sq)@.len() == 64,
{
    let ghost s0 = sq@;
    assert(ds@ =~= Seq::<SquareChange>::empty());
    let from_idx = (m.from.y as usize) * 8 + (m.from.x as usize);
    let movable = sq[from_idx];
    if movable == Piece::BlackKing {
        if m.from.x == 4 && m.from.y == 0 && m.to.x == 2 && m.to.y == 0 && m.extra
            == Extra::QueenCastle {
            write_square(sq, score, ds, 3, Piece::BlackRook, Ghost(s0));
            write_square(sq, score, ds, 0, Piece::Empty, Ghost(s0));
            assert(ds@ =~= castle_changes_spec(s0, m));
        } else if m.from.x == 4 && m.from.y == 0 && m.to.x == 6 && m.to.y == 0 && m.extra
            == Extra::KingCastle {
            write_square(sq, score, ds, 5, Piece::BlackRook, Ghost(s0));
            write_square(sq, score, ds, 7, Piece::Empty, Ghost(s0));
            assert(ds@ =~= castle_changes_spec(s0, m));
        } else {
            assert(ds@ =~= castle_changes_spec(s0, m));
        }
    } else if movable == Piece::WhiteKing {
        if m.from.x == 4 && m.from.y == 7 && m.to.x == 2 && m.to.y == 7 && m.extra
            == Extra::QueenCastle {
            write_square(sq, score, ds, 3 + 7 * 8, Piece::WhiteRook, Ghost(s0));
            write_square(sq, score, ds, 0 + 7 * 8, Piece::Empty, Ghost(s0));
            assert(ds@ =~= castle_changes_spec(s0, m));
        } else if m.from.x == 4 && m.from.y == 7 && m.to.x == 6 && m.to.y == 7 && m.extra
            == Extra::KingCastle {
            write_square(sq, score, ds, 5 + 7 * 8, Piece::WhiteRook, Ghost(s0));
            write_square(sq, score, ds, 7 + 7 * 8, Piece::Empty, Ghost(s0));
            assert(ds@ =~= castle_changes_spec(s0, m));
        } else {
            assert(ds@ =~= castle_changes_spec(s0, m));
        }
    } else {
        assert(ds@ =~= castle_changes_spec(s0, m));
    }
}

/// The en-passant pawn removal: a pawn moving diagonally onto an empty
/// square takes the pawn it bypassed.
fn apply_en_passant(
    sq: &mut Vec<Piece>,
    score: &mut i64,
    ds: &mut Vec<SquareChange>,
    m: Move,
    movable: Piece,
    replaces: Piece,
    Ghost(s0): Ghost<Seq<Piece>>,
)
    requires
        s0.len() == 64,
        old(sq)@ == apply_changes(s0, old(ds)@),
        changes_ok(s0, old(ds)@),
        old(sq)@.len() == 64,
        m.wf(),
        *old(score) == -material_sum(old(sq)@),
        movable == s0[m.from.index()],
        replaces == s0[m.to.index()],
        (match BoardView::ep_capture_square(s0, m) {
            Some(i) => 0 <= i < 64,
            None => true,
        }),
    ensures
        final(sq)@ == (match BoardView::ep_capture_square(s0, m) {
            Some(i) => old(sq)@.update(i, Piece::Empty),
            None => old(sq)@,
        }),
        final(sq)@ == apply_changes(s0, final(ds)@),
        changes_ok(s0, final(ds)@),
        final(ds)@ == old(ds)@ + (match BoardView::ep_capture_square(s0, m) {
            Some(i) => seq![SquareChange { index: i as usize, was: old(sq)@[i], now: Piece::Empty }],
            None => Seq::<SquareChange>::empty(),
        }),
        *final(score) == -material_sum(final(sq)@),
        final(sq)@.len() == 64,
{
    let ghost ds0 = ds@;
    if movable == Piece::BlackPawn && m.to.x != m.from.x && replaces.is_empty() {
        let i = ((m.to.y - 1) as usize) * 8 + (m.to.x as usize);
        write_square(sq, score, ds, i, Piece::Empty, Ghost(s0));
        proof {
            let gi = BoardView::ep_capture_square(s0, m)->Some_0;
            assert(ds@ =~= ds0 + seq![
                SquareChange { index: gi as usize, was: old(sq)@[gi], now: Piece::Empty },
            ]);
        }
    } else if movable == Piece::WhitePawn && m.to.x != m.from.x && replaces.is_empty() {
        let i = ((m.to.y + 1) as usize) * 8 + (m.to.x as usize);
        write_square(sq, score, ds, i, Piece::Empty, Ghost(s0));
        proof {
            let gi = BoardView::ep_capture_square(s0, m)->Some_0;
            assert(ds@ =~= ds0 + seq![
                SquareChange { index: gi as usize, was: old(sq)@[gi], now: Piece::Empty },
            ]);
        }
    } else {
        assert(ds@ =~= ds0 + Seq::<SquareChange>::empty());
    }
}

} // verus!
