//! Pseudo-legal move generation per piece type. Every generated move is
//! proved consistent with the board it came from (`gen_ok`): it moves an
//! actual piece between distinct squares, capture tags point at occupied
//! squares, an en-passant capture exists only while the en-passant file is
//! open for exactly that square, and a castling move exists only with the
//! rights flag set, the squares between king and rook empty, and the king
//! neither in check nor passing through an attacked square.

use vstd::prelude::*;
use crate::color::Color;
use crate::piece::Piece;
use crate::chess_move::{Location, Move, Extra};
use crate::basic::{BasicBoard, BoardView, idx};
use crate::king_check::{in_check, square_attacked_spec, square_attacked, king_check, on_board};

verus! {

/// An en-passant capture that is actually open: the bypassed pawn square
/// is occupied and the en-passant file points at the destination.
pub open spec fn ep_capture_ok(v: BoardView, m: Move) -> bool {
    match BoardView::ep_capture_square(v.squares, m) {
        Some(i) => 0 <= i < 64 && v.squares[i] != Piece::Empty && v.en_passant == m.to.x,
        None => false,
    }
}

/// The conditions under which a castling move may be generated: the exact
/// king move with its king on its home square, the rights flag still set,
/// every square between king and rook empty, the king not currently in
/// check, and neither the square the king passes through nor the square
/// it lands on attacked.
pub open spec fn castle_gen_ok(v: BoardView, m: Move) -> bool {
    if m == (Move { from: Location { x: 4, y: 0 }, to: Location { x: 2, y: 0 }, extra: Extra::QueenCastle }) {
        &&& v.squares[idx(4, 0)] == Piece::BlackKing
        &&& v.rights[0]
        &&& v.squares[idx(1, 0)] == Piece::Empty
        &&& v.squares[idx(2, 0)] == Piece::Empty
        &&& v.squares[idx(3, 0)] == Piece::Empty
        &&& !in_check(v.squares, Color::Black)
        &&& !square_attacked_spec(v.squares, 3, 0, Color::White)
        &&& !square_attacked_spec(v.squares, 2, 0, Color::White)
    } else if m == (Move { from: Location { x: 4, y: 0 }, to: Location { x: 6, y: 0 }, extra: Extra::KingCastle }) {
        &&& v.squares[idx(4, 0)] == Piece::BlackKing
        &&& v.rights[1]
        &&& v.squares[idx(5, 0)] == Piece::Empty
        &&& v.squares[idx(6, 0)] == Piece::Empty
        &&& !in_check(v.squares, Color::Black)
        &&& !square_attacked_spec(v.squares, 5, 0, Color::White)
        &&& !square_attacked_spec(v.squares, 6, 0, Color::White)
    } else if m == (Move { from: Location { x: 4, y: 7 }, to: Location { x: 2, y: 7 }, extra: Extra::QueenCastle }) {
        &&& v.squares[idx(4, 7)] == Piece::WhiteKing
        &&& v.rights[2]
        &&& v.squares[idx(1, 7)] == Piece::Empty
        &&& v.squares[idx(2, 7)] == Piece::Empty
        &&& v.squares[idx(3, 7)] == Piece::Empty
        &&& !in_check(v.squares, Color::White)
        &&& !square_attacked_spec(v.squares, 3, 7, Color::Black)
        &&& !square_attacked_spec(v.squares, 2, 7, Color::Black)
    } else if m == (Move { from: Location { x: 4, y: 7 }, to: Location { x: 6, y: 7 }, extra: Extra::KingCastle }) {
        &&& v.squares[idx(4, 7)] == Piece::WhiteKing
        &&& v.rights[3]
        &&& v.squares[idx(5, 7)] == Piece::Empty
        &&& v.squares[idx(6, 7)] == Piece::Empty
        &&& !in_check(v.squares, Color::White)
        &&& !square_attacked_spec(v.squares, 5, 7, Color::Black)
        &&& !square_attacked_spec(v.squares, 6, 7, Color::Black)
    } else {
        false
    }
}

/// Everything the board transition and the search rely on of a generated
/// move.
pub open spec fn gen_ok(v: BoardView, m: Move) -> bool {
    &&& v.move_ok(m)
    &&& v.squares[m.from.index()] != Piece::Empty
    &&& (m.extra == Extra::Captures ==> v.squares[m.to.index()] != Piece::Empty)
    &&& (m.extra.is_capturing_promotion_spec() ==> v.squares[m.to.index()] != Piece::Empty)
    &&& (m.extra == Extra::EnPassantCaptures ==> ep_capture_ok(v, m))
    &&& ((m.extra == Extra::KingCastle || m.extra == Extra::QueenCastle) ==> castle_gen_ok(v, m))
}

/// The moves a slider on `l` has along direction (dx, dy), starting the
/// walk at (x, y) with `fuel` steps left: quiet moves up to the first
/// blocker, plus the capture of a blocking enemy piece.
pub open spec fn ray_moves_spec(
    v: BoardView,
    l: Location,
    dx: int,
    dy: int,
    x: int,
    y: int,
    fuel: nat,
) -> Seq<Move>
    decreases fuel,
{
    if fuel == 0 || !on_board(x, y) {
        Seq::empty()
    } else {
        let p = v.squares[idx(x, y)];
        if p != Piece::Empty {
            if p.color_spec() != v.squares[l.index()].color_spec() {
                seq![Move { from: l, to: Location { x: x as i8, y: y as i8 }, extra: Extra::Captures }]
            } else {
                Seq::empty()
            }
        } else {
            seq![Move { from: l, to: Location { x: x as i8, y: y as i8 }, extra: Extra::Quiet }]
                + ray_moves_spec(v, l, dx, dy, x + dx, y + dy, (fuel - 1) as nat)
        }
    }
}

/// One whole ray from `l`.
pub open spec fn ray_full_spec(v: BoardView, l: Location, dx: int, dy: int) -> Seq<Move> {
    ray_moves_spec(v, l, dx, dy, l.x + dx, l.y + dy, 8)
}

/// Exactly the moves `bishop_moves` returns: the four diagonal rays.
pub open spec fn bishop_moves_spec(v: BoardView, l: Location) -> Seq<Move> {
    ray_full_spec(v, l, -1, -1) + ray_full_spec(v, l, 1, -1) + ray_full_spec(v, l, 1, 1)
        + ray_full_spec(v, l, -1, 1)
}

/// Exactly the moves `rook_moves` returns: the four straight rays.
pub open spec fn rook_moves_spec(v: BoardView, l: Location) -> Seq<Move> {
    ray_full_spec(v, l, 1, 0) + ray_full_spec(v, l, -1, 0) + ray_full_spec(v, l, 0, 1)
        + ray_full_spec(v, l, 0, -1)
}

/// Exactly the moves `queen_moves` returns.
pub open spec fn queen_moves_spec(v: BoardView, l: Location) -> Seq<Move> {
    bishop_moves_spec(v, l) + rook_moves_spec(v, l)
}

/// The black pawn's forward moves: a single push (promoting on the last
/// rank), and the double push from its home rank.
pub open spec fn pawn_black_forward_spec(v: BoardView, l: Location) -> Seq<Move> {
    let front = Location { x: l.x, y: (l.y + 1) as i8 };
    if v.squares[idx(l.x as int, l.y + 1)] == Piece::Empty {
        if l.y == 6 {
            seq![
                Move { from: l, to: front, extra: Extra::KnightPromotion },
                Move { from: l, to: front, extra: Extra::BishopPromotion },
                Move { from: l, to: front, extra: Extra::RookPromotion },
                Move { from: l, to: front, extra: Extra::QueenPromotion },
            ]
        } else {
            let single = seq![Move { from: l, to: front, extra: Extra::Quiet }];
            if l.y == 1 && v.squares[idx(l.x as int, l.y + 2)] == Piece::Empty {
                single + seq![
                    Move {
                        from: l,
                        to: Location { x: l.x, y: (l.y + 2) as i8 },
                        extra: Extra::DoublePawn,
                    },
                ]
            } else {
                single
            }
        }
    } else {
        Seq::empty()
    }
}

/// The black pawn's diagonal capture toward `l.x + dx`, promoting on the
/// last rank.
pub open spec fn pawn_black_capture_spec(v: BoardView, l: Location, dx: int) -> Seq<Move> {
    let x = l.x + dx;
    let y = l.y + 1;
    if 0 <= x < 8 {
        let p = v.squares[idx(x, y)];
        if p != Piece::Empty && p.color_spec() != v.squares[l.index()].color_spec() {
            let to = Location { x: x as i8, y: y as i8 };
            if l.y == 6 {
                seq![
                    Move { from: l, to: to, extra: Extra::KnightPromotionCapture },
                    Move { from: l, to: to, extra: Extra::BishopPromotionCapture },
                    Move { from: l, to: to, extra: Extra::RookPromotionCapture },
                    Move { from: l, to: to, extra: Extra::QueenPromotionCapture },
                ]
            } else {
                seq![Move { from: l, to: to, extra: Extra::Captures }]
            }
        } else {
            Seq::empty()
        }
    } else {
        Seq::empty()
    }
}

/// The black pawn's en-passant capture toward `l.x + dx`, offered exactly
/// while the en-passant file points there, the pawn stands on its fifth
/// rank, the landing square is empty and the bypassed pawn is present.
pub open spec fn pawn_black_ep_spec(v: BoardView, l: Location, dx: int) -> Seq<Move> {
    let x = l.x + dx;
    if v.en_passant != 8 && l.y == 4 && 0 <= x < 8 && x == v.en_passant && v.squares[idx(
        x,
        l.y + 1,
    )] == Piece::Empty && v.squares[idx(x, l.y as int)] != Piece::Empty {
        seq![
            Move {
                from: l,
                to: Location { x: x as i8, y: (l.y + 1) as i8 },
                extra: Extra::EnPassantCaptures,
            },
        ]
    } else {
        Seq::empty()
    }
}

/// Exactly the moves `pawn_moves_black` returns.
pub open spec fn pawn_moves_black_spec(v: BoardView, l: Location) -> Seq<Move> {
    if l.y == 7 {
        Seq::empty()
    } else {
        (((pawn_black_forward_spec(v, l) + pawn_black_capture_spec(v, l, -1))
            + pawn_black_capture_spec(v, l, 1)) + pawn_black_ep_spec(v, l, 1))
            + pawn_black_ep_spec(v, l, -1)
    }
}

/// The white pawn's forward moves: a single push (promoting on the last
/// rank), and the double push from its home rank.
pub open spec fn pawn_white_forward_spec(v: BoardView, l: Location) -> Seq<Move> {
    let front = Location { x: l.x, y: (l.y - 1) as i8 };
    if v.squares[idx(l.x as int, l.y - 1)] == Piece::Empty {
        if l.y == 1 {
            seq![
                Move { from: l, to: front, extra: Extra::KnightPromotion },
                Move { from: l, to: front, extra: Extra::BishopPromotion },
                Move { from: l, to: front, extra: Extra::RookPromotion },
                Move { from: l, to: front, extra: Extra::QueenPromotion },
            ]
        } else {
            let single = seq![Move { from: l, to: front, extra: Extra::Quiet }];
            if l.y == 6 && v.squares[idx(l.x as int, l.y - 2)] == Piece::Empty {
                single + seq![
                    Move {
                        from: l,
                        to: Location { x: l.x, y: (l.y - 2) as i8 },
                        extra: Extra::DoublePawn,
                    },
                ]
            } else {
                single
            }
        }
    } else {
        Seq::empty()
    }
}

/// The white pawn's diagonal capture toward `l.x + dx`, promoting on the
/// last rank.
pub open spec fn pawn_white_capture_spec(v: BoardView, l: Location, dx: int) -> Seq<Move> {
    let x = l.x + dx;
    let y = l.y - 1;
    if 0 <= x < 8 {
        let p = v.squares[idx(x, y)];
        if p != Piece::Empty && p.color_spec() != v.squares[l.index()].color_spec() {
            let to = Location { x: x as i8, y: y as i8 };
            if l.y == 1 {
                seq![
                    Move { from: l, to: to, extra: Extra::KnightPromotionCapture },
                    Move { from: l, to: to, extra: Extra::BishopPromotionCapture },
                    Move { from: l, to: to, extra: Extra::RookPromotionCapture },
                    Move { from: l, to: to, extra: Extra::QueenPromotionCapture },
                ]
            } else {
                seq![Move { from: l, to: to, extra: Extra::Captures }]
            }
        } else {
            Seq::empty()
        }
    } else {
        Seq::empty()
    }
}

/// The white pawn's en-passant capture toward `l.x + dx`, offered exactly
/// while the en-passant file points there, the pawn stands on its fifth
/// rank, the landing square is empty and the bypassed pawn is present.
pub open spec fn pawn_white_ep_spec(v: BoardView, l: Location, dx: int) -> Seq<Move> {
    let x = l.x + dx;
    if v.en_passant != 8 && l.y == 3 && 0 <= x < 8 && x == v.en_passant && v.squares[idx(
        x,
        l.y - 1,
    )] == Piece::Empty && v.squares[idx(x, l.y as int)] != Piece::Empty {
        seq![
            Move {
                from: l,
                to: Location { x: x as i8, y: (l.y - 1) as i8 },
                extra: Extra::EnPassantCaptures,
            },
        ]
    } else {
        Seq::empty()
    }
}

/// Exactly the moves `pawn_moves_white` returns.
pub open spec fn pawn_moves_white_spec(v: BoardView, l: Location) -> Seq<Move> {
    if l.y == 0 {
        Seq::empty()
    } else {
        (((pawn_white_forward_spec(v, l) + pawn_white_capture_spec(v, l, -1))
            + pawn_white_capture_spec(v, l, 1)) + pawn_white_ep_spec(v, l, 1))
            + pawn_white_ep_spec(v, l, -1)
    }
}

/// Moves of the black pawn standing on `location`: single and double
/// pushes, diagonal captures, promotions on the last rank, and the open
/// en-passant capture.
#[verifier::rlimit(100)]
#[verifier::spinoff_prover]
pub fn pawn_moves_black(location: Location, board: &BasicBoard) -> (r: Vec<Move>)
    requires
        board.wf(),
        location.wf(),
        board@.squares[location.index()] == Piece::BlackPawn,
    ensures
        r@ == pawn_moves_black_spec(board@, location),
        forall|i: int|
            0 <= i < r@.len() ==> (#[trigger] r@[i]).from == location && gen_ok(board@, r@[i]),
{
    let mut moves: Vec<Move> = Vec::new();
    let our_color = board.piece_at(location).color();

    if location.y == 7 {
        assert(moves@ =~= pawn_moves_black_spec(board@, location));
        return moves;
    }
    let in_front = Location::new(location.x, location.y + 1);
    if board.piece_at(in_front).is_empty() {
        if location.y == 6 {
            moves.push(Move::new(location, in_front, Extra::KnightPromotion));
            moves.push(Move::new(location, in_front, Extra::BishopPromotion));
            moves.push(Move::new(location, in_front, Extra::RookPromotion));
            moves.push(Move::new(location, in_front, Extra::QueenPromotion));
        } else {
            moves.push(Move::new(location, in_front, Extra::Quiet));
            if location.y == 1 {
                let double_in_front = Location::new(location.x, location.y + 2);
                if board.piece_at(double_in_front).is_empty() {
                    moves.push(Move::new(location, double_in_front, Extra::DoublePawn));
                }
            }
        }
    }
    proof {
        assert(moves@ =~= pawn_black_forward_spec(board@, location));
    }
    if location.x > 0 {
        let other = Location::new(location.x - 1, location.y + 1);
        let piece = board.piece_at(other);
        if !piece.is_empty() && piece.color() != our_color {
            if location.y == 6 {
                moves.push(Move::new(location, other, Extra::KnightPromotionCapture));
                moves.push(Move::new(location, other, Extra::BishopPromotionCapture));
                moves.push(Move::new(location, other, Extra::RookPromotionCapture));
                moves.push(Move::new(location, other, Extra::QueenPromotionCapture));
            } else {
                moves.push(Move::new(location, other, Extra::Captures));
            }
        }
    }
    proof {
        assert(moves@ =~= pawn_black_forward_spec(board@, location) + pawn_black_capture_spec(
            board@,
            location,
            -1,
        ));
    }
    if location.x < 7 {
        let other = Location::new(location.x + 1, location.y + 1);
        let piece = board.piece_at(other);
        if !piece.is_empty() && piece.color() != our_color {
            if location.y == 6 {
                moves.push(Move::new(location, other, Extra::KnightPromotionCapture));
                moves.push(Move::new(location, other, Extra::BishopPromotionCapture));
                moves.push(Move::new(location, other, Extra::RookPromotionCapture));
                moves.push(Move::new(location, other, Extra::QueenPromotionCapture));
            } else {
                moves.push(Move::new(location, other, Extra::Captures));
            }
        }
    }
    let ghost caps_done = moves@;
    proof {
        assert(caps_done =~= (pawn_black_forward_spec(board@, location) + pawn_black_capture_spec(
            board@,
            location,
            -1,
        )) + pawn_black_capture_spec(board@, location, 1));
    }
    let ep = board.get_en_passant();
    if ep != 8 && location.y == 4 {
        if location.x < 7 && location.x + 1 == ep {
            let target = Location::new(location.x + 1, location.y + 1);
            let passed = Location::new(location.x + 1, location.y);
            if board.piece_at(target).is_empty() && !board.piece_at(passed).is_empty() {
                moves.push(Move::new(location, target, Extra::EnPassantCaptures));
            }
        }
        proof {
            assert(moves@ =~= caps_done + pawn_black_ep_spec(board@, location, 1));
        }
        if location.x > 0 && location.x - 1 == ep {
            let target = Location::new(location.x - 1, location.y + 1);
            let passed = Location::new(location.x - 1, location.y);
            if board.piece_at(target).is_empty() && !board.piece_at(passed).is_empty() {
                moves.push(Move::new(location, target, Extra::EnPassantCaptures));
            }
        }
    }
    proof {
        assert(moves@ =~= (caps_done + pawn_black_ep_spec(board@, location, 1))
            + pawn_black_ep_spec(board@, location, -1));
        assert(pawn_moves_black_spec(board@, location) =~= (caps_done + pawn_black_ep_spec(
            board@,
            location,
            1,
        )) + pawn_black_ep_spec(board@, location, -1));
    }
    moves
}

/// Moves of the white pawn standing on `location`.
#[verifier::rlimit(100)]
#[verifier::spinoff_prover]
pub fn pawn_moves_white(location: Location, board: &BasicBoard) -> (r: Vec<Move>)
    requires
        board.wf(),
        location.wf(),
        board@.squares[location.index()] == Piece::WhitePawn,
    ensures
        r@ == pawn_moves_white_spec(board@, location),
        forall|i: int|
            0 <= i < r@.len() ==> (#[trigger] r@[i]).from == location && gen_ok(board@, r@[i]),
{
    let mut moves: Vec<Move> = Vec::new();
    let our_color = board.piece_at(location).color();

    if location.y == 0 {
        assert(moves@ =~= pawn_moves_white_spec(board@, location));
        return moves;
    }
    let in_front = Location::new(location.x, location.y - 1);
    if board.piece_at(in_front).is_empty() {
        if location.y == 1 {
            moves.push(Move::new(location, in_front, Extra::KnightPromotion));
            moves.push(Move::new(location, in_front, Extra::BishopPromotion));
            moves.push(Move::new(location, in_front, Extra::RookPromotion));
            moves.push(Move::new(location, in_front, Extra::QueenPromotion));
        } else {
            moves.push(Move::new(location, in_front, Extra::Quiet));
            if location.y == 6 {
                let double_in_front = Location::new(location.x, location.y - 2);
                if board.piece_at(double_in_front).is_empty() {
                    moves.push(Move::new(location, double_in_front, Extra::DoublePawn));
                }
            }
        }
    }
    proof {
        assert(moves@ =~= pawn_white_forward_spec(board@, location));
    }
    if location.x > 0 {
        let other = Location::new(location.x - 1, location.y - 1);
        let piece = board.piece_at(other);
        if !piece.is_empty() && piece.color() != our_color {
            if location.y == 1 {
                moves.push(Move::new(location, other, Extra::KnightPromotionCapture));
                moves.push(Move::new(location, other, Extra::BishopPromotionCapture));
                moves.push(Move::new(location, other, Extra::RookPromotionCapture));
                moves.push(Move::new(location, other, Extra::QueenPromotionCapture));
            } else {
                moves.push(Move::new(location, other, Extra::Captures));
            }
        }
    }
    proof {
        assert(moves@ =~= pawn_white_forward_spec(board@, location) + pawn_white_capture_spec(
            board@,
            location,
            -1,
        ));
    }
    if location.x < 7 {
        let other = Location::new(location.x + 1, location.y - 1);
        let piece = board.piece_at(other);
        if !piece.is_empty() && piece.color() != our_color {
            if location.y == 1 {
                moves.push(Move::new(location, other, Extra::KnightPromotionCapture));
                moves.push(Move::new(location, other, Extra::BishopPromotionCapture));
                moves.push(Move::new(location, other, Extra::RookPromotionCapture));
                moves.push(Move::new(location, other, Extra::QueenPromotionCapture));
            } else {
                moves.push(Move::new(location, other, Extra::Captures));
            }
        }
    }
    let ghost caps_done = moves@;
    proof {
        assert(caps_done =~= (pawn_white_forward_spec(board@, location) + pawn_white_capture_spec(
            board@,
            location,
            -1,
        )) + pawn_white_capture_spec(board@, location, 1));
    }
    let ep = board.get_en_passant();
    if ep != 8 && location.y == 3 {
        if location.x < 7 && location.x + 1 == ep {
            let target = Location::new(location.x + 1, location.y - 1);
            let passed = Location::new(location.x + 1, location.y);
            if board.piece_at(target).is_empty() && !board.piece_at(passed).is_empty() {
                moves.push(Move::new(location, target, Extra::EnPassantCaptures));
            }
        }
        proof {
            assert(moves@ =~= caps_done + pawn_white_ep_spec(board@, location, 1));
        }
        if location.x > 0 && location.x - 1 == ep {
            let target = Location::new(location.x - 1, location.y - 1);
            let passed = Location::new(location.x - 1, location.y);
            if board.piece_at(target).is_empty() && !board.piece_at(passed).is_empty() {
                moves.push(Move::new(location, target, Extra::EnPassantCaptures));
            }
        }
    }
    proof {
        assert(moves@ =~= (caps_done + pawn_white_ep_spec(board@, location, 1))
            + pawn_white_ep_spec(board@, location, -1));
        assert(pawn_moves_white_spec(board@, location) =~= (caps_done + pawn_white_ep_spec(
            board@,
            location,
            1,
        )) + pawn_white_ep_spec(board@, location, -1));
    }
    moves
}

/// Slides from `location` along one direction, collecting quiet moves
/// until a blocker, plus the capture of a blocking enemy piece.
fn ray_moves(location: Location, board: &BasicBoard, dx: i8, dy: i8) -> (r: Vec<Move>)
    requires
        board.wf(),
        location.wf(),
        board@.squares[location.index()] != Piece::Empty,
        !board@.squares[location.index()].is_pawn_spec(),
        -1 <= dx <= 1,
        -1 <= dy <= 1,
        dx != 0 || dy != 0,
    ensures
        r@ == ray_full_spec(board@, location, dx as int, dy as int),
        forall|i: int|
            0 <= i < r@.len() ==> (#[trigger] r@[i]).from == location && gen_ok(board@, r@[i])
                && (r@[i].extra == Extra::Quiet || r@[i].extra == Extra::Captures),
{
    let ghost full = ray_full_spec(board@, location, dx as int, dy as int);
    let our_color = board.piece_at(location).color();
    let mut moves: Vec<Move> = Vec::new();
    let mut x: i8 = location.x + dx;
    let mut y: i8 = location.y + dy;
    let mut stopped = false;
    let mut k: u8 = 0;
    proof {
        assert(moves@ + ray_moves_spec(
            board@,
            location,
            dx as int,
            dy as int,
            x as int,
            y as int,
            8,
        ) =~= ray_moves_spec(board@, location, dx as int, dy as int, x as int, y as int, 8));
    }
    while k < 8 && !stopped && x >= 0 && x < 8 && y >= 0 && y < 8
        invariant
            board.wf(),
            location.wf(),
            board@.squares[location.index()] != Piece::Empty,
            !board@.squares[location.index()].is_pawn_spec(),
            full == ray_full_spec(board@, location, dx as int, dy as int),
            our_color == board@.squares[location.index()].color_spec(),
            -1 <= dx <= 1,
            -1 <= dy <= 1,
            dx != 0 || dy != 0,
            -1 <= x <= 8,
            -1 <= y <= 8,
            dx > 0 ==> x > location.x,
            dx < 0 ==> x < location.x,
            dx == 0 ==> x == location.x,
            dy > 0 ==> y > location.y,
            dy < 0 ==> y < location.y,
            dy == 0 ==> y == location.y,
            k <= 8,
            !stopped ==> full == moves@ + ray_moves_spec(
                board@,
                location,
                dx as int,
                dy as int,
                x as int,
                y as int,
                (8 - k) as nat,
            ),
            stopped ==> full == moves@,
            forall|i: int|
                0 <= i < moves@.len() ==> (#[trigger] moves@[i]).from == location && gen_ok(
                    board@,
                    moves@[i],
                ) && (moves@[i].extra == Extra::Quiet || moves@[i].extra == Extra::Captures),
        decreases 8 - k,
    {
        let ghost rem = ray_moves_spec(
            board@,
            location,
            dx as int,
            dy as int,
            x as int,
            y as int,
            (8 - k) as nat,
        );
        let ghost old_moves = moves@;
        let other = Location::new(x, y);
        let piece = board.piece_at(other);
        if !piece.is_empty() {
            if piece.color() != our_color {
                moves.push(Move::new(location, other, Extra::Captures));
                proof {
                    assert(rem =~= seq![
                        Move {
                            from: location,
                            to: Location { x: x, y: y },
                            extra: Extra::Captures,
                        },
                    ]);
                    assert(moves@ =~= old_moves + rem);
                }
            } else {
                proof {
                    assert(rem =~= Seq::<Move>::empty());
                    assert(moves@ =~= old_moves + rem);
                }
            }
            stopped = true;
        } else {
            moves.push(Move::new(location, other, Extra::Quiet));
            proof {
                let qm = Move { from: location, to: Location { x: x, y: y }, extra: Extra::Quiet };
                let rem2 = ray_moves_spec(
                    board@,
                    location,
                    dx as int,
                    dy as int,
                    x + dx,
                    y + dy,
                    (8 - k - 1) as nat,
                );
                assert(rem =~= seq![qm] + rem2);
                assert(old_moves + rem =~= moves@ + rem2);
            }
        }
        x = x + dx;
        y = y + dy;
        k = k + 1;
    }
    proof {
        if !stopped {
            assert(ray_moves_spec(
                board@,
                location,
                dx as int,
                dy as int,
                x as int,
                y as int,
                (8 - k) as nat,
            ) =~= Seq::<Move>::empty());
            assert(moves@ + Seq::<Move>::empty() =~= moves@);
        }
    }
    moves
}

/// Appends every element of `src` onto `dst`, preserving their contracts.
pub(crate) fn append_moves(dst: &mut Vec<Move>, src: Vec<Move>)
    ensures
        final(dst)@ == old(dst)@ + src@,
{
    let mut i: usize = 0;
    while i < src.len()
        invariant
            i <= src.len(),
            dst@ =~= old(dst)@ + src@.take(i as int),
        decreases src.len() - i,
    {
        dst.push(src[i]);
        assert(old(dst)@ + src@.take(i + 1) =~= (old(dst)@ + src@.take(i as int)).push(
            src@[i as int],
        ));
        i += 1;
    }
    assert(src@.take(src@.len() as int) =~= src@);
}

/// Diagonal sliding moves of the bishop (or queen) on `location`.
pub fn bishop_moves(location: Location, board: &BasicBoard) -> (r: Vec<Move>)
    requires
        board.wf(),
        location.wf(),
        board@.squares[location.index()] != Piece::Empty,
        !board@.squares[location.index()].is_pawn_spec(),
    ensures
        r@ == bishop_moves_spec(board@, location),
        forall|i: int|
            0 <= i < r@.len() ==> (#[trigger] r@[i]).from == location && gen_ok(board@, r@[i]),
{
    let mut moves = ray_moves(location, board, -1, -1);
    append_moves(&mut moves, ray_moves(location, board, 1, -1));
    append_moves(&mut moves, ray_moves(location, board, 1, 1));
    append_moves(&mut moves, ray_moves(location, board, -1, 1));
    assert(moves@ =~= bishop_moves_spec(board@, location));
    moves
}

/// Straight sliding moves of the rook (or queen) on `location`.
pub fn rook_moves(location: Location, board: &BasicBoard) -> (r: Vec<Move>)
    requires
        board.wf(),
        location.wf(),
        board@.squares[location.index()] != Piece::Empty,
        !board@.squares[location.index()].is_pawn_spec(),
    ensures
        r@ == rook_moves_spec(board@, location),
        forall|i: int|
            0 <= i < r@.len() ==> (#[trigger] r@[i]).from == location && gen_ok(board@, r@[i]),
{
    let mut moves = ray_moves(location, board, 1, 0);
    append_moves(&mut moves, ray_moves(location, board, -1, 0));
    append_moves(&mut moves, ray_moves(location, board, 0, 1));
    append_moves(&mut moves, ray_moves(location, board, 0, -1));
    assert(moves@ =~= rook_moves_spec(board@, location));
    moves
}

/// All sliding moves of the queen on `location`.
pub fn queen_moves(location: Location, board: &BasicBoard) -> (r: Vec<Move>)
    requires
        board.wf(),
        location.wf(),
        board@.squares[location.index()] != Piece::Empty,
        !board@.squares[location.index()].is_pawn_spec(),
    ensures
        r@ == queen_moves_spec(board@, location),
        forall|i: int|
            0 <= i < r@.len() ==> (#[trigger] r@[i]).from == location && gen_ok(board@, r@[i]),
{
    let mut moves = bishop_moves(location, board);
    append_moves(&mut moves, rook_moves(location, board));
    assert(moves@ =~= queen_moves_spec(board@, location));
    moves
}

/// A single-step candidate: the square `(l.x+ox, l.y+oy)`, as a quiet
/// move when empty, a capture when an enemy stands there, and nothing
/// when off the board or occupied by a friend.
pub open spec fn step_move_spec(v: BoardView, l: Location, ox: int, oy: int) -> Seq<Move> {
    let x = l.x + ox;
    let y = l.y + oy;
    if !on_board(x, y) {
        Seq::empty()
    } else {
        let p = v.squares[idx(x, y)];
        if p == Piece::Empty {
            seq![Move { from: l, to: Location { x: x as i8, y: y as i8 }, extra: Extra::Quiet }]
        } else if p.color_spec() != v.squares[l.index()].color_spec() {
            seq![Move { from: l, to: Location { x: x as i8, y: y as i8 }, extra: Extra::Captures }]
        } else {
            Seq::empty()
        }
    }
}

/// The knight's eight jump offsets, in generation order.
pub open spec fn knight_offset_x(t: int) -> int {
    if t == 0 { 2 } else if t == 1 { 2 } else if t == 2 { -2 } else if t == 3 { -2 }
    else if t == 4 { 1 } else if t == 5 { -1 } else if t == 6 { 1 } else { -1 }
}

pub open spec fn knight_offset_y(t: int) -> int {
    if t == 0 { 1 } else if t == 1 { -1 } else if t == 2 { 1 } else if t == 3 { -1 }
    else if t == 4 { 2 } else if t == 5 { 2 } else if t == 6 { -2 } else { -2 }
}

/// The knight's candidates over the first `n` offsets.
pub open spec fn knight_prefix_spec(v: BoardView, l: Location, n: int) -> Seq<Move>
    decreases n,
{
    if n <= 0 {
        Seq::empty()
    } else {
        knight_prefix_spec(v, l, n - 1) + step_move_spec(
            v,
            l,
            knight_offset_x(n - 1),
            knight_offset_y(n - 1),
        )
    }
}

/// Exactly the moves `knight_moves` returns.
pub open spec fn knight_moves_spec(v: BoardView, l: Location) -> Seq<Move> {
    knight_prefix_spec(v, l, 8)
}

/// The king's eight step offsets, in generation order.
pub open spec fn king_offset_x(t: int) -> int {
    if t == 0 { 1 } else if t == 1 { 1 } else if t == 2 { 0 } else if t == 3 { -1 }
    else if t == 4 { -1 } else if t == 5 { -1 } else if t == 6 { 0 } else { 1 }
}

pub open spec fn king_offset_y(t: int) -> int {
    if t == 0 { 0 } else if t == 1 { 1 } else if t == 2 { 1 } else if t == 3 { 1 }
    else if t == 4 { 0 } else if t == 5 { -1 } else if t == 6 { -1 } else { -1 }
}

/// The king's single-step candidates over the first `n` offsets.
pub open spec fn king_prefix_spec(v: BoardView, l: Location, n: int) -> Seq<Move>
    decreases n,
{
    if n <= 0 {
        Seq::empty()
    } else {
        king_prefix_spec(v, l, n - 1) + step_move_spec(
            v,
            l,
            king_offset_x(n - 1),
            king_offset_y(n - 1),
        )
    }
}

/// The castling moves whose generation conditions all hold, in order:
/// black queen-side, black king-side, white queen-side, white king-side.
pub open spec fn castle_moves_spec(v: BoardView, l: Location) -> Seq<Move> {
    let bq: Seq<Move> = if v.squares[l.index()] == Piece::BlackKing && l.x == 4 && l.y == 0
        && !in_check(v.squares, Color::Black) && v.rights[0] && v.squares[idx(1, 0)]
        == Piece::Empty && v.squares[idx(2, 0)] == Piece::Empty && v.squares[idx(3, 0)]
        == Piece::Empty && !square_attacked_spec(v.squares, 3, 0, Color::White)
        && !square_attacked_spec(v.squares, 2, 0, Color::White) {
        seq![Move { from: l, to: Location { x: 2, y: 0 }, extra: Extra::QueenCastle }]
    } else {
        Seq::empty()
    };
    let bk: Seq<Move> = if v.squares[l.index()] == Piece::BlackKing && l.x == 4 && l.y == 0
        && !in_check(v.squares, Color::Black) && v.rights[1] && v.squares[idx(5, 0)]
        == Piece::Empty && v.squares[idx(6, 0)] == Piece::Empty && !square_attacked_spec(
        v.squares,
        5,
        0,
        Color::White,
    ) && !square_attacked_spec(v.squares, 6, 0, Color::White) {
        seq![Move { from: l, to: Location { x: 6, y: 0 }, extra: Extra::KingCastle }]
    } else {
        Seq::empty()
    };
    let wq: Seq<Move> = if v.squares[l.index()] == Piece::WhiteKing && l.x == 4 && l.y == 7
        && !in_check(v.squares, Color::White) && v.rights[2] && v.squares[idx(1, 7)]
        == Piece::Empty && v.squares[idx(2, 7)] == Piece::Empty && v.squares[idx(3, 7)]
        == Piece::Empty && !square_attacked_spec(v.squares, 3, 7, Color::Black)
        && !square_attacked_spec(v.squares, 2, 7, Color::Black) {
        seq![Move { from: l, to: Location { x: 2, y: 7 }, extra: Extra::QueenCastle }]
    } else {
        Seq::empty()
    };
    let wk: Seq<Move> = if v.squares[l.index()] == Piece::WhiteKing && l.x == 4 && l.y == 7
        && !in_check(v.squares, Color::White) && v.rights[3] && v.squares[idx(5, 7)]
        == Piece::Empty && v.squares[idx(6, 7)] == Piece::Empty && !square_attacked_spec(
        v.squares,
        5,
        7,
        Color::Black,
    ) && !square_attacked_spec(v.squares, 6, 7, Color::Black) {
        seq![Move { from: l, to: Location { x: 6, y: 7 }, extra: Extra::KingCastle }]
    } else {
        Seq::empty()
    };
    ((bq + bk) + wq) + wk
}

/// Exactly the moves `king_moves` returns.
pub open spec fn king_moves_spec(v: BoardView, l: Location) -> Seq<Move> {
    king_prefix_spec(v, l, 8) + castle_moves_spec(v, l)
}

/// The jump moves of the knight on `location`.
pub fn knight_moves(location: Location, board: &BasicBoard) -> (r: Vec<Move>)
    requires
        board.wf(),
        location.wf(),
        board@.squares[location.index()] != Piece::Empty,
        !board@.squares[location.index()].is_pawn_spec(),
    ensures
        r@ == knight_moves_spec(board@, location),
        forall|i: int|
            0 <= i < r@.len() ==> (#[trigger] r@[i]).from == location && gen_ok(board@, r@[i]),
{
    let our_color = board.piece_at(location).color();
    let mut moves: Vec<Move> = Vec::new();
    let offs: [i8; 16] = [2, 1, 2, -1, -2, 1, -2, -1, 1, 2, -1, 2, 1, -2, -1, -2];
    let mut t: usize = 0;
    proof {
        assert(moves@ =~= knight_prefix_spec(board@, location, 0));
    }
    while t < 8
        invariant
            board.wf(),
            location.wf(),
            board@.squares[location.index()] != Piece::Empty,
            !board@.squares[location.index()].is_pawn_spec(),
            our_color == board@.squares[location.index()].color_spec(),
            t <= 8,
            offs@ =~= seq![2i8, 1i8, 2i8, -1i8, -2i8, 1i8, -2i8, -1i8, 1i8, 2i8, -1i8, 2i8, 1i8, -2i8, -1i8, -2i8],
            moves@ == knight_prefix_spec(board@, location, t as int),
            forall|i: int|
                0 <= i < moves@.len() ==> (#[trigger] moves@[i]).from == location && gen_ok(
                    board@,
                    moves@[i],
                ),
        decreases 8 - t,
    {
        let ghost old_moves = moves@;
        let ox = offs[2 * t];
        let oy = offs[2 * t + 1];
        proof {
            assert(ox as int == knight_offset_x(t as int));
            assert(oy as int == knight_offset_y(t as int));
        }
        assert(ox != 0);
        let x = location.x + ox;
        let y = location.y + oy;
        if x >= 0 && x < 8 && y >= 0 && y < 8 {
            let l = Location::new(x, y);
            let piece = board.piece_at(l);
            if piece.is_empty() {
                moves.push(Move::new(location, l, Extra::Quiet));
            } else if piece.color() != our_color {
                moves.push(Move::new(location, l, Extra::Captures));
            }
        }
        proof {
            assert(moves@ =~= old_moves + step_move_spec(
                board@,
                location,
                knight_offset_x(t as int),
                knight_offset_y(t as int),
            ));
        }
        t += 1;
    }
    moves
}

/// The king's single-step moves from `location`, plus the castling moves
/// whose conditions (rights flag, empty passage, no check, passage and
/// landing squares unattacked) all hold.
pub fn king_moves(location: Location, board: &BasicBoard) -> (r: Vec<Move>)
    requires
        board.wf(),
        location.wf(),
        board@.squares[location.index()] != Piece::Empty,
        !board@.squares[location.index()].is_pawn_spec(),
    ensures
        r@ == king_moves_spec(board@, location),
        forall|i: int|
            0 <= i < r@.len() ==> (#[trigger] r@[i]).from == location && gen_ok(board@, r@[i]),
{
    let our_color = board.piece_at(location).color();
    let mut moves: Vec<Move> = Vec::new();
    let offs: [i8; 16] = [1, 0, 1, 1, 0, 1, -1, 1, -1, 0, -1, -1, 0, -1, 1, -1];
    let mut t: usize = 0;
    proof {
        assert(moves@ =~= king_prefix_spec(board@, location, 0));
    }
    while t < 8
        invariant
            board.wf(),
            location.wf(),
            board@.squares[location.index()] != Piece::Empty,
            !board@.squares[location.index()].is_pawn_spec(),
            our_color == board@.squares[location.index()].color_spec(),
            t <= 8,
            offs@ =~= seq![1i8, 0i8, 1i8, 1i8, 0i8, 1i8, -1i8, 1i8, -1i8, 0i8, -1i8, -1i8, 0i8, -1i8, 1i8, -1i8],
            moves@ == king_prefix_spec(board@, location, t as int),
            forall|i: int|
                0 <= i < moves@.len() ==> (#[trigger] moves@[i]).from == location && gen_ok(
                    board@,
                    moves@[i],
                ),
        decreases 8 - t,
    {
        let ghost old_moves = moves@;
        let ox = offs[2 * t];
        let oy = offs[2 * t + 1];
        proof {
            assert(ox as int == king_offset_x(t as int));
            assert(oy as int == king_offset_y(t as int));
        }
        assert(ox != 0 || oy != 0);
        let x = location.x + ox;
        let y = location.y + oy;
        if x >= 0 && x < 8 && y >= 0 && y < 8 {
            let l = Location::new(x, y);
            let piece = board.piece_at(l);
            if piece.is_empty() {
                moves.push(Move::new(location, l, Extra::Quiet));
            } else if piece.color() != our_color {
                moves.push(Move::new(location, l, Extra::Captures));
            }
        }
        proof {
            assert(moves@ =~= old_moves + step_move_spec(
                board@,
                location,
                king_offset_x(t as int),
                king_offset_y(t as int),
            ));
        }
        t += 1;
    }
    let ghost base = moves@;

    // Castling, generated only from the king's home square.
    let piece = board.piece_at(location);
    if piece == Piece::BlackKing && location.x == 4 && location.y == 0 {
        let rights = board.get_castling_rights();
        if !king_check(board, Color::Black) {
            if rights[0] && board.piece_at(Location::new(1, 0)).is_empty() && board.piece_at(
                Location::new(2, 0),
            ).is_empty() && board.piece_at(Location::new(3, 0)).is_empty() {
                if !square_attacked(board, 3, 0, Color::White) && !square_attacked(
                    board,
                    2,
                    0,
                    Color::White,
                ) {
                    moves.push(Move::new(location, Location::new(2, 0), Extra::QueenCastle));
                }
            }
            if rights[1] && board.piece_at(Location::new(5, 0)).is_empty() && board.piece_at(
                Location::new(6, 0),
            ).is_empty() {
                if !square_attacked(board, 5, 0, Color::White) && !square_attacked(
                    board,
                    6,
                    0,
                    Color::White,
                ) {
                    moves.push(Move::new(location, Location::new(6, 0), Extra::KingCastle));
                }
            }
        }
    }
    if piece == Piece::WhiteKing && location.x == 4 && location.y == 7 {
        let rights = board.get_castling_rights();
        if !king_check(board, Color::White) {
            if rights[2] && board.piece_at(Location::new(1, 7)).is_empty() && board.piece_at(
                Location::new(2, 7),
            ).is_empty() && board.piece_at(Location::new(3, 7)).is_empty() {
                if !square_attacked(board, 3, 7, Color::Black) && !square_attacked(
                    board,
                    2,
                    7,
                    Color::Black,
                ) {
                    moves.push(Move::new(location, Location::new(2, 7), Extra::QueenCastle));
                }
            }
            if rights[3] && board.piece_at(Location::new(5, 7)).is_empty() && board.piece_at(
                Location::new(6, 7),
            ).is_empty() {
                if !square_attacked(board, 5, 7, Color::Black) && !square_attacked(
                    board,
                    6,
                    7,
                    Color::Black,
                ) {
                    moves.push(Move::new(location, Location::new(6, 7), Extra::KingCastle));
                }
            }
        }
    }
    proof {
        assert(moves@ =~= base + castle_moves_spec(board@, location));
    }
    moves
}

} // verus!
