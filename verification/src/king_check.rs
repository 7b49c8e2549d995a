//! Check detection: whether a square is attacked, and whether a side's king
//! is in check, specified against the geometric attack rules of each piece.

use vstd::prelude::*;
use crate::color::Color;
use crate::piece::Piece;
use crate::chess_move::Location;
use crate::basic::{BasicBoard, idx};

verus! {

pub open spec fn king_of(color: Color) -> Piece {
    if color == Color::White {
        Piece::WhiteKing
    } else {
        Piece::BlackKing
    }
}

pub open spec fn on_board(x: int, y: int) -> bool {
    0 <= x < 8 && 0 <= y < 8
}

pub open spec fn abs_i(a: int) -> int {
    if a >= 0 {
        a
    } else {
        -a
    }
}

pub open spec fn sgn_i(a: int) -> int {
    if a > 0 {
        1
    } else if a == 0 {
        0
    } else {
        -1
    }
}

/// The next `n` squares from (x, y) along direction (dx, dy) lie on the
/// board and are empty.
pub open spec fn ray_clear(s: Seq<Piece>, x: int, y: int, dx: int, dy: int, n: nat) -> bool
    decreases n,
{
    if n == 0 {
        true
    } else {
        &&& on_board(x + dx, y + dy)
        &&& s[idx(x + dx, y + dy)] == Piece::Empty
        &&& ray_clear(s, x + dx, y + dy, dx, dy, (n - 1) as nat)
    }
}

/// The piece on (ax, ay) attacks the square (kx, ky): pawns one step
/// diagonally forward, knights by their jump, kings one step any way, and
/// the sliding pieces along a clear line.
pub open spec fn attacks_spec(s: Seq<Piece>, ax: int, ay: int, kx: int, ky: int) -> bool {
    let p = s[idx(ax, ay)];
    let dx = kx - ax;
    let dy = ky - ay;
    if p == Piece::Empty {
        false
    } else if p == Piece::WhitePawn {
        dy == -1 && (dx == 1 || dx == -1)
    } else if p == Piece::BlackPawn {
        dy == 1 && (dx == 1 || dx == -1)
    } else if p.is_knight_spec() {
        (abs_i(dx) == 2 && abs_i(dy) == 1) || (abs_i(dx) == 1 && abs_i(dy) == 2)
    } else if p.is_king_spec() {
        (dx != 0 || dy != 0) && abs_i(dx) <= 1 && abs_i(dy) <= 1
    } else if p.is_bishop_spec() {
        dx != 0 && abs_i(dx) == abs_i(dy) && ray_clear(
            s,
            ax,
            ay,
            sgn_i(dx),
            sgn_i(dy),
            (abs_i(dx) - 1) as nat,
        )
    } else if p.is_rook_spec() {
        &&& (dx == 0) != (dy == 0)
        &&& ray_clear(s, ax, ay, sgn_i(dx), sgn_i(dy), (abs_i(dx) + abs_i(dy) - 1) as nat)
    } else if p.is_queen_spec() {
        ||| (dx != 0 && abs_i(dx) == abs_i(dy) && ray_clear(
            s,
            ax,
            ay,
            sgn_i(dx),
            sgn_i(dy),
            (abs_i(dx) - 1) as nat,
        ))
        ||| ((dx == 0) != (dy == 0) && ray_clear(
            s,
            ax,
            ay,
            sgn_i(dx),
            sgn_i(dy),
            (abs_i(dx) + abs_i(dy) - 1) as nat,
        ))
    } else {
        false
    }
}

/// Some piece of the given color attacks the square (x, y).
pub open spec fn square_attacked_spec(s: Seq<Piece>, x: int, y: int, by: Color) -> bool {
    exists|ax: int, ay: int|
        on_board(ax, ay) && s[idx(ax, ay)].color_spec() == by && #[trigger] attacks_spec(
            s,
            ax,
            ay,
            x,
            y,
        )
}

/// A king of the given color stands on a square attacked by the opposing
/// color.
pub open spec fn in_check(s: Seq<Piece>, color: Color) -> bool {
    exists|kx: int, ky: int|
        on_board(kx, ky) && s[idx(kx, ky)] == king_of(color) && #[trigger] square_attacked_spec(
            s,
            kx,
            ky,
            color.other_spec(),
        )
}

/// Whether the next `n` squares along a direction are on the board and
/// empty.
fn ray_clear_exec(b: &BasicBoard, x: i8, y: i8, dx: i8, dy: i8, n: u8) -> (r: bool)
    requires
        b.wf(),
        on_board(x as int, y as int),
        -1 <= dx <= 1,
        -1 <= dy <= 1,
    ensures
        r == ray_clear(b@.squares, x as int, y as int, dx as int, dy as int, n as nat),
    decreases n,
{
    if n == 0 {
        true
    } else {
        let nx = x + dx;
        let ny = y + dy;
        if nx < 0 || nx >= 8 || ny < 0 || ny >= 8 {
            false
        } else if !b.piece_at(Location::new(nx, ny)).is_empty() {
            false
        } else {
            ray_clear_exec(b, nx, ny, dx, dy, n - 1)
        }
    }
}

/// Whether the piece on (ax, ay) attacks the square (kx, ky).
fn attacks(b: &BasicBoard, ax: i8, ay: i8, kx: i8, ky: i8) -> (r: bool)
    requires
        b.wf(),
        on_board(ax as int, ay as int),
        on_board(kx as int, ky as int),
    ensures
        r == attacks_spec(b@.squares, ax as int, ay as int, kx as int, ky as int),
{
    let p = b.piece_at(Location::new(ax, ay));
    let dx = kx - ax;
    let dy = ky - ay;
    let adx = if dx >= 0 {
        dx
    } else {
        -dx
    };
    let ady = if dy >= 0 {
        dy
    } else {
        -dy
    };
    let sx: i8 = if dx > 0 {
        1
    } else if dx == 0 {
        0
    } else {
        -1
    };
    let sy: i8 = if dy > 0 {
        1
    } else if dy == 0 {
        0
    } else {
        -1
    };
    if p.is_empty() {
        false
    } else if p == Piece::WhitePawn {
        dy == -1 && (dx == 1 || dx == -1)
    } else if p == Piece::BlackPawn {
        dy == 1 && (dx == 1 || dx == -1)
    } else if p.is_knight() {
        (adx == 2 && ady == 1) || (adx == 1 && ady == 2)
    } else if p.is_king() {
        (dx != 0 || dy != 0) && adx <= 1 && ady <= 1
    } else if p.is_bishop() {
        dx != 0 && adx == ady && ray_clear_exec(b, ax, ay, sx, sy, (adx - 1) as u8)
    } else if p.is_rook() {
        ((dx == 0) != (dy == 0)) && ray_clear_exec(b, ax, ay, sx, sy, (adx + ady - 1) as u8)
    } else {
        let diag = dx != 0 && adx == ady && ray_clear_exec(
            b,
            ax,
            ay,
            sx,
            sy,
            (adx - 1) as u8,
        );
        let straight = ((dx == 0) != (dy == 0)) && ray_clear_exec(
            b,
            ax,
            ay,
            sx,
            sy,
            (adx + ady - 1) as u8,
        );
        diag || straight
    }
}

/// Whether any piece of the given color attacks the square (x, y).
pub fn square_attacked(b: &BasicBoard, x: i8, y: i8, by: Color) -> (r: bool)
    requires
        b.wf(),
        on_board(x as int, y as int),
    ensures
        r == square_attacked_spec(b@.squares, x as int, y as int, by),
{
    let mut i: usize = 0;
    while i < 64
        invariant
            b.wf(),
            on_board(x as int, y as int),
            i <= 64,
            forall|ax: int, ay: int|
                on_board(ax, ay) && ay * 8 + ax < i ==> !(b@.squares[idx(ax, ay)].color_spec()
                    == by && #[trigger] attacks_spec(b@.squares, ax, ay, x as int, y as int)),
        decreases 64 - i,
    {
        let ax = (i % 8) as i8;
        let ay = (i / 8) as i8;
        proof {
            vstd::arithmetic::div_mod::lemma_fundamental_div_mod(i as int, 8);
        }
        let p = b.piece_at(Location::new(ax, ay));
        if !p.is_empty() && p.color() == by {
            if attacks(b, ax, ay, x, y) {
                assert(square_attacked_spec(b@.squares, x as int, y as int, by));
                return true;
            }
        }
        i += 1;
    }
    assert forall|ax: int, ay: int|
        on_board(ax, ay) && b@.squares[idx(ax, ay)].color_spec() == by implies !#[trigger] attacks_spec(
        b@.squares,
        ax,
        ay,
        x as int,
        y as int,
    ) by {
        assert(ay * 8 + ax < 64);
    }
    false
}

/// The square of the first king of the given color in scan order, if one
/// is on the board at all.
pub fn king_location(board: &BasicBoard, color: Color) -> (r: Option<Location>)
    requires
        board.wf(),
        color == Color::Black || color == Color::White,
    ensures
        match r {
            Some(l) => l.wf() && board@.squares[l.index()] == king_of(color),
            None => forall|i: int| 0 <= i < 64 ==> board@.squares[i] != king_of(color),
        },
{
    let mut i: usize = 0;
    while i < 64
        invariant
            board.wf(),
            color == Color::Black || color == Color::White,
            i <= 64,
            forall|j: int| 0 <= j < i ==> board@.squares[j] != king_of(color),
        decreases 64 - i,
    {
        let x = (i % 8) as i8;
        let y = (i / 8) as i8;
        proof {
            vstd::arithmetic::div_mod::lemma_fundamental_div_mod(i as int, 8);
        }
        let l = Location::new(x, y);
        let p = board.piece_at(l);
        if (color == Color::White && p == Piece::WhiteKing) || (color == Color::Black && p
            == Piece::BlackKing) {
            return Some(l);
        }
        i += 1;
    }
    None
}

/// Whether the given side's king stands in check. A board without that
/// king reports no check.
pub fn king_check(board: &BasicBoard, color: Color) -> (r: bool)
    requires
        board.wf(),
        color == Color::Black || color == Color::White,
    ensures
        r == in_check(board@.squares, color),
{
    let mut i: usize = 0;
    while i < 64
        invariant
            board.wf(),
            color == Color::Black || color == Color::White,
            i <= 64,
            forall|kx: int, ky: int|
                on_board(kx, ky) && ky * 8 + kx < i ==> !(board@.squares[idx(kx, ky)] == king_of(
                    color,
                ) && #[trigger] square_attacked_spec(
                    board@.squares,
                    kx,
                    ky,
                    color.other_spec(),
                )),
        decreases 64 - i,
    {
        let kx = (i % 8) as i8;
        let ky = (i / 8) as i8;
        proof {
            vstd::arithmetic::div_mod::lemma_fundamental_div_mod(i as int, 8);
        }
        let p = board.piece_at(Location::new(kx, ky));
        if (color == Color::White && p == Piece::WhiteKing) || (color == Color::Black && p
            == Piece::BlackKing) {
            if square_attacked(board, kx, ky, color.other()) {
                assert(in_check(board@.squares, color));
                return true;
            }
        }
        i += 1;
    }
    assert forall|kx: int, ky: int|
        on_board(kx, ky) && board@.squares[idx(kx, ky)] == king_of(color) implies !#[trigger] square_attacked_spec(
        board@.squares,
        kx,
        ky,
        color.other_spec(),
    ) by {
        assert(ky * 8 + kx < 64);
    }
    false
}

} // verus!
