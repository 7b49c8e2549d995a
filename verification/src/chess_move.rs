//! Board coordinates, move descriptors, and the `Extra` tag that classifies
//! a move (quiet, double pawn push, capture, en passant, castling, or one of
//! the promotion variants).

use vstd::prelude::*;
use crate::color::Color;
use crate::piece::{Piece, knight_of_color, bishop_of_color, rook_of_color, queen_of_color};
use crate::piece::{knight_of_color_spec, bishop_of_color_spec, rook_of_color_spec, queen_of_color_spec};

verus! {

/// A square on the 8x8 board; `x` is the file (column), `y` the rank (row).
#[derive(Clone, Copy, Eq, PartialEq, Debug, Hash, Structural)]
pub struct Location {
    pub x: i8,
    pub y: i8,
}

impl Location {
    /// Both coordinates lie on the board.
    pub open spec fn wf(self) -> bool {
        0 <= self.x < 8 && 0 <= self.y < 8
    }

    pub fn new(x: i8, y: i8) -> (r: Location)
        requires
            0 <= x < 8,
            0 <= y < 8,
        ensures
            r.x == x,
            r.y == y,
            r.wf(),
    {
        Location { x, y }
    }

    /// The index of this square in a row-major 64-element board sequence.
    pub open spec fn index(self) -> int {
        self.y * 8 + self.x
    }
}

#[derive(Clone, Copy, Eq, PartialEq, Debug, Hash, Structural)]
pub enum Extra {
    Quiet,
    DoublePawn,
    KingCastle,
    QueenCastle,
    Captures,
    EnPassantCaptures,
    KnightPromotion,
    BishopPromotion,
    RookPromotion,
    QueenPromotion,
    KnightPromotionCapture,
    BishopPromotionCapture,
    RookPromotionCapture,
    QueenPromotionCapture,
}

impl Extra {
    pub open spec fn is_non_capturing_promotion_spec(self) -> bool {
        self == Extra::KnightPromotion || self == Extra::BishopPromotion
            || self == Extra::RookPromotion || self == Extra::QueenPromotion
    }

    pub fn is_non_capturing_promotion(&self) -> (r: bool)
        ensures
            r == self.is_non_capturing_promotion_spec(),
    {
        match self {
            Extra::KnightPromotion => true,
            Extra::BishopPromotion => true,
            Extra::RookPromotion => true,
            Extra::QueenPromotion => true,
            _ => false,
        }
    }

    pub open spec fn is_capturing_promotion_spec(self) -> bool {
        self == Extra::KnightPromotionCapture || self == Extra::BishopPromotionCapture
            || self == Extra::RookPromotionCapture || self == Extra::QueenPromotionCapture
    }

    pub fn is_capturing_promotion(&self) -> (r: bool)
        ensures
            r == self.is_capturing_promotion_spec(),
    {
        match self {
            Extra::KnightPromotionCapture => true,
            Extra::BishopPromotionCapture => true,
            Extra::RookPromotionCapture => true,
            Extra::QueenPromotionCapture => true,
            _ => false,
        }
    }

    pub open spec fn is_promotion_spec(self) -> bool {
        self.is_capturing_promotion_spec() || self.is_non_capturing_promotion_spec()
    }

    pub fn is_promotion(&self) -> (r: bool)
        ensures
            r == self.is_promotion_spec(),
    {
        self.is_capturing_promotion() || self.is_non_capturing_promotion()
    }

    /// A move that takes an enemy piece off the board: plain captures,
    /// en passant, and the capturing promotions.
    pub open spec fn is_capturing_spec(self) -> bool {
        self == Extra::Captures || self == Extra::EnPassantCaptures
            || self.is_capturing_promotion_spec()
    }

    pub fn is_capturing(&self) -> (r: bool)
        ensures
            r == self.is_capturing_spec(),
    {
        match self {
            Extra::Captures => true,
            Extra::EnPassantCaptures => true,
            _ => self.is_capturing_promotion(),
        }
    }

    /// The promotion tag a capture of the given piece kind corresponds to.
    /// Only the four promotable piece kinds have one.
    pub fn capturing_promotion(piece: Piece) -> (r: Extra)
        requires
            piece.is_bishop_spec() || piece.is_knight_spec() || piece.is_rook_spec()
                || piece.is_queen_spec(),
        ensures
            piece.is_bishop_spec() ==> r == Extra::BishopPromotion,
            piece.is_knight_spec() ==> r == Extra::KnightPromotion,
            piece.is_rook_spec() ==> r == Extra::RookPromotion,
            piece.is_queen_spec() ==> r == Extra::QueenPromotion,
    {
        match piece {
            Piece::BlackBishop => Extra::BishopPromotion,
            Piece::WhiteBishop => Extra::BishopPromotion,
            Piece::BlackKnight => Extra::KnightPromotion,
            Piece::WhiteKnight => Extra::KnightPromotion,
            Piece::BlackRook => Extra::RookPromotion,
            Piece::WhiteRook => Extra::RookPromotion,
            _ => Extra::QueenPromotion,
        }
    }

    /// The piece a promotion tag turns a pawn into, for the given color;
    /// `None` for every non-promotion tag.
    pub open spec fn promotion_of_color_spec(self, color: Color) -> Option<Piece> {
        match self {
            Extra::KnightPromotion => Some(knight_of_color_spec(color)),
            Extra::BishopPromotion => Some(bishop_of_color_spec(color)),
            Extra::RookPromotion => Some(rook_of_color_spec(color)),
            Extra::QueenPromotion => Some(queen_of_color_spec(color)),
            Extra::KnightPromotionCapture => Some(knight_of_color_spec(color)),
            Extra::BishopPromotionCapture => Some(bishop_of_color_spec(color)),
            Extra::RookPromotionCapture => Some(rook_of_color_spec(color)),
            Extra::QueenPromotionCapture => Some(queen_of_color_spec(color)),
            _ => None,
        }
    }

    pub fn promotion_of_color(&self, color: Color) -> (r: Option<Piece>)
        ensures
            r == self.promotion_of_color_spec(color),
    {
        match self {
            Extra::KnightPromotion => Some(knight_of_color(color)),
            Extra::BishopPromotion => Some(bishop_of_color(color)),
            Extra::RookPromotion => Some(rook_of_color(color)),
            Extra::QueenPromotion => Some(queen_of_color(color)),
            Extra::KnightPromotionCapture => Some(knight_of_color(color)),
            Extra::BishopPromotionCapture => Some(bishop_of_color(color)),
            Extra::RookPromotionCapture => Some(rook_of_color(color)),
            Extra::QueenPromotionCapture => Some(queen_of_color(color)),
            _ => None,
        }
    }
}

/// A move: source square, destination square, and its classification.
#[derive(Clone, Copy, Eq, PartialEq, Debug, Hash, Structural)]
pub struct Move {
    pub from: Location,
    pub to: Location,
    pub extra: Extra,
}

impl Move {
    pub open spec fn wf(self) -> bool {
        self.from.wf() && self.to.wf()
    }

    pub fn new(from: Location, to: Location, extra: Extra) -> (r: Move)
        ensures
            r.from == from,
            r.to == to,
            r.extra == extra,
    {
        Move { from, to, extra }
    }
}

} // verus!
