//! Chess pieces (or an empty square), their colors, material values, and the
//! numbering used to index the Zobrist key table.

use vstd::prelude::*;
use crate::color::Color;

verus! {

#[derive(Clone, Copy, Eq, PartialEq, Debug, Hash, Structural)]
pub enum Piece {
    Empty,
    BlackPawn,
    WhitePawn,
    BlackBishop,
    WhiteBishop,
    BlackKnight,
    WhiteKnight,
    BlackRook,
    WhiteRook,
    BlackKing,
    WhiteKing,
    BlackQueen,
    WhiteQueen,
}

impl Piece {
    /// The index of a non-empty piece in the per-square Zobrist key table.
    pub open spec fn number_spec(self) -> int {
        match self {
            Piece::Empty => 12,
            Piece::BlackPawn => 0,
            Piece::WhitePawn => 1,
            Piece::BlackBishop => 2,
            Piece::WhiteBishop => 3,
            Piece::BlackKnight => 4,
            Piece::WhiteKnight => 5,
            Piece::BlackRook => 6,
            Piece::WhiteRook => 7,
            Piece::BlackKing => 8,
            Piece::WhiteKing => 9,
            Piece::BlackQueen => 10,
            Piece::WhiteQueen => 11,
        }
    }

    /// Only non-empty pieces are numbered; an empty square has no key.
    pub fn to_number(&self) -> (r: usize)
        requires
            !self.is_empty_spec(),
        ensures
            r == self.number_spec(),
            r < 12,
    {
        match self {
            Piece::Empty => 0,
            Piece::BlackPawn => 0,
            Piece::WhitePawn => 1,
            Piece::BlackBishop => 2,
            Piece::WhiteBishop => 3,
            Piece::BlackKnight => 4,
            Piece::WhiteKnight => 5,
            Piece::BlackRook => 6,
            Piece::WhiteRook => 7,
            Piece::BlackKing => 8,
            Piece::WhiteKing => 9,
            Piece::BlackQueen => 10,
            Piece::WhiteQueen => 11,
        }
    }

    pub open spec fn is_empty_spec(self) -> bool {
        self == Piece::Empty
    }

    pub fn is_empty(&self) -> (r: bool)
        ensures
            r == self.is_empty_spec(),
    {
        *self == Piece::Empty
    }

    pub open spec fn is_pawn_spec(self) -> bool {
        self == Piece::BlackPawn || self == Piece::WhitePawn
    }

    pub fn is_pawn(&self) -> (r: bool)
        ensures
            r == self.is_pawn_spec(),
    {
        *self == Piece::BlackPawn || *self == Piece::WhitePawn
    }

    pub open spec fn is_bishop_spec(self) -> bool {
        self == Piece::BlackBishop || self == Piece::WhiteBishop
    }

    pub fn is_bishop(&self) -> (r: bool)
        ensures
            r == self.is_bishop_spec(),
    {
        *self == Piece::BlackBishop || *self == Piece::WhiteBishop
    }

    pub open spec fn is_knight_spec(self) -> bool {
        self == Piece::BlackKnight || self == Piece::WhiteKnight
    }

    pub fn is_knight(&self) -> (r: bool)
        ensures
            r == self.is_knight_spec(),
    {
        *self == Piece::BlackKnight || *self == Piece::WhiteKnight
    }

    pub open spec fn is_rook_spec(self) -> bool {
        self == Piece::BlackRook || self == Piece::WhiteRook
    }

    pub fn is_rook(&self) -> (r: bool)
        ensures
            r == self.is_rook_spec(),
    {
        *self == Piece::BlackRook || *self == Piece::WhiteRook
    }

    pub open spec fn is_king_spec(self) -> bool {
        self == Piece::BlackKing || self == Piece::WhiteKing
    }

    pub fn is_king(&self) -> (r: bool)
        ensures
            r == self.is_king_spec(),
    {
        *self == Piece::BlackKing || *self == Piece::WhiteKing
    }

    pub open spec fn is_queen_spec(self) -> bool {
        self == Piece::BlackQueen || self == Piece::WhiteQueen
    }

    pub fn is_queen(&self) -> (r: bool)
        ensures
            r == self.is_queen_spec(),
    {
        *self == Piece::BlackQueen || *self == Piece::WhiteQueen
    }

    pub open spec fn color_spec(self) -> Color {
        match self {
            Piece::Empty => Color::EmptyColor,
            Piece::WhitePawn => Color::White,
            Piece::WhiteBishop => Color::White,
            Piece::WhiteKnight => Color::White,
            Piece::WhiteRook => Color::White,
            Piece::WhiteKing => Color::White,
            Piece::WhiteQueen => Color::White,
            _ => Color::Black,
        }
    }

    pub fn color(&self) -> (r: Color)
        ensures
            r == self.color_spec(),
    {
        match self {
            Piece::Empty => Color::EmptyColor,
            Piece::WhitePawn => Color::White,
            Piece::WhiteBishop => Color::White,
            Piece::WhiteKnight => Color::White,
            Piece::WhiteRook => Color::White,
            Piece::WhiteKing => Color::White,
            Piece::WhiteQueen => Color::White,
            _ => Color::Black,
        }
    }

    /// Signed material value of a piece; positive favors Black by this
    /// table's convention, so a position's White-favoring material balance
    /// is the negated sum of these values.
    pub open spec fn material_worth_spec(self) -> int {
        match self {
            Piece::Empty => 0,
            Piece::BlackPawn => 100,
            Piece::WhitePawn => -100,
            Piece::BlackBishop => 330,
            Piece::WhiteBishop => -330,
            Piece::BlackKnight => 320,
            Piece::WhiteKnight => -320,
            Piece::BlackRook => 500,
            Piece::WhiteRook => -500,
            Piece::BlackKing => 20000,
            Piece::WhiteKing => -20000,
            Piece::BlackQueen => 900,
            Piece::WhiteQueen => -900,
        }
    }

    pub fn material_worth(&self) -> (r: i32)
        ensures
            r == self.material_worth_spec(),
            -20000 <= r <= 20000,
    {
        match self {
            Piece::Empty => 0,
            Piece::BlackPawn => 100,
            Piece::WhitePawn => -100,
            Piece::BlackBishop => 330,
            Piece::WhiteBishop => -330,
            Piece::BlackKnight => 320,
            Piece::WhiteKnight => -320,
            Piece::BlackRook => 500,
            Piece::WhiteRook => -500,
            Piece::BlackKing => 20000,
            Piece::WhiteKing => -20000,
            Piece::BlackQueen => 900,
            Piece::WhiteQueen => -900,
        }
    }
}

pub open spec fn knight_of_color_spec(color: Color) -> Piece {
    if color == Color::White {
        Piece::WhiteKnight
    } else {
        Piece::BlackKnight
    }
}

pub fn knight_of_color(color: Color) -> (r: Piece)
    ensures
        r == knight_of_color_spec(color),
{
    if color == Color::White {
        Piece::WhiteKnight
    } else {
        Piece::BlackKnight
    }
}

pub open spec fn bishop_of_color_spec(color: Color) -> Piece {
    if color == Color::White {
        Piece::WhiteBishop
    } else {
        Piece::BlackBishop
    }
}

pub fn bishop_of_color(color: Color) -> (r: Piece)
    ensures
        r == bishop_of_color_spec(color),
{
    if color == Color::White {
        Piece::WhiteBishop
    } else {
        Piece::BlackBishop
    }
}

pub open spec fn rook_of_color_spec(color: Color) -> Piece {
    if color == Color::White {
        Piece::WhiteRook
    } else {
        Piece::BlackRook
    }
}

pub fn rook_of_color(color: Color) -> (r: Piece)
    ensures
        r == rook_of_color_spec(color),
{
    if color == Color::White {
        Piece::WhiteRook
    } else {
        Piece::BlackRook
    }
}

pub open spec fn queen_of_color_spec(color: Color) -> Piece {
    if color == Color::White {
        Piece::WhiteQueen
    } else {
        Piece::BlackQueen
    }
}

pub fn queen_of_color(color: Color) -> (r: Piece)
    ensures
        r == queen_of_color_spec(color),
{
    if color == Color::White {
        Piece::WhiteQueen
    } else {
        Piece::BlackQueen
    }
}

} // verus!
