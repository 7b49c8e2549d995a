//! The two player colors, plus a sentinel for "no color" (empty squares,
//! drawn terminal states).

use vstd::prelude::*;

verus! {

#[derive(Clone, Copy, Eq, PartialEq, Debug, Hash, Structural)]
pub enum Color {
    Black,
    White,
    EmptyColor,
}

impl Color {
    /// The opposing color; `EmptyColor` has no opponent and maps to itself.
    pub open spec fn other_spec(self) -> Color {
        match self {
            Color::Black => Color::White,
            Color::White => Color::Black,
            Color::EmptyColor => Color::EmptyColor,
        }
    }

    pub fn other(&self) -> (r: Color)
        ensures
            r == self.other_spec(),
    {
        match self {
            Color::Black => Color::White,
            Color::White => Color::Black,
            Color::EmptyColor => Color::EmptyColor,
        }
    }
}

} // verus!
