//! Search scores: a fixed-point value where larger favors White. The mate
//! sentinels sit far above any sum of material and positional values, so no
//! finite accumulation of piece values can reach them.

use vstd::prelude::*;
use crate::color::Color;

verus! {

/// The mate sentinel: the score of a forced win for White; its negation a
/// forced win for Black.
pub const SCORE_INF: i64 = 10000000;

/// Every search value stays within the sentinels.
pub open spec fn score_in_range(r: int) -> bool {
    -SCORE_INF <= r <= SCORE_INF
}

/// The score of a decided game: the winning side's sentinel, zero for a
/// draw.
pub open spec fn terminal_score_spec(winner: Color) -> int {
    if winner == Color::White {
        SCORE_INF as int
    } else if winner == Color::Black {
        -SCORE_INF as int
    } else {
        0
    }
}

pub fn terminal_score(winner: Color) -> (r: i64)
    ensures
        r == terminal_score_spec(winner),
        score_in_range(r as int),
{
    match winner {
        Color::White => SCORE_INF,
        Color::Black => -SCORE_INF,
        Color::EmptyColor => 0,
    }
}

} // verus!
