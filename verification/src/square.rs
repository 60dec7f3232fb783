//! The occupancy state of one grid cell.

use vstd::prelude::*;

verus! {

/// The occupancy state of one grid cell: a playable color, an empty playable
/// cell, or the immutable border sentinel.
#[derive(Copy, Clone, Debug, PartialEq, Eq, Structural)]
pub enum Square {
    Black,
    White,
    Empty,
    Wall,
}

/// The opponent of a color: `Black` and `White` swap, while `Empty` and
/// `Wall` are no one's color and stay unchanged.
pub open spec fn opposite(s: Square) -> Square {
    match s {
        Square::Black => Square::White,
        Square::White => Square::Black,
        Square::Empty => Square::Empty,
        Square::Wall => Square::Wall,
    }
}

/// True of the two playable colors and of nothing else.
pub open spec fn is_piece(s: Square) -> bool {
    s == Square::Black || s == Square::White
}

impl Square {
    /// Maps `Black` to `White` and back; `Empty` and `Wall` are unchanged.
    pub fn invert_colors(&self) -> (r: Square)
        ensures
            r == opposite(*self),
    {
        match self {
            Square::Black => Square::White,
            Square::White => Square::Black,
            Square::Empty => Square::Empty,
            Square::Wall => Square::Wall,
        }
    }
}

/// Inverting a square twice gives the square back.
pub proof fn lemma_opposite_involution(s: Square)
    ensures
        opposite(opposite(s)) == s,
{
}

} // verus!
