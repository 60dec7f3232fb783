//! Rule engine for a two-player disc-flipping board game on a bordered grid.
//!
//! The library owns the board data, legal-move detection by directional ray
//! casting, atomic move application (placement plus chained flips), turn
//! alternation, and move-history-based undo. Presentation and raw input
//! capture live outside the library and only consume its outputs.

pub mod board;
pub mod direction;
pub mod flip;
pub mod history;
pub mod mobility;
pub mod square;
pub mod turn;

use vstd::prelude::*;

verus! {

/// Why an operation on the board was rejected. Rejections never leave the
/// board, the history or the turn state partially mutated.
#[derive(Copy, Clone, Debug, PartialEq, Eq, Structural)]
pub enum MoveError {
    /// A position accessor or a move named a cell outside the grid's full
    /// (border included) extent.
    OutOfBounds,
    /// A move named a piece value that is not `Black` or `White`.
    InvalidPiece,
    /// A move named a direction set other than the non-empty set that
    /// legal-move detection produces for that cell and piece right now — a
    /// stale, forged or empty set, or any set aimed at an occupied cell.
    IllegalMove,
}

} // verus!
