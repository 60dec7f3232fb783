//! The turn controller: whose color moves next, and the count of applied moves.

use vstd::prelude::*;

use crate::square::Square;

verus! {

/// The color to move. Black opens the game; the state toggles exactly once
/// per applied move and once per undone move.
#[derive(Copy, Clone, Debug, PartialEq, Eq, Structural, Hash)]
pub enum TurnColorState {
    Black,
    White,
}

/// The turn state after one move is applied or undone.
pub open spec fn toggled(t: TurnColorState) -> TurnColorState {
    match t {
        TurnColorState::Black => TurnColorState::White,
        TurnColorState::White => TurnColorState::Black,
    }
}

impl TurnColorState {
    /// The square value that a placement by the active color uses.
    pub fn put_square(&self) -> (s: Square)
        ensures
            *self == TurnColorState::Black ==> s == Square::Black,
            *self == TurnColorState::White ==> s == Square::White,
    {
        match self {
            TurnColorState::Black => Square::Black,
            TurnColorState::White => Square::White,
        }
    }

    /// Flips the active color; applied once per move and once per undo.
    pub(crate) fn toggle(&mut self)
        ensures
            *final(self) == toggled(*old(self)),
    {
        *self = match *self {
            TurnColorState::Black => TurnColorState::White,
            TurnColorState::White => TurnColorState::Black,
        };
    }
}

impl Default for TurnColorState {
    /// Black moves first.
    fn default() -> (t: TurnColorState)
        ensures
            t == TurnColorState::Black,
    {
        TurnColorState::Black
    }
}

/// Toggling the turn twice gives the turn back; this is why a move followed
/// by its undo restores the active color.
pub proof fn lemma_toggled_involution(t: TurnColorState)
    ensures
        toggled(toggled(t)) == t,
{
}

/// The count of moves applied and not yet undone. It always equals the
/// length of the move history.
pub struct Turns {
    count: usize,
}

impl View for Turns {
    type V = int;

    closed spec fn view(&self) -> int {
        self.count as int
    }
}

impl Turns {
    /// How many applied moves stand, undone ones not counted.
    pub fn count(&self) -> (c: usize)
        ensures
            c == self@,
    {
        self.count
    }

    /// Makes the counter agree with a history that holds `n` moves.
    pub(crate) fn set_count(&mut self, n: usize)
        ensures
            final(self)@ == n,
    {
        self.count = n;
    }

    /// Records that the last applied move was taken back.
    pub(crate) fn decrement(&mut self)
        requires
            old(self)@ > 0,
        ensures
            final(self)@ == old(self)@ - 1,
    {
        self.count = self.count - 1;
    }
}

impl Default for Turns {
    /// No move is applied at game start.
    fn default() -> (t: Turns)
        ensures
            t@ == 0,
    {
        Turns { count: 0 }
    }
}

} // verus!
