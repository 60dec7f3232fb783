//! The move history: one record per applied move, enough to reverse it.

use vstd::prelude::*;

use crate::board::{board_width, in_bounds, set_cell, board_seq_wf, Board};
use crate::square::{opposite, Square};
use crate::turn::Turns;

verus! {

/// A pair of grid coordinates: column `x`, row `y`.
#[derive(Copy, Clone, Debug, PartialEq, Eq, Structural)]
pub struct Position {
    pub x: usize,
    pub y: usize,
}

/// The `(row, column)` pairs named by a list of positions.
pub open spec fn pos_pairs(ps: Seq<Position>) -> Seq<(int, int)> {
    ps.map_values(|p: Position| (p.y as int, p.x as int))
}

/// The board `b` with the cell at row `y`, column `x` replaced by its
/// opponent-color counterpart; `Empty` and `Wall` cells stay as they are.
pub open spec fn invert_at(b: Seq<Seq<Square>>, y: int, x: int) -> Seq<Seq<Square>> {
    set_cell(b, y, x, opposite(b[y][x]))
}

/// The board `b` after inverting the color at every listed cell, the last
/// listed cell first: the exact reverse of the order in which a move flipped
/// them.
pub open spec fn undo_flips(b: Seq<Seq<Square>>, ps: Seq<(int, int)>) -> Seq<Seq<Square>>
    decreases ps.len(),
{
    if ps.len() == 0 {
        b
    } else {
        undo_flips(invert_at(b, ps.last().0, ps.last().1), ps.drop_last())
    }
}

/// One applied move: the placed position, its color, and the ordered list of
/// positions its flips converted. The ghost `prior` field carries the board
/// as it stood before the move; a well-formed record's flips undo to exactly
/// that board.
pub struct MoveRecord {
    /// Where the piece was placed.
    pub position: Position,
    /// The color that was placed.
    pub piece: Square,
    /// Every cell the move flipped, in flip order.
    pub flipped: Vec<Position>,
    /// The board before the move.
    pub prior: Ghost<Seq<Seq<Square>>>,
}

/// What makes a record reversible against the board `after` that stands once
/// the record's move (and nothing later) is applied: inverting the flipped
/// cells in reverse order and clearing the placed cell yields back the
/// well-formed board the move started from.
pub open spec fn record_wf(r: MoveRecord, after: Seq<Seq<Square>>) -> bool {
    &&& board_seq_wf(r.prior@)
    &&& after.len() == r.prior@.len()
    &&& board_width(after) == board_width(r.prior@)
    &&& in_bounds(r.prior@, r.position.y as int, r.position.x as int)
    &&& forall|i: int|
        0 <= i < r.flipped@.len() ==> in_bounds(
            r.prior@,
            (#[trigger] r.flipped@[i]).y as int,
            r.flipped@[i].x as int,
        )
    &&& set_cell(
        undo_flips(after, pos_pairs(r.flipped@)),
        r.position.y as int,
        r.position.x as int,
        Square::Empty,
    ) == r.prior@
}

/// The ordered stack of applied-and-not-undone moves. It grows by one on
/// each applied move, shrinks by one on each undo, and is never touched
/// anywhere but at its tail.
pub struct UpdateLog {
    records: Vec<MoveRecord>,
}

impl View for UpdateLog {
    type V = Seq<MoveRecord>;

    closed spec fn view(&self) -> Seq<MoveRecord> {
        self.records@
    }
}

impl UpdateLog {
    /// How many applied moves the history holds.
    pub fn len(&self) -> (n: usize)
        ensures
            n == self@.len(),
    {
        self.records.len()
    }

    /// Appends the record of a freshly applied move.
    pub(crate) fn push(&mut self, r: MoveRecord)
        ensures
            final(self)@ == old(self)@.push(r),
    {
        self.records.push(r);
    }

    /// Removes and returns the record of the last applied move, if any.
    pub(crate) fn pop_record(&mut self) -> (r: Option<MoveRecord>)
        ensures
            old(self)@.len() > 0 ==> r == Some(old(self)@.last()) && final(self)@ == old(
                self,
            )@.drop_last(),
            old(self)@.len() == 0 ==> r == None::<MoveRecord> && final(self)@ == old(self)@,
    {
        let r = self.records.pop();
        proof {
            if old(self)@.len() > 0 {
                assert(self@ =~= old(self)@.drop_last());
            }
        }
        r
    }
}

impl Default for UpdateLog {
    /// The history is empty at game start.
    fn default() -> (log: UpdateLog)
        ensures
            log@.len() == 0,
    {
        UpdateLog { records: Vec::new() }
    }
}

/// The board a record's move left behind, within a history `log` whose most
/// recent move produced the current board `cur`: for every record but the
/// last, that is the board the next record started from.
pub open spec fn board_after(log: Seq<MoveRecord>, cur: Seq<Seq<Square>>, i: int) -> Seq<
    Seq<Square>,
> {
    if i + 1 < log.len() {
        log[i + 1].prior@
    } else {
        cur
    }
}

/// The invariant that ties the board, the history and the move counter
/// together: the board is well formed, the counter equals the history's
/// length, and every record undoes the board its move produced back to the
/// board it started from. Constructed game states satisfy it and every move
/// or undo preserves it.
pub open spec fn game_wf(board: &Board, update_log: &UpdateLog, turns: &Turns) -> bool {
    &&& board.wf()
    &&& turns@ == update_log@.len()
    &&& forall|i: int|
        0 <= i < update_log@.len() ==> record_wf(
            #[trigger] update_log@[i],
            board_after(update_log@, board@, i),
        )
}

} // verus!
