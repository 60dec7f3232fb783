//! The grid of squares: the single source of truth for cell occupancy.

use vstd::prelude::*;

use crate::square::Square;
use crate::MoveError;

verus! {

/// Grid height of the reference board, border rows included.
pub const GRID_Y_LENGTH: usize = 10;

/// Grid width of the reference board, border columns included.
pub const GRID_X_LENGTH: usize = 10;

/// The number of columns of a board, seen as a sequence of rows.
pub open spec fn board_width(b: Seq<Seq<Square>>) -> int {
    if b.len() > 0 {
        b[0].len() as int
    } else {
        0
    }
}

/// True when row `y`, column `x` names a cell of the grid, border included.
pub open spec fn in_bounds(b: Seq<Seq<Square>>, y: int, x: int) -> bool {
    0 <= y < b.len() && 0 <= x < b[y].len()
}

/// True on the one-cell margin that every well-formed board keeps walled.
pub open spec fn on_border(h: int, w: int, y: int, x: int) -> bool {
    y == 0 || y == h - 1 || x == 0 || x == w - 1
}

/// A well-formed board: a rectangle of at least four rows and four columns
/// whose outermost rows and columns hold `Wall` and nothing else. The wall
/// margin is what guarantees that every directional scan terminates inside
/// the grid.
pub open spec fn board_seq_wf(b: Seq<Seq<Square>>) -> bool {
    &&& b.len() >= 4
    &&& board_width(b) >= 4
    &&& forall|i: int| 0 <= i < b.len() ==> (#[trigger] b[i]).len() == board_width(b)
    &&& forall|i: int, j: int|
        0 <= i < b.len() && 0 <= j < board_width(b) && on_border(
            b.len() as int,
            board_width(b),
            i,
            j,
        ) ==> #[trigger] b[i][j] == Square::Wall
}

/// The board `b` with the single cell at row `y`, column `x` replaced by `s`.
pub open spec fn set_cell(b: Seq<Seq<Square>>, y: int, x: int, s: Square) -> Seq<Seq<Square>> {
    b.update(y, b[y].update(x, s))
}

/// The square that a freshly constructed `h` by `w` board holds at row `i`,
/// column `j`: `Wall` on the margin, the four center seeds in two diagonally
/// opposite pairs, `Empty` everywhere else.
pub open spec fn init_cell(h: int, w: int, i: int, j: int) -> Square {
    if on_border(h, w, i, j) {
        Square::Wall
    } else if (i == h / 2 - 1 && j == w / 2 - 1) || (i == h / 2 && j == w / 2) {
        Square::Black
    } else if (i == h / 2 - 1 && j == w / 2) || (i == h / 2 && j == w / 2 - 1) {
        Square::White
    } else {
        Square::Empty
    }
}

/// The matrix of square states. Rows are indexed first: cell `(y, x)` is row
/// `y`, column `x`. Only the flip engine mutates a board after construction.
pub struct Board {
    squares: Vec<Vec<Square>>,
}

impl View for Board {
    type V = Seq<Seq<Square>>;

    closed spec fn view(&self) -> Seq<Seq<Square>> {
        self.squares@.map_values(|row: Vec<Square>| row@)
    }
}

impl Board {
    /// A well-formed board: rectangular, at least 4 by 4, walled margin.
    pub open spec fn wf(&self) -> bool {
        board_seq_wf(self@)
    }

    /// Builds the initial board for a grid of `height` rows and `width`
    /// columns, both even and at least four so that the walled margin and the
    /// four center seeds fit: all margin cells `Wall`, exactly two `Black`
    /// and two `White` cells diagonally paired at the center, every other
    /// interior cell `Empty`.
    pub fn new(height: usize, width: usize) -> (board: Board)
        requires
            4 <= height,
            4 <= width,
            height % 2 == 0,
            width % 2 == 0,
        ensures
            board.wf(),
            board@.len() == height,
            board_width(board@) == width,
            forall|i: int, j: int|
                0 <= i < height && 0 <= j < width ==> #[trigger] board@[i][j] == init_cell(
                    height as int,
                    width as int,
                    i,
                    j,
                ),
    {
        let mut squares: Vec<Vec<Square>> = Vec::new();
        let mut i: usize = 0;
        while i < height
            invariant
                4 <= height,
                4 <= width,
                i <= height,
                squares@.len() == i,
                forall|k: int| 0 <= k < i ==> (#[trigger] squares@[k])@.len() == width,
                forall|k: int, j: int|
                    0 <= k < i && 0 <= j < width ==> #[trigger] squares@[k]@[j] == init_cell(
                        height as int,
                        width as int,
                        k,
                        j,
                    ),
            decreases height - i,
        {
            let mut row: Vec<Square> = Vec::new();
            let mut j: usize = 0;
            while j < width
                invariant
                    4 <= height,
                    4 <= width,
                    i < height,
                    j <= width,
                    row@.len() == j,
                    forall|l: int| 0 <= l < j ==> #[trigger] row@[l] == init_cell(
                        height as int,
                        width as int,
                        i as int,
                        l,
                    ),
                decreases width - j,
            {
                let cell = if i == 0 || i == height - 1 || j == 0 || j == width - 1 {
                    Square::Wall
                } else if (i == height / 2 - 1 && j == width / 2 - 1) || (i == height / 2 && j
                    == width / 2) {
                    Square::Black
                } else if (i == height / 2 - 1 && j == width / 2) || (i == height / 2 && j == width
                    / 2 - 1) {
                    Square::White
                } else {
                    Square::Empty
                };
                row.push(cell);
                j = j + 1;
            }
            squares.push(row);
            i = i + 1;
        }
        let board = Board { squares };
        proof {
            assert forall|i: int, j: int| 0 <= i < height && 0 <= j < width implies #[trigger] board@[i][j]
                == init_cell(height as int, width as int, i, j) by {
                assert(board@[i] == squares@[i]@);
            }
            assert(board.wf());
        }
        board
    }

    /// A board is held as vectors, so its dimensions fit the machine.
    pub proof fn lemma_dims_bounded(&self)
        ensures
            self@.len() <= usize::MAX,
            self@.len() > 0 ==> board_width(self@) <= usize::MAX,
    {
        vstd::std_specs::vec::axiom_spec_len(&self.squares);
        if self.squares@.len() > 0 {
            vstd::std_specs::vec::axiom_spec_len(&self.squares@[0]);
            assert(self@[0] == self.squares@[0]@);
        }
    }

    /// The number of rows, border included.
    pub fn height(&self) -> (h: usize)
        ensures
            h == self@.len(),
    {
        self.squares.len()
    }

    /// The number of columns, border included.
    pub fn width(&self) -> (w: usize)
        requires
            self.wf(),
        ensures
            w == board_width(self@),
    {
        self.squares[0].len()
    }

    /// Reads one cell. In-bounds positions never fail; an out-of-bounds
    /// position is rejected, never silently wrapped.
    pub fn get(&self, y: usize, x: usize) -> (r: Result<Square, MoveError>)
        ensures
            in_bounds(self@, y as int, x as int) ==> r == Ok::<Square, MoveError>(
                self@[y as int][x as int],
            ),
            !in_bounds(self@, y as int, x as int) ==> r == Err::<Square, MoveError>(
                MoveError::OutOfBounds,
            ),
    {
        if y < self.squares.len() && x < self.squares[y].len() {
            proof {
                assert(self@[y as int] == self.squares@[y as int]@);
            }
            Ok(self.squares[y][x])
        } else {
            Err(MoveError::OutOfBounds)
        }
    }

    /// Reads one cell known to be in bounds.
    pub(crate) fn at(&self, y: usize, x: usize) -> (s: Square)
        requires
            in_bounds(self@, y as int, x as int),
        ensures
            s == self@[y as int][x as int],
    {
        proof {
            assert(self@[y as int] == self.squares@[y as int]@);
        }
        self.squares[y][x]
    }

    /// Writes one cell known to be in bounds; exactly that cell changes.
    pub(crate) fn set(&mut self, y: usize, x: usize, s: Square)
        requires
            in_bounds(old(self)@, y as int, x as int),
        ensures
            final(self)@ == set_cell(old(self)@, y as int, x as int, s),
    {
        proof {
            assert(old(self)@[y as int] == old(self).squares@[y as int]@);
        }
        let row = &mut self.squares[y];
        row[x] = s;
        proof {
            assert(self@ =~~= set_cell(old(self)@, y as int, x as int, s));
        }
    }
}

impl Default for Board {
    /// The reference board: ten rows and ten columns.
    fn default() -> (board: Board)
        ensures
            board.wf(),
            board@.len() == GRID_Y_LENGTH,
            board_width(board@) == GRID_X_LENGTH,
            forall|i: int, j: int|
                0 <= i < GRID_Y_LENGTH && 0 <= j < GRID_X_LENGTH ==> #[trigger] board@[i][j]
                    == init_cell(GRID_Y_LENGTH as int, GRID_X_LENGTH as int, i, j),
    {
        Board::new(GRID_Y_LENGTH, GRID_X_LENGTH)
    }
}

} // verus!
