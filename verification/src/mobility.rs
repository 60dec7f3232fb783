//! Legal-move detection: which of the eight directions flip for a piece
//! placed on a candidate cell.

use vstd::prelude::*;

use crate::board::{board_width, in_bounds, Board};
use crate::direction::{bit_set, dir_delta, dir_dx, dir_dy, lemma_or_bit, lemma_zero_bit, offset,
    NONE_DIRECTION};
use crate::square::{is_piece, opposite, Square};
use crate::MoveError;

verus! {

/// True when every row of `b` has the same number of columns.
pub open spec fn rectangular(b: Seq<Seq<Square>>) -> bool {
    forall|i: int| 0 <= i < b.len() ==> (#[trigger] b[i]).len() == board_width(b)
}

/// How many steps a scan in direction `k` can still take from row `y`,
/// column `x` before running off the grid: the termination measure of every
/// directional scan.
pub open spec fn scan_measure(b: Seq<Seq<Square>>, y: int, x: int, k: int) -> int {
    (if dir_dy(k) > 0 {
        b.len() - y
    } else if dir_dy(k) < 0 {
        y
    } else {
        0
    }) + (if dir_dx(k) > 0 {
        board_width(b) - x
    } else if dir_dx(k) < 0 {
        x
    } else {
        0
    })
}

/// The first square that is not the opponent of `p` on the ray that starts
/// one step beyond row `y`, column `x` in direction `k`; `Wall` if the ray
/// runs off the grid first. On a well-formed board the walled margin stops
/// every such scan before it leaves the grid.
pub open spec fn ray_scan(b: Seq<Seq<Square>>, y: int, x: int, k: int, p: Square) -> Square
    decreases scan_measure(b, y, x, k),
        when 0 <= k < 8 && rectangular(b)
{
    let ny = y + dir_dy(k);
    let nx = x + dir_dx(k);
    if !in_bounds(b, ny, nx) {
        Square::Wall
    } else if b[ny][nx] == opposite(p) {
        ray_scan(b, ny, nx, k, p)
    } else {
        b[ny][nx]
    }
}

/// Direction `k` is legal for `p` at row `y`, column `x`: the adjacent cell
/// in that direction holds the opponent of `p`, and the unbroken run of
/// opponent cells beyond it ends on a cell holding `p` itself — not `Empty`,
/// not `Wall`, not off the grid.
pub open spec fn ray_legal(b: Seq<Seq<Square>>, y: int, x: int, k: int, p: Square) -> bool {
    let ny = y + dir_dy(k);
    let nx = x + dir_dx(k);
    &&& in_bounds(b, ny, nx)
    &&& b[ny][nx] == opposite(p)
    &&& ray_scan(b, ny, nx, k, p) == p
}

impl Board {
    /// Scans direction `k` from the empty cell at row `y`, column `x` and
    /// reports whether placing `piece` there flips along it.
    fn scan_direction(&self, y: usize, x: usize, k: usize, piece: Square) -> (legal: bool)
        requires
            self.wf(),
            k < 8,
            is_piece(piece),
            in_bounds(self@, y as int, x as int),
            self@[y as int][x as int] == Square::Empty,
        ensures
            legal == ray_legal(self@, y as int, x as int, k as int, piece),
    {
        let opp = piece.invert_colors();
        let (dy, dx) = dir_delta(k);
        proof {
            self.lemma_dims_bounded();
            // The scanned cell is empty, so the walled margin puts it strictly
            // inside the grid and one step cannot leave the grid.
            assert(!crate::board::on_border(
                self@.len() as int,
                board_width(self@),
                y as int,
                x as int,
            ));
        }
        let ny = offset(y, dy);
        let nx = offset(x, dx);
        if self.at(ny, nx) != opp {
            return false;
        }
        let mut cy = offset(ny, dy);
        let mut cx = offset(nx, dx);
        while self.at(cy, cx) == opp
            invariant
                self.wf(),
                self@.len() <= usize::MAX,
                board_width(self@) <= usize::MAX,
                k < 8,
                is_piece(piece),
                opp == opposite(piece),
                dy as int == dir_dy(k as int),
                dx as int == dir_dx(k as int),
                in_bounds(self@, cy as int, cx as int),
                ray_scan(self@, ny as int, nx as int, k as int, piece) == (if self@[cy as int][cx
                    as int] == opposite(piece) {
                    ray_scan(self@, cy as int, cx as int, k as int, piece)
                } else {
                    self@[cy as int][cx as int]
                }),
            decreases scan_measure(self@, cy as int, cx as int, k as int),
        {
            proof {
                assert(!crate::board::on_border(
                    self@.len() as int,
                    board_width(self@),
                    cy as int,
                    cx as int,
                ));
            }
            cy = offset(cy, dy);
            cx = offset(cx, dx);
        }
        self.at(cy, cx) == piece
    }

    /// Detects every legal direction for placing `piece` on the cell at row
    /// `y`, column `x`.
    ///
    /// An out-of-bounds position is rejected. A cell that is not `Empty` —
    /// `Wall` included — is never a legal target and yields the empty set
    /// regardless of the piece. A piece value that is not `Black` or `White`
    /// is rejected, never a crash. Otherwise bit `k` of the returned set is
    /// set exactly when direction `k` is legal; `NONE_DIRECTION` signals that
    /// no direction flips.
    pub fn check_mobility(&self, y: usize, x: usize, piece: Square) -> (r: Result<u8, MoveError>)
        requires
            self.wf(),
        ensures
            !in_bounds(self@, y as int, x as int) ==> r == Err::<u8, MoveError>(
                MoveError::OutOfBounds,
            ),
            in_bounds(self@, y as int, x as int) && self@[y as int][x as int] != Square::Empty
                ==> r == Ok::<u8, MoveError>(NONE_DIRECTION),
            in_bounds(self@, y as int, x as int) && self@[y as int][x as int] == Square::Empty
                && !is_piece(piece) ==> r == Err::<u8, MoveError>(MoveError::InvalidPiece),
            in_bounds(self@, y as int, x as int) && self@[y as int][x as int] == Square::Empty
                && is_piece(piece) ==> r is Ok && forall|k: int|
                0 <= k < 8 ==> (#[trigger] bit_set(r->Ok_0, k) <==> ray_legal(
                    self@,
                    y as int,
                    x as int,
                    k,
                    piece,
                )),
    {
        if y >= self.height() || x >= self.width() {
            return Err(MoveError::OutOfBounds);
        }
        let selected_square = self.at(y, x);
        if selected_square != Square::Empty {
            return Ok(NONE_DIRECTION);
        }
        if piece != Square::Black && piece != Square::White {
            return Err(MoveError::InvalidPiece);
        }
        let mut direction: u8 = NONE_DIRECTION;
        proof {
            assert forall|j: int| 0 <= j < 8 implies !bit_set(direction, j) by {
                lemma_zero_bit(j as u8);
            }
        }
        let mut k: usize = 0;
        while k < 8
            invariant
                self.wf(),
                k <= 8,
                is_piece(piece),
                in_bounds(self@, y as int, x as int),
                self@[y as int][x as int] == Square::Empty,
                forall|j: int|
                    0 <= j < k ==> (#[trigger] bit_set(direction, j) <==> ray_legal(
                        self@,
                        y as int,
                        x as int,
                        j,
                        piece,
                    )),
                forall|j: int| k <= j < 8 ==> !bit_set(direction, j),
            decreases 8 - k,
        {
            if self.scan_direction(y, x, k, piece) {
                let bit: u8 = 1u8 << (k as u8);
                let old_direction: Ghost<u8> = Ghost(direction);
                direction = direction | bit;
                proof {
                    assert forall|j: int| 0 <= j < 8 implies (bit_set(direction, j) <==> (j == k
                        || bit_set(old_direction@, j))) by {
                        lemma_or_bit(old_direction@, k as u8, j as u8);
                    }
                }
            }
            k = k + 1;
        }
        Ok(direction)
    }
}

} // verus!
