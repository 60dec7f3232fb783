//! The flip engine: atomic application of a validated move, and its exact
//! reversal from the move history.

use vstd::prelude::*;

use crate::board::{board_seq_wf, board_width, in_bounds, on_border, set_cell, Board};
use crate::direction::{bit_set, dir_delta, dir_dx, dir_dy, lemma_eq_from_bits, offset,
    NONE_DIRECTION};
use crate::history::{
    board_after, game_wf, invert_at, pos_pairs, record_wf, undo_flips, MoveRecord, Position,
    UpdateLog,
};
use crate::mobility::{ray_legal, rectangular, scan_measure};
use crate::square::{is_piece, opposite, Square};
use crate::turn::{toggled, TurnColorState, Turns};
use crate::MoveError;

verus! {

/// A validated click, as the input layer hands it to the flip engine: the
/// clicked cell at column `x`, row `y`, and the direction set that
/// legal-move detection produced for it.
#[derive(Copy, Clone, Debug, PartialEq, Eq, Structural)]
pub struct FlipEvent {
    pub x: usize,
    pub y: usize,
    pub direction: u8,
}

/// The board after converting the unbroken run of opponent cells that starts
/// one step beyond row `y`, column `x` in direction `k` to `p`, paired with
/// the `(row, column)` list of the converted cells in conversion order. The
/// run ends at the first cell that is not the opponent of `p`; that anchor
/// cell is left untouched.
pub open spec fn flip_ray(b: Seq<Seq<Square>>, y: int, x: int, k: int, p: Square) -> (
    Seq<Seq<Square>>,
    Seq<(int, int)>,
)
    decreases scan_measure(b, y, x, k),
        when 0 <= k < 8 && rectangular(b)
{
    let ny = y + dir_dy(k);
    let nx = x + dir_dx(k);
    if in_bounds(b, ny, nx) && b[ny][nx] == opposite(p) {
        let rest = flip_ray(set_cell(b, ny, nx, p), ny, nx, k, p);
        (rest.0, seq![(ny, nx)] + rest.1)
    } else {
        (b, Seq::empty())
    }
}

/// The board and flip list after running `flip_ray` from row `y`, column `x`
/// for every direction of `mask` from `k` upward, in ascending direction
/// order.
pub open spec fn apply_dirs(
    b: Seq<Seq<Square>>,
    y: int,
    x: int,
    mask: u8,
    p: Square,
    k: int,
) -> (Seq<Seq<Square>>, Seq<(int, int)>)
    decreases 8 - k,
{
    if k < 0 || k >= 8 {
        (b, Seq::empty())
    } else {
        let step = if bit_set(mask, k) {
            flip_ray(b, y, x, k, p)
        } else {
            (b, Seq::empty())
        };
        let rest = apply_dirs(step.0, y, x, mask, p, k + 1);
        (rest.0, step.1 + rest.1)
    }
}

/// The board and flip list of one whole move: `p` placed on the cell at row
/// `y`, column `x`, then every direction of `mask` flipped.
pub open spec fn apply_move(b: Seq<Seq<Square>>, y: int, x: int, mask: u8, p: Square) -> (
    Seq<Seq<Square>>,
    Seq<(int, int)>,
)
{
    apply_dirs(set_cell(b, y, x, p), y, x, mask, p, 0)
}

/// A direction set fit for applying a move: non-empty, and bit for bit
/// exactly the set that legal-move detection reports for the same board,
/// cell and piece. A stale set — one missing a direction that is legal now,
/// or holding one that is not — is not fit.
pub open spec fn mask_ok(b: Seq<Seq<Square>>, y: int, x: int, p: Square, mask: u8) -> bool {
    &&& mask != NONE_DIRECTION
    &&& forall|k: int| 0 <= k < 8 ==> (#[trigger] bit_set(mask, k) <==> ray_legal(b, y, x, k, p))
}

/// Writing a playable color to a cell off the walled margin keeps a board
/// well formed and keeps its dimensions.
proof fn lemma_set_cell_wf(b: Seq<Seq<Square>>, y: int, x: int, s: Square)
    requires
        board_seq_wf(b),
        in_bounds(b, y, x),
        !on_border(b.len() as int, board_width(b), y, x),
    ensures
        board_seq_wf(set_cell(b, y, x, s)),
        set_cell(b, y, x, s).len() == b.len(),
        board_width(set_cell(b, y, x, s)) == board_width(b),
        forall|i: int, j: int|
            0 <= i < b.len() && 0 <= j < board_width(b) && !(i == y && j == x)
                ==> #[trigger] set_cell(b, y, x, s)[i][j] == b[i][j],
        set_cell(b, y, x, s)[y][x] == s,
{
    let c = set_cell(b, y, x, s);
    assert(c[y].len() == b[y].len());
    assert forall|i: int| 0 <= i < c.len() implies (#[trigger] c[i]).len() == board_width(c) by {
        assert(b[i].len() == board_width(b));
    }
}

/// A ray flip leaves a well-formed board well formed, keeps its dimensions,
/// converts only in-bounds, off-margin cells that held the opponent of `p`,
/// and lists exactly those cells.
proof fn lemma_flip_ray_wf(b: Seq<Seq<Square>>, y: int, x: int, k: int, p: Square)
    requires
        0 <= k < 8,
        board_seq_wf(b),
        is_piece(p),
    ensures
        board_seq_wf(flip_ray(b, y, x, k, p).0),
        flip_ray(b, y, x, k, p).0.len() == b.len(),
        board_width(flip_ray(b, y, x, k, p).0) == board_width(b),
        forall|i: int|
            0 <= i < flip_ray(b, y, x, k, p).1.len() ==> in_bounds(
                b,
                (#[trigger] flip_ray(b, y, x, k, p).1[i]).0,
                flip_ray(b, y, x, k, p).1[i].1,
            ),
    decreases scan_measure(b, y, x, k),
{
    let ny = y + dir_dy(k);
    let nx = x + dir_dx(k);
    if in_bounds(b, ny, nx) && b[ny][nx] == opposite(p) {
        let b1 = set_cell(b, ny, nx, p);
        assert(!on_border(b.len() as int, board_width(b), ny, nx));
        lemma_set_cell_wf(b, ny, nx, p);
        lemma_flip_ray_wf(b1, ny, nx, k, p);
        let r = flip_ray(b, y, x, k, p);
        let rest = flip_ray(b1, ny, nx, k, p);
        assert(r.1 == seq![(ny, nx)] + rest.1);
        assert forall|i: int| 0 <= i < r.1.len() implies in_bounds(
            b,
            (#[trigger] r.1[i]).0,
            r.1[i].1,
        ) by {
            if i == 0 {
                assert(r.1[i] == (ny, nx));
            } else {
                assert(r.1[i] == rest.1[i - 1]);
                assert(in_bounds(b1, rest.1[i - 1].0, rest.1[i - 1].1));
            }
        }
    }
}

/// Inverting a ray's flip list in reverse order restores the board the ray
/// flip started from: every listed cell held the opponent of `p` when it was
/// converted, so one inversion apiece gives each its old color back.
proof fn lemma_flip_ray_unflip(b: Seq<Seq<Square>>, y: int, x: int, k: int, p: Square)
    requires
        0 <= k < 8,
        board_seq_wf(b),
        is_piece(p),
    ensures
        undo_flips(flip_ray(b, y, x, k, p).0, flip_ray(b, y, x, k, p).1) == b,
    decreases scan_measure(b, y, x, k),
{
    let ny = y + dir_dy(k);
    let nx = x + dir_dx(k);
    if in_bounds(b, ny, nx) && b[ny][nx] == opposite(p) {
        let b1 = set_cell(b, ny, nx, p);
        assert(!on_border(b.len() as int, board_width(b), ny, nx));
        lemma_set_cell_wf(b, ny, nx, p);
        lemma_flip_ray_unflip(b1, ny, nx, k, p);
        let rest = flip_ray(b1, ny, nx, k, p);
        let whole = flip_ray(b, y, x, k, p);
        assert(whole.0 == rest.0 && whole.1 == seq![(ny, nx)] + rest.1);
        lemma_undo_flips_concat(rest.0, seq![(ny, nx)], rest.1);
        // Undoing the tail of the ray restores the board as it stood right
        // after the first conversion; one more inversion restores `b`.
        assert(undo_flips(rest.0, whole.1) == undo_flips(b1, seq![(ny, nx)]));
        let one = seq![(ny, nx)];
        assert(one.drop_last() =~= Seq::<(int, int)>::empty());
        assert(undo_flips(invert_at(b1, ny, nx), Seq::<(int, int)>::empty()) == invert_at(
            b1,
            ny,
            nx,
        ));
        assert(undo_flips(b1, one) == invert_at(b1, ny, nx));
        assert(b1[ny] == b[ny].update(nx, p));
        assert(b1[ny][nx] == p);
        assert(invert_at(b1, ny, nx) =~~= b);
    } else {
        assert(undo_flips(b, Seq::<(int, int)>::empty()) == b);
    }
}

/// Reversing a concatenated flip list is reversing its second part first,
/// then its first part.
proof fn lemma_undo_flips_concat(b: Seq<Seq<Square>>, l1: Seq<(int, int)>, l2: Seq<(int, int)>)
    ensures
        undo_flips(b, l1 + l2) == undo_flips(undo_flips(b, l2), l1),
    decreases l2.len(),
{
    if l2.len() == 0 {
        assert(l1 + l2 =~= l1);
    } else {
        let whole = l1 + l2;
        assert(whole.last() == l2.last());
        assert(whole.drop_last() =~= l1 + l2.drop_last());
        lemma_undo_flips_concat(invert_at(b, l2.last().0, l2.last().1), l1, l2.drop_last());
    }
}

/// What `lemma_flip_ray_wf` states, lifted over every direction of a mask.
proof fn lemma_apply_dirs_wf(b: Seq<Seq<Square>>, y: int, x: int, mask: u8, p: Square, k: int)
    requires
        board_seq_wf(b),
        is_piece(p),
    ensures
        board_seq_wf(apply_dirs(b, y, x, mask, p, k).0),
        apply_dirs(b, y, x, mask, p, k).0.len() == b.len(),
        board_width(apply_dirs(b, y, x, mask, p, k).0) == board_width(b),
        forall|i: int|
            0 <= i < apply_dirs(b, y, x, mask, p, k).1.len() ==> in_bounds(
                b,
                (#[trigger] apply_dirs(b, y, x, mask, p, k).1[i]).0,
                apply_dirs(b, y, x, mask, p, k).1[i].1,
            ),
    decreases 8 - k,
{
    if 0 <= k < 8 {
        let step = if bit_set(mask, k) {
            flip_ray(b, y, x, k, p)
        } else {
            (b, Seq::<(int, int)>::empty())
        };
        if bit_set(mask, k) {
            lemma_flip_ray_wf(b, y, x, k, p);
        }
        lemma_apply_dirs_wf(step.0, y, x, mask, p, k + 1);
        let rest = apply_dirs(step.0, y, x, mask, p, k + 1);
        let whole = apply_dirs(b, y, x, mask, p, k);
        assert(whole.1 == step.1 + rest.1);
        assert forall|i: int| 0 <= i < whole.1.len() implies in_bounds(
            b,
            (#[trigger] whole.1[i]).0,
            whole.1[i].1,
        ) by {
            if i < step.1.len() {
                assert(whole.1[i] == step.1[i]);
            } else {
                assert(whole.1[i] == rest.1[i - step.1.len()]);
                assert(in_bounds(step.0, whole.1[i].0, whole.1[i].1));
            }
        }
    }
}

/// Reversing the whole flip list of `apply_dirs`, last conversion first,
/// restores the board it started from.
proof fn lemma_apply_dirs_unflip(b: Seq<Seq<Square>>, y: int, x: int, mask: u8, p: Square, k: int)
    requires
        board_seq_wf(b),
        is_piece(p),
    ensures
        undo_flips(apply_dirs(b, y, x, mask, p, k).0, apply_dirs(b, y, x, mask, p, k).1) == b,
    decreases 8 - k,
{
    if 0 <= k < 8 {
        let step = if bit_set(mask, k) {
            flip_ray(b, y, x, k, p)
        } else {
            (b, Seq::<(int, int)>::empty())
        };
        if bit_set(mask, k) {
            lemma_flip_ray_wf(b, y, x, k, p);
            lemma_flip_ray_unflip(b, y, x, k, p);
        } else {
            assert(undo_flips(step.0, step.1) == b);
        }
        lemma_apply_dirs_unflip(step.0, y, x, mask, p, k + 1);
        let rest = apply_dirs(step.0, y, x, mask, p, k + 1);
        let whole = apply_dirs(b, y, x, mask, p, k);
        assert(whole.0 == rest.0 && whole.1 == step.1 + rest.1);
        lemma_undo_flips_concat(rest.0, step.1, rest.1);
    }
}

/// The round-trip law: a move — placement plus chained flips — followed by
/// its exact reversal — inverting every flipped cell, last first, then
/// clearing the placed cell — leaves a well-formed board cell for cell as it
/// was, whatever non-empty set of directions the move flipped.
pub proof fn lemma_move_round_trip(b: Seq<Seq<Square>>, y: int, x: int, mask: u8, p: Square)
    requires
        board_seq_wf(b),
        is_piece(p),
        in_bounds(b, y, x),
        b[y][x] == Square::Empty,
    ensures
        set_cell(
            undo_flips(apply_move(b, y, x, mask, p).0, apply_move(b, y, x, mask, p).1),
            y,
            x,
            Square::Empty,
        ) == b,
{
    assert(!on_border(b.len() as int, board_width(b), y, x));
    lemma_set_cell_wf(b, y, x, p);
    let b1 = set_cell(b, y, x, p);
    lemma_apply_dirs_unflip(b1, y, x, mask, p, 0);
    assert(set_cell(b1, y, x, Square::Empty) =~~= b);
}

/// Converts to `piece` the unbroken run of opponent cells that starts one
/// step beyond row `y`, column `x` in direction `k`, recording each
/// converted cell in `flipped` in conversion order. The `dy` and `dx` steps
/// are direction `k`'s deltas.
fn flip_ray_exec(
    board: &mut Board,
    y: usize,
    x: usize,
    k: usize,
    dy: i8,
    dx: i8,
    piece: Square,
    flipped: &mut Vec<Position>,
)
    requires
        board_seq_wf(old(board)@),
        is_piece(piece),
        k < 8,
        dy as int == dir_dy(k as int),
        dx as int == dir_dx(k as int),
        in_bounds(old(board)@, y as int, x as int),
        !on_border(old(board)@.len() as int, board_width(old(board)@), y as int, x as int),
    ensures
        board_seq_wf(final(board)@),
        final(board)@.len() == old(board)@.len(),
        board_width(final(board)@) == board_width(old(board)@),
        final(board)@ == flip_ray(old(board)@, y as int, x as int, k as int, piece).0,
        pos_pairs(final(flipped)@) == pos_pairs(old(flipped)@) + flip_ray(
            old(board)@,
            y as int,
            x as int,
            k as int,
            piece,
        ).1,
        final(flipped)@.len() >= old(flipped)@.len(),
        forall|i: int| 0 <= i < old(flipped)@.len() ==> final(flipped)@[i] == old(flipped)@[i],
        forall|i: int|
            old(flipped)@.len() <= i < final(flipped)@.len() ==> in_bounds(
                old(board)@,
                (#[trigger] final(flipped)@[i]).y as int,
                final(flipped)@[i].x as int,
            ),
    decreases scan_measure(board@, y as int, x as int, k as int),
{
    proof {
        board.lemma_dims_bounded();
    }
    let ny = offset(y, dy);
    let nx = offset(x, dx);
    let opp = piece.invert_colors();
    if board.at(ny, nx) == opp {
        let ghost b = board@;
        board.set(ny, nx, piece);
        proof {
            assert(!on_border(b.len() as int, board_width(b), ny as int, nx as int));
            lemma_set_cell_wf(b, ny as int, nx as int, piece);
        }
        flipped.push(Position { x: nx, y: ny });
        let ghost mid_flipped = flipped@;
        proof {
            assert(pos_pairs(mid_flipped) =~= pos_pairs(old(flipped)@).push(
                (ny as int, nx as int),
            ));
        }
        flip_ray_exec(board, ny, nx, k, dy, dx, piece, flipped);
        proof {
            let b1 = set_cell(b, ny as int, nx as int, piece);
            let rest = flip_ray(b1, ny as int, nx as int, k as int, piece);
            let whole = flip_ray(b, y as int, x as int, k as int, piece);
            assert(whole.0 == rest.0 && whole.1 == seq![(ny as int, nx as int)] + rest.1);
            assert(pos_pairs(flipped@) =~= pos_pairs(old(flipped)@) + whole.1);
            assert forall|i: int|
                old(flipped)@.len() <= i < flipped@.len() implies in_bounds(
                b,
                (#[trigger] flipped@[i]).y as int,
                flipped@[i].x as int,
            ) by {
                if i == old(flipped)@.len() {
                    assert(flipped@[i] == mid_flipped[i]);
                } else {
                    assert(in_bounds(b1, flipped@[i].y as int, flipped@[i].x as int));
                }
            }
        }
    } else {
        proof {
            assert(flip_ray(board@, y as int, x as int, k as int, piece) == (
                board@,
                Seq::<(int, int)>::empty(),
            ));
            assert(pos_pairs(flipped@) =~= pos_pairs(flipped@) + Seq::<(int, int)>::empty());
        }
    }
}

/// Applies one validated move atomically: places `piece` on the cell at row
/// `y`, column `x`, converts the opponent run in every direction of
/// `direction`, appends the move's record to the history, counts the move
/// and toggles the active color.
///
/// Validation comes first and no rejected call mutates anything. An
/// out-of-bounds cell is rejected; a piece that is not `Black` or `White` is
/// rejected, never a crash; and any direction set other than the non-empty
/// set legal-move detection reports now, for this cell and piece, is
/// rejected rather than silently applied — the empty set, a stale set from
/// an earlier board, and any set aimed at an occupied cell included.
pub fn flip_colors(
    board: &mut Board,
    turn_color_state: &mut TurnColorState,
    update_log: &mut UpdateLog,
    turns: &mut Turns,
    y: usize,
    x: usize,
    piece: Square,
    direction: u8,
) -> (r: Result<(), MoveError>)
    requires
        game_wf(old(board), old(update_log), old(turns)),
    ensures
        game_wf(final(board), final(update_log), final(turns)),
        !in_bounds(old(board)@, y as int, x as int) ==> r == Err::<(), MoveError>(
            MoveError::OutOfBounds,
        ),
        in_bounds(old(board)@, y as int, x as int) && old(board)@[y as int][x as int]
            != Square::Empty ==> r == Err::<(), MoveError>(MoveError::IllegalMove),
        in_bounds(old(board)@, y as int, x as int) && old(board)@[y as int][x as int]
            == Square::Empty && !is_piece(piece) ==> r == Err::<(), MoveError>(
            MoveError::InvalidPiece,
        ),
        in_bounds(old(board)@, y as int, x as int) && old(board)@[y as int][x as int]
            == Square::Empty && is_piece(piece) ==> (r == Ok::<(), MoveError>(()) <==> mask_ok(
            old(board)@,
            y as int,
            x as int,
            piece,
            direction,
        )),
        r is Err ==> final(board)@ == old(board)@ && final(update_log)@ == old(update_log)@
            && final(turns)@ == old(turns)@ && *final(turn_color_state) == *old(turn_color_state),
        r is Ok ==> ({
            let rec = final(update_log)@.last();
            &&& final(board)@ == apply_move(old(board)@, y as int, x as int, direction, piece).0
            &&& final(update_log)@ == old(update_log)@.push(rec)
            &&& rec.position == (Position { x, y })
            &&& rec.piece == piece
            &&& rec.prior@ == old(board)@
            &&& pos_pairs(rec.flipped@) == apply_move(
                old(board)@,
                y as int,
                x as int,
                direction,
                piece,
            ).1
            &&& final(turns)@ == old(turns)@ + 1
            &&& *final(turn_color_state) == toggled(*old(turn_color_state))
        }),
{
    let ghost ob = old(board)@;
    let legal_mask = match board.check_mobility(y, x, piece) {
        Ok(m) => m,
        Err(e) => {
            return Err(e);
        },
    };
    if direction == NONE_DIRECTION {
        return Err(MoveError::IllegalMove);
    }
    if direction != legal_mask {
        proof {
            // A rejected set cannot have been fit for this cell and piece:
            // a fit set agrees with the detected mask on every one of the
            // eight bits, and two masks that agree bit for bit are equal.
            if in_bounds(ob, y as int, x as int) && ob[y as int][x as int] == Square::Empty
                && is_piece(piece) && mask_ok(ob, y as int, x as int, piece, direction) {
                assert forall|ku: u8| ku < 8 implies ((direction & (1u8 << ku) != 0) == (
                legal_mask & (1u8 << ku) != 0)) by {
                    assert(bit_set(direction, ku as int) <==> ray_legal(
                        ob,
                        y as int,
                        x as int,
                        ku as int,
                        piece,
                    ));
                    assert(bit_set(legal_mask, ku as int) <==> ray_legal(
                        ob,
                        y as int,
                        x as int,
                        ku as int,
                        piece,
                    ));
                }
                lemma_eq_from_bits(direction, legal_mask);
                assert(false);
            }
        }
        return Err(MoveError::IllegalMove);
    }
    proof {
        // An occupied cell yields the empty detected mask, which the empty
        // direction set alone equals — and that one was rejected above.
        if in_bounds(ob, y as int, x as int) && ob[y as int][x as int] != Square::Empty {
            assert(legal_mask == NONE_DIRECTION);
            assert(false);
        }
        assert(in_bounds(ob, y as int, x as int) && ob[y as int][x as int] == Square::Empty
            && is_piece(piece));
        assert forall|k: int| 0 <= k < 8 implies (#[trigger] bit_set(direction, k) <==> ray_legal(
            ob,
            y as int,
            x as int,
            k,
            piece,
        )) by {
            assert(bit_set(legal_mask, k) <==> ray_legal(ob, y as int, x as int, k, piece));
        }
        assert(mask_ok(ob, y as int, x as int, piece, direction));
        assert(!on_border(ob.len() as int, board_width(ob), y as int, x as int));
        lemma_set_cell_wf(ob, y as int, x as int, piece);
    }
    board.set(y, x, piece);
    let ghost b1 = board@;
    let mut flipped: Vec<Position> = Vec::new();
    let mut k: usize = 0;
    while k < 8
        invariant
            board_seq_wf(ob),
            board_seq_wf(b1),
            board_seq_wf(board@),
            b1 == set_cell(ob, y as int, x as int, piece),
            b1.len() == ob.len(),
            board_width(b1) == board_width(ob),
            board@.len() == b1.len(),
            board_width(board@) == board_width(b1),
            is_piece(piece),
            k <= 8,
            in_bounds(b1, y as int, x as int),
            !on_border(b1.len() as int, board_width(b1), y as int, x as int),
            apply_dirs(b1, y as int, x as int, direction, piece, 0).0 == apply_dirs(
                board@,
                y as int,
                x as int,
                direction,
                piece,
                k as int,
            ).0,
            apply_dirs(b1, y as int, x as int, direction, piece, 0).1 == pos_pairs(flipped@)
                + apply_dirs(board@, y as int, x as int, direction, piece, k as int).1,
            forall|i: int|
                0 <= i < flipped@.len() ==> in_bounds(
                    ob,
                    (#[trigger] flipped@[i]).y as int,
                    flipped@[i].x as int,
                ),
        decreases 8 - k,
    {
        let bit: u8 = 1u8 << (k as u8);
        if direction & bit != 0 {
            let (dy, dx) = dir_delta(k);
            let ghost pre = board@;
            let ghost pre_flipped = flipped@;
            proof {
                assert(bit_set(direction, k as int));
            }
            flip_ray_exec(board, y, x, k, dy, dx, piece, &mut flipped);
            proof {
                let step = flip_ray(pre, y as int, x as int, k as int, piece);
                let rest = apply_dirs(step.0, y as int, x as int, direction, piece, k + 1);
                assert(apply_dirs(pre, y as int, x as int, direction, piece, k as int) == (
                    rest.0,
                    step.1 + rest.1,
                ));
                assert((pos_pairs(pre_flipped) + step.1) + rest.1 =~= pos_pairs(pre_flipped) + (
                step.1 + rest.1));
                assert forall|i: int| 0 <= i < flipped@.len() implies in_bounds(
                    ob,
                    (#[trigger] flipped@[i]).y as int,
                    flipped@[i].x as int,
                ) by {
                    if i >= pre_flipped.len() {
                        assert(in_bounds(pre, flipped@[i].y as int, flipped@[i].x as int));
                    } else {
                        assert(flipped@[i] == pre_flipped[i]);
                    }
                }
            }
        } else {
            proof {
                assert(!bit_set(direction, k as int));
                let rest = apply_dirs(board@, y as int, x as int, direction, piece, k + 1);
                assert(apply_dirs(board@, y as int, x as int, direction, piece, k as int) == (
                    rest.0,
                    Seq::<(int, int)>::empty() + rest.1,
                ));
                assert(Seq::<(int, int)>::empty() + rest.1 =~= rest.1);
            }
        }
        k = k + 1;
    }
    proof {
        assert(apply_dirs(board@, y as int, x as int, direction, piece, 8) == (
            board@,
            Seq::<(int, int)>::empty(),
        ));
        assert(pos_pairs(flipped@) + Seq::<(int, int)>::empty() =~= pos_pairs(flipped@));
    }
    let record = MoveRecord { position: Position { x, y }, piece, flipped, prior: Ghost(ob) };
    let ghost old_log = update_log@;
    update_log.push(record);
    let applied = update_log.len();
    turns.set_count(applied);
    turn_color_state.toggle();
    proof {
        lemma_move_round_trip(ob, y as int, x as int, direction, piece);
        let log = update_log@;
        let cur = board@;
        let n = old_log.len() as int;
        assert(record_wf(log[n], board_after(log, cur, n)));
        assert forall|i: int| 0 <= i < log.len() implies record_wf(
            #[trigger] log[i],
            board_after(log, cur, i),
        ) by {
            if i < n {
                assert(log[i] == old_log[i]);
                assert(record_wf(old_log[i], board_after(old_log, ob, i)));
                if i + 1 < n {
                    assert(board_after(log, cur, i) == log[i + 1].prior@);
                    assert(log[i + 1] == old_log[i + 1]);
                } else {
                    assert(board_after(old_log, ob, i) == ob);
                    assert(board_after(log, cur, i) == log[n].prior@);
                }
            }
        }
    }
    Ok(())
}

/// Takes back the last applied move, if any: inverts the color of every cell
/// the move flipped — the last flipped cell first — clears the placed cell
/// back to `Empty`, drops the move's record from the history, uncounts the
/// move and toggles the active color back.
///
/// The restored board equals the pre-move board cell for cell. Undo on an
/// empty history is a no-op, not an error: nothing changes, the turn
/// included, and `None` says so.
pub fn undo(
    board: &mut Board,
    update_log: &mut UpdateLog,
    turns: &mut Turns,
    turn_color_state: &mut TurnColorState,
) -> (r: Option<MoveRecord>)
    requires
        game_wf(old(board), old(update_log), old(turns)),
    ensures
        game_wf(final(board), final(update_log), final(turns)),
        old(update_log)@.len() == 0 ==> r is None && final(board)@ == old(board)@
            && final(update_log)@ == old(update_log)@ && final(turns)@ == old(turns)@
            && *final(turn_color_state) == *old(turn_color_state),
        old(update_log)@.len() > 0 ==> ({
            let rec = old(update_log)@.last();
            &&& r == Some(rec)
            &&& final(update_log)@ == old(update_log)@.drop_last()
            &&& final(board)@ == rec.prior@
            &&& final(turns)@ == old(turns)@ - 1
            &&& *final(turn_color_state) == toggled(*old(turn_color_state))
        }),
{
    let record = match update_log.pop_record() {
        Some(rec) => rec,
        None => {
            return None;
        },
    };
    let ghost ob = old(board)@;
    let ghost pairs = pos_pairs(record.flipped@);
    proof {
        let n = old(update_log)@.len() as int;
        assert(record_wf(old(update_log)@[n - 1], board_after(old(update_log)@, ob, n - 1)));
        assert forall|j: int| 0 <= j < record.flipped@.len() implies in_bounds(
            ob,
            (#[trigger] record.flipped@[j]).y as int,
            record.flipped@[j].x as int,
        ) by {
            assert(in_bounds(
                record.prior@,
                record.flipped@[j].y as int,
                record.flipped@[j].x as int,
            ));
        }
    }
    let mut i: usize = record.flipped.len();
    proof {
        assert(pairs.take(record.flipped@.len() as int) =~= pairs);
    }
    while i > 0
        invariant
            i <= record.flipped@.len(),
            pairs == pos_pairs(record.flipped@),
            board_seq_wf(ob),
            board_seq_wf(board@),
            board@.len() == ob.len(),
            board_width(board@) == board_width(ob),
            forall|j: int|
                0 <= j < record.flipped@.len() ==> in_bounds(
                    ob,
                    (#[trigger] record.flipped@[j]).y as int,
                    record.flipped@[j].x as int,
                ),
            undo_flips(ob, pairs) == undo_flips(board@, pairs.take(i as int)),
        decreases i,
    {
        let ghost i0 = i as int;
        let ghost prev = board@;
        i = i - 1;
        let p = record.flipped[i];
        proof {
            assert(in_bounds(ob, p.y as int, p.x as int));
            assert(board@[p.y as int].len() == board_width(board@));
            assert(in_bounds(board@, p.y as int, p.x as int));
        }
        let current = board.at(p.y, p.x);
        board.set(p.y, p.x, current.invert_colors());
        proof {
            assert(pairs.take(i0).last() == pairs[i0 - 1]);
            assert(pairs[i0 - 1] == (p.y as int, p.x as int));
            assert(pairs.take(i0).drop_last() =~= pairs.take(i0 - 1));
            assert(board@ == invert_at(prev, p.y as int, p.x as int));
            assert(undo_flips(prev, pairs.take(i0)) == undo_flips(board@, pairs.take(i0 - 1)));
            // Inverting a cell keeps the board well formed: a margin cell
            // holds `Wall`, whose inverse is `Wall` again.
            if on_border(prev.len() as int, board_width(prev), p.y as int, p.x as int) {
                assert(prev[p.y as int][p.x as int] == Square::Wall);
                assert(board@ =~~= prev);
            } else {
                lemma_set_cell_wf(prev, p.y as int, p.x as int, opposite(
                    prev[p.y as int][p.x as int],
                ));
            }
        }
    }
    proof {
        assert(pairs.take(0) =~= Seq::<(int, int)>::empty());
        assert(undo_flips(board@, Seq::<(int, int)>::empty()) == board@);
        assert(board@ == undo_flips(ob, pairs));
        assert(in_bounds(board@, record.position.y as int, record.position.x as int)) by {
            assert(in_bounds(record.prior@, record.position.y as int, record.position.x as int));
        }
    }
    board.set(record.position.y, record.position.x, Square::Empty);
    proof {
        assert(board@ == record.prior@);
    }
    turns.decrement();
    turn_color_state.toggle();
    proof {
        let log = update_log@;
        let cur = board@;
        let old_log = old(update_log)@;
        let n = old_log.len() as int;
        assert forall|i: int| 0 <= i < log.len() implies record_wf(
            #[trigger] log[i],
            board_after(log, cur, i),
        ) by {
            assert(log[i] == old_log[i]);
            assert(record_wf(old_log[i], board_after(old_log, ob, i)));
            if i + 1 < log.len() {
                assert(board_after(log, cur, i) == log[i + 1].prior@);
                assert(log[i + 1] == old_log[i + 1]);
            } else {
                assert(board_after(old_log, ob, i) == old_log[n - 1].prior@);
            }
        }
    }
    Some(record)
}

} // verus!
