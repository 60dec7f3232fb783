use reversi::board::{Board, GRID_X_LENGTH, GRID_Y_LENGTH};
use reversi::direction::{LEFT, LOWER, NONE_DIRECTION, UPPER};
use reversi::flip::{flip_colors, undo, FlipEvent};
use reversi::history::{Position, UpdateLog};
use reversi::square::Square;
use reversi::turn::{TurnColorState, Turns};
use reversi::MoveError;

fn snapshot(board: &Board) -> Vec<Vec<Square>> {
    let mut rows = Vec::new();
    for y in 0..board.height() {
        let mut row = Vec::new();
        for x in 0..board.width() {
            row.push(board.get(y, x).unwrap());
        }
        rows.push(row);
    }
    rows
}

#[test]
fn occupied_cells_yield_the_empty_set_regardless_of_piece() {
    let board = Board::default();
    for y in 0..GRID_Y_LENGTH {
        for x in 0..GRID_X_LENGTH {
            if board.get(y, x).unwrap() != Square::Empty {
                for piece in [Square::Black, Square::White, Square::Empty, Square::Wall] {
                    assert_eq!(board.check_mobility(y, x, piece), Ok(NONE_DIRECTION));
                }
            }
        }
    }
}

#[test]
fn opening_mobility_for_black() {
    let board = Board::default();
    // From the empty cell one row above the white disc at (4, 5): stepping
    // left crosses that white disc and anchors on the black disc at (4, 4).
    assert_eq!(board.check_mobility(4, 6, Square::Black), Ok(LEFT));
    // A cell next to nothing has no legal direction.
    assert_eq!(board.check_mobility(1, 1, Square::Black), Ok(NONE_DIRECTION));
}

#[test]
fn invalid_piece_is_rejected_not_a_crash() {
    let mut board = Board::default();
    let mut log = UpdateLog::default();
    let mut turns = Turns::default();
    let mut turn = TurnColorState::White;
    assert_eq!(board.check_mobility(3, 4, Square::Empty), Err(MoveError::InvalidPiece));
    assert_eq!(board.check_mobility(3, 4, Square::Wall), Err(MoveError::InvalidPiece));
    let r = flip_colors(&mut board, &mut turn, &mut log, &mut turns, 3, 4, Square::Empty, UPPER);
    assert_eq!(r, Err(MoveError::InvalidPiece));
    assert_eq!(board.get(3, 4).unwrap(), Square::Empty);
    assert_eq!(log.len(), 0);
    assert_eq!(turns.count(), 0);
    assert_eq!(turn, TurnColorState::White);
}

#[test]
fn out_of_bounds_move_is_rejected() {
    let mut board = Board::default();
    let mut log = UpdateLog::default();
    let mut turns = Turns::default();
    let mut turn = TurnColorState::Black;
    assert_eq!(
        board.check_mobility(GRID_Y_LENGTH, 4, Square::Black),
        Err(MoveError::OutOfBounds)
    );
    let r = flip_colors(&mut board, &mut turn, &mut log, &mut turns, 4, GRID_X_LENGTH, Square::Black, UPPER);
    assert_eq!(r, Err(MoveError::OutOfBounds));
    assert_eq!(turn, TurnColorState::Black);
    assert_eq!(log.len(), 0);
}

#[test]
fn illegal_direction_sets_are_rejected() {
    let mut board = Board::default();
    let mut log = UpdateLog::default();
    let mut turns = Turns::default();
    let mut turn = TurnColorState::White;
    // The empty set is never applicable.
    let r = flip_colors(&mut board, &mut turn, &mut log, &mut turns, 3, 4, Square::White, NONE_DIRECTION);
    assert_eq!(r, Err(MoveError::IllegalMove));
    // A stale set holding a direction that mobility would not report.
    let r = flip_colors(&mut board, &mut turn, &mut log, &mut turns, 3, 4, Square::White, UPPER | LOWER);
    assert_eq!(r, Err(MoveError::IllegalMove));
    // An occupied cell takes no move, whatever the set.
    let r = flip_colors(&mut board, &mut turn, &mut log, &mut turns, 4, 4, Square::White, UPPER);
    assert_eq!(r, Err(MoveError::IllegalMove));
    // Nothing was mutated by the rejections.
    assert_eq!(board.get(3, 4).unwrap(), Square::Empty);
    assert_eq!(board.get(4, 4).unwrap(), Square::Black);
    assert_eq!(log.len(), 0);
    assert_eq!(turns.count(), 0);
    assert_eq!(turn, TurnColorState::White);
}

#[test]
fn scenario_white_move_flips_and_toggles() {
    let mut board = Board::default();
    let mut log = UpdateLog::default();
    let mut turns = Turns::default();
    let mut turn = TurnColorState::White;
    let mask = board.check_mobility(3, 4, Square::White).unwrap();
    assert_ne!(mask & UPPER, NONE_DIRECTION);
    assert_eq!(mask, UPPER);
    let event = FlipEvent { x: 4, y: 3, direction: mask };
    let r = flip_colors(
        &mut board,
        &mut turn,
        &mut log,
        &mut turns,
        event.y,
        event.x,
        Square::White,
        event.direction,
    );
    assert_eq!(r, Ok(()));
    assert_eq!(board.get(3, 4).unwrap(), Square::White);
    assert_eq!(board.get(4, 4).unwrap(), Square::White);
    assert_eq!(board.get(5, 4).unwrap(), Square::White);
    assert_eq!(log.len(), 1);
    assert_eq!(turns.count(), 1);
    assert_eq!(turn, TurnColorState::Black);
}

#[test]
fn scenario_undo_restores_the_white_move() {
    let mut board = Board::default();
    let mut log = UpdateLog::default();
    let mut turns = Turns::default();
    let mut turn = TurnColorState::White;
    let mask = board.check_mobility(3, 4, Square::White).unwrap();
    flip_colors(&mut board, &mut turn, &mut log, &mut turns, 3, 4, Square::White, mask).unwrap();
    let record = undo(&mut board, &mut log, &mut turns, &mut turn).unwrap();
    assert_eq!(board.get(3, 4).unwrap(), Square::Empty);
    assert_eq!(board.get(4, 4).unwrap(), Square::Black);
    assert_eq!(log.len(), 0);
    assert_eq!(turns.count(), 0);
    assert_eq!(turn, TurnColorState::White);
    assert_eq!(record.position, Position { x: 4, y: 3 });
    assert_eq!(record.piece, Square::White);
    assert_eq!(record.flipped, vec![Position { x: 4, y: 4 }]);
}

#[test]
fn undo_on_empty_history_is_a_no_op() {
    let mut board = Board::default();
    let mut log = UpdateLog::default();
    let mut turns = Turns::default();
    let mut turn = TurnColorState::Black;
    let before = snapshot(&board);
    assert!(undo(&mut board, &mut log, &mut turns, &mut turn).is_none());
    assert_eq!(snapshot(&board), before);
    assert_eq!(turn, TurnColorState::Black);
    assert_eq!(log.len(), 0);
    assert_eq!(turns.count(), 0);
}

#[test]
fn round_trip_restores_board_history_and_turn() {
    let mut board = Board::default();
    let mut log = UpdateLog::default();
    let mut turns = Turns::default();
    let mut turn = TurnColorState::White;
    let initial = snapshot(&board);

    // White takes (3, 4), black answers on the diagonal at (3, 3), and white
    // caps the new black run from (3, 2).
    let moves = [(3usize, 4usize), (3, 3), (3, 2)];
    for (y, x) in moves {
        let piece = turn.put_square();
        let mask = board.check_mobility(y, x, piece).unwrap();
        assert_ne!(mask, NONE_DIRECTION);
        assert_eq!(
            flip_colors(&mut board, &mut turn, &mut log, &mut turns, y, x, piece, mask),
            Ok(())
        );
    }
    assert_eq!(log.len(), 3);
    assert_eq!(turns.count(), 3);
    assert_eq!(turn, TurnColorState::Black);
    // The capping white move flipped the black disc back at (3, 3); the
    // diagonal disc at (4, 4) keeps the color the black reply gave it.
    assert_eq!(board.get(3, 3).unwrap(), Square::White);
    assert_eq!(board.get(4, 4).unwrap(), Square::Black);

    for expected_len in [2usize, 1, 0] {
        assert!(undo(&mut board, &mut log, &mut turns, &mut turn).is_some());
        assert_eq!(log.len(), expected_len);
        assert_eq!(turns.count(), expected_len);
    }
    assert_eq!(snapshot(&board), initial);
    assert_eq!(turn, TurnColorState::White);
}

#[test]
fn turn_strictly_alternates_per_move_and_undo() {
    let mut board = Board::default();
    let mut log = UpdateLog::default();
    let mut turns = Turns::default();
    let mut turn = TurnColorState::Black;
    let piece = turn.put_square();
    assert_eq!(piece, Square::Black);
    let mask = board.check_mobility(4, 6, piece).unwrap();
    flip_colors(&mut board, &mut turn, &mut log, &mut turns, 4, 6, piece, mask).unwrap();
    assert_eq!(turn, TurnColorState::White);
    undo(&mut board, &mut log, &mut turns, &mut turn).unwrap();
    assert_eq!(turn, TurnColorState::Black);
}

#[test]
fn history_length_counts_applied_not_undone_moves() {
    let mut board = Board::default();
    let mut log = UpdateLog::default();
    let mut turns = Turns::default();
    let mut turn = TurnColorState::Black;
    assert_eq!(log.len(), 0);
    let mask = board.check_mobility(4, 6, Square::Black).unwrap();
    flip_colors(&mut board, &mut turn, &mut log, &mut turns, 4, 6, Square::Black, mask).unwrap();
    assert_eq!(log.len(), 1);
    assert_eq!(turns.count(), 1);
    let mask = board.check_mobility(3, 4, Square::White).unwrap();
    flip_colors(&mut board, &mut turn, &mut log, &mut turns, 3, 4, Square::White, mask).unwrap();
    assert_eq!(log.len(), 2);
    assert_eq!(turns.count(), 2);
    undo(&mut board, &mut log, &mut turns, &mut turn);
    assert_eq!(log.len(), 1);
    assert_eq!(turns.count(), 1);
    undo(&mut board, &mut log, &mut turns, &mut turn);
    assert_eq!(log.len(), 0);
    assert_eq!(turns.count(), 0);
    undo(&mut board, &mut log, &mut turns, &mut turn);
    assert_eq!(log.len(), 0);
    assert_eq!(turns.count(), 0);
}

#[test]
fn stale_subset_of_the_legal_mask_is_rejected() {
    let mut board = Board::default();
    let mut log = UpdateLog::default();
    let mut turns = Turns::default();
    let mut turn = TurnColorState::default();

    // Play greedy moves until some cell offers either color a move along two
    // or more directions, then apply a stale set holding only one of them.
    for _ in 0..20 {
        for piece in [Square::Black, Square::White] {
            for y in 1..GRID_Y_LENGTH - 1 {
                for x in 1..GRID_X_LENGTH - 1 {
                    let mask = board.check_mobility(y, x, piece).unwrap();
                    if mask != NONE_DIRECTION && (mask & (mask - 1)) != 0 {
                        let mut one_bit = 0u8;
                        for k in 0..8u8 {
                            if mask & (1u8 << k) != 0 {
                                one_bit = 1u8 << k;
                                break;
                            }
                        }
                        assert_ne!(one_bit, NONE_DIRECTION);
                        assert_ne!(one_bit, mask);
                        let before = snapshot(&board);
                        let before_turn = turn;
                        let before_len = log.len();
                        let r = flip_colors(
                            &mut board,
                            &mut turn,
                            &mut log,
                            &mut turns,
                            y,
                            x,
                            piece,
                            one_bit,
                        );
                        assert_eq!(r, Err(MoveError::IllegalMove));
                        assert_eq!(snapshot(&board), before);
                        assert_eq!(turn, before_turn);
                        assert_eq!(log.len(), before_len);
                        assert_eq!(turns.count(), before_len);
                        return;
                    }
                }
            }
        }
        let piece = turn.put_square();
        let mut moved = false;
        'hunt: for y in 1..GRID_Y_LENGTH - 1 {
            for x in 1..GRID_X_LENGTH - 1 {
                let mask = board.check_mobility(y, x, piece).unwrap();
                if mask != NONE_DIRECTION {
                    flip_colors(&mut board, &mut turn, &mut log, &mut turns, y, x, piece, mask)
                        .unwrap();
                    moved = true;
                    break 'hunt;
                }
            }
        }
        assert!(moved, "the opening leaves both colors a move this early");
    }
    panic!("no cell with two legal directions appeared");
}

#[test]
fn long_game_round_trip() {
    let mut board = Board::default();
    let mut log = UpdateLog::default();
    let mut turns = Turns::default();
    let mut turn = TurnColorState::default();
    let initial = snapshot(&board);
    let initial_turn = turn;

    // Play ten moves, each on the first cell the active color can take,
    // so later moves flip longer runs and several directions at once.
    let mut played = 0;
    while played < 10 {
        let piece = turn.put_square();
        let mut found = false;
        'hunt: for y in 1..GRID_Y_LENGTH - 1 {
            for x in 1..GRID_X_LENGTH - 1 {
                let mask = board.check_mobility(y, x, piece).unwrap();
                if mask != NONE_DIRECTION {
                    assert_eq!(
                        flip_colors(&mut board, &mut turn, &mut log, &mut turns, y, x, piece, mask),
                        Ok(())
                    );
                    found = true;
                    break 'hunt;
                }
            }
        }
        assert!(found, "the opening leaves both colors a move this early");
        played += 1;
        assert_eq!(log.len(), played);
        assert_eq!(turns.count(), played);
    }

    for remaining in (0..10usize).rev() {
        assert!(undo(&mut board, &mut log, &mut turns, &mut turn).is_some());
        assert_eq!(log.len(), remaining);
        assert_eq!(turns.count(), remaining);
    }
    assert_eq!(snapshot(&board), initial);
    assert_eq!(turn, initial_turn);
}

#[test]
fn put_square_maps_turn_to_placed_color() {
    assert_eq!(TurnColorState::Black.put_square(), Square::Black);
    assert_eq!(TurnColorState::White.put_square(), Square::White);
    assert_eq!(TurnColorState::default(), TurnColorState::Black);
}
