use reversi::board::{Board, GRID_X_LENGTH, GRID_Y_LENGTH};
use reversi::square::Square;
use reversi::MoveError;

#[test]
fn initial_board_walls_on_margin() {
    let board = Board::default();
    for y in 0..GRID_Y_LENGTH {
        for x in 0..GRID_X_LENGTH {
            let s = board.get(y, x).unwrap();
            if y == 0 || y == GRID_Y_LENGTH - 1 || x == 0 || x == GRID_X_LENGTH - 1 {
                assert_eq!(s, Square::Wall);
            } else {
                assert_ne!(s, Square::Wall);
            }
        }
    }
}

#[test]
fn initial_board_center_seeds() {
    let board = Board::default();
    assert_eq!(board.get(4, 4).unwrap(), Square::Black);
    assert_eq!(board.get(5, 5).unwrap(), Square::Black);
    assert_eq!(board.get(4, 5).unwrap(), Square::White);
    assert_eq!(board.get(5, 4).unwrap(), Square::White);
}

#[test]
fn initial_board_exactly_two_of_each_color_rest_empty() {
    let board = Board::default();
    let mut blacks = 0;
    let mut whites = 0;
    let mut empties = 0;
    for y in 1..GRID_Y_LENGTH - 1 {
        for x in 1..GRID_X_LENGTH - 1 {
            match board.get(y, x).unwrap() {
                Square::Black => blacks += 1,
                Square::White => whites += 1,
                Square::Empty => empties += 1,
                Square::Wall => panic!("wall inside the playable area"),
            }
        }
    }
    assert_eq!(blacks, 2);
    assert_eq!(whites, 2);
    assert_eq!(empties, 8 * 8 - 4);
}

#[test]
fn out_of_bounds_get_is_rejected() {
    let board = Board::default();
    assert_eq!(board.get(GRID_Y_LENGTH, 0), Err(MoveError::OutOfBounds));
    assert_eq!(board.get(0, GRID_X_LENGTH), Err(MoveError::OutOfBounds));
    assert_eq!(board.get(usize::MAX, usize::MAX), Err(MoveError::OutOfBounds));
}

#[test]
fn custom_sized_board_keeps_the_invariants() {
    let board = Board::new(12, 8);
    assert_eq!(board.height(), 12);
    assert_eq!(board.width(), 8);
    for y in 0..12 {
        for x in 0..8 {
            let s = board.get(y, x).unwrap();
            if y == 0 || y == 11 || x == 0 || x == 7 {
                assert_eq!(s, Square::Wall);
            } else if (y == 5 && x == 3) || (y == 6 && x == 4) {
                assert_eq!(s, Square::Black);
            } else if (y == 5 && x == 4) || (y == 6 && x == 3) {
                assert_eq!(s, Square::White);
            } else {
                assert_eq!(s, Square::Empty);
            }
        }
    }
}

#[test]
fn invert_colors_swaps_colors_only() {
    assert_eq!(Square::Black.invert_colors(), Square::White);
    assert_eq!(Square::White.invert_colors(), Square::Black);
    assert_eq!(Square::Empty.invert_colors(), Square::Empty);
    assert_eq!(Square::Wall.invert_colors(), Square::Wall);
}
