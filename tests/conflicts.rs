use sudoku::conflicts::{cell_error, has_conflict, is_solved};
use sudoku::coords::{square_to_point_cords, Point};
use sudoku::grid::{is_consistent, SudokuPuzzle, EMPTY_SPACE};
use sudoku::puzzle::{seed_puzzles, PuzzleType};

fn seed() -> (SudokuPuzzle, SudokuPuzzle) {
    seed_puzzles(PuzzleType::Beginner)[0]
}

#[test]
fn two_equal_digits_in_a_row_conflict_alone() {
    let mut board = [EMPTY_SPACE; 81];
    board[20] = '4';
    board[25] = '4';
    for i in 0..81 {
        assert_eq!(has_conflict(&board, i), i == 20 || i == 25, "index {}", i);
    }
    assert!(!is_solved(&board));
}

#[test]
fn two_equal_digits_in_a_column_conflict() {
    let mut board = [EMPTY_SPACE; 81];
    board[4] = '9';
    board[76] = '9';
    assert!(has_conflict(&board, 4));
    assert!(has_conflict(&board, 76));
    assert!(!has_conflict(&board, 13));
}

#[test]
fn two_equal_digits_in_a_block_conflict() {
    let mut board = [EMPTY_SPACE; 81];
    // row 3 column 3 and row 5 column 5: same block, other row and column
    board[30] = '2';
    board[50] = '2';
    assert!(has_conflict(&board, 30));
    assert!(has_conflict(&board, 50));
    // row 3 column 6 shares the row of row 3 column 3, and nothing with row 5
    // column 5
    board[33] = '2';
    assert!(has_conflict(&board, 33));
    board[30] = '3';
    assert!(!has_conflict(&board, 50));
}

#[test]
fn different_digits_do_not_conflict() {
    let mut board = [EMPTY_SPACE; 81];
    board[0] = '1';
    board[1] = '2';
    board[9] = '3';
    board[10] = '4';
    for i in 0..81 {
        assert!(!has_conflict(&board, i));
    }
}

#[test]
fn empty_cells_never_conflict() {
    let board = [EMPTY_SPACE; 81];
    for i in 0..81 {
        assert!(!has_conflict(&board, i));
    }
    assert!(!is_solved(&board));
}

#[test]
fn completed_grid_has_no_conflict_and_is_solved() {
    let (_, solution) = seed();
    for i in 0..81 {
        assert!(!has_conflict(&solution, i));
    }
    assert!(is_solved(&solution));
}

#[test]
fn a_swapped_pair_breaks_the_solution() {
    let (_, mut solution) = seed();
    solution.swap(23, 24);
    assert!(!is_solved(&solution));
    assert!(has_conflict(&solution, 23));
    assert!(has_conflict(&solution, 24));
}

#[test]
fn cell_error_through_box_major_positions() {
    let (clues, _) = seed();
    let mut board = clues;
    // block 0, cell 4 is row 1 column 1, which is empty; a 7 there repeats
    // the 7 of the same block
    let p = square_to_point_cords(0, 4);
    assert_eq!(p, Point { x: 1, y: 1 });
    assert_eq!(board[p.as_board_cords()], EMPTY_SPACE);
    board[p.as_board_cords()] = '7';
    assert!(cell_error(&board, &p, 0));
    board[p.as_board_cords()] = '1';
    assert!(!cell_error(&board, &p, 0));
}

#[test]
fn consistency_check() {
    let (clues, solution) = seed();
    assert!(is_consistent(&clues, &solution));
    let mut wrong = clues;
    wrong[0] = '8';
    assert!(!is_consistent(&wrong, &solution));
    assert!(is_consistent(&[EMPTY_SPACE; 81], &solution));
}

#[test]
fn empty_cell_is_no_error_whatever_the_block() {
    let (clues, _) = seed();
    let p = Point { x: 4, y: 0 };
    assert_eq!(clues[p.as_board_cords()], EMPTY_SPACE);
    for square in 0..9 {
        assert!(!cell_error(&clues, &p, square));
    }
}
