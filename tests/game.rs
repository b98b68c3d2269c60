use sudoku::conflicts::{has_conflict, is_solved};
use sudoku::coords::Point;
use sudoku::game::{digit_counts, Command, Game};
use sudoku::grid::{is_consistent, SudokuPuzzle, EMPTY_SPACE};
use sudoku::puzzle::{seed_puzzles, PuzzleType};

fn clue_index(g: &Game) -> usize {
    (0..81).find(|i| g.puzzle.puzzle[*i] != EMPTY_SPACE).unwrap()
}

fn open_index(g: &Game) -> usize {
    (0..81).find(|i| g.puzzle.puzzle[*i] == EMPTY_SPACE).unwrap()
}

fn peers_hold(board: &SudokuPuzzle, index: usize) -> bool {
    let (r, c) = (index / 9, index % 9);
    (0..81).any(|j| {
        let (rj, cj) = (j / 9, j % 9);
        j != index
            && (rj == r || cj == c || (rj / 3 == r / 3 && cj / 3 == c / 3))
            && board[j] == board[index]
    })
}

#[test]
fn new_game_starts_from_the_clues() {
    let g = Game::new();
    assert_eq!(g.displayed_puzzle, g.puzzle.puzzle);
    assert_eq!(g.puzzle.difficulty, PuzzleType::Beginner);
    assert_eq!(g.highlighted_cell, Point { x: 0, y: 0 });
    assert_eq!(g.time_in_ms, 0);
    assert!(!g.gave_up);
    assert!(!g.has_won);
}

#[test]
fn set_cell_on_a_clue_changes_nothing() {
    let mut g = Game::new();
    let before = g.displayed_puzzle;
    let i = clue_index(&g);
    g.set_cell(i, '5');
    g.set_cell(i, EMPTY_SPACE);
    assert_eq!(g.displayed_puzzle, before);
}

#[test]
fn set_cell_on_an_open_cell_writes_it() {
    let mut g = Game::new();
    let i = open_index(&g);
    g.set_cell(i, '3');
    assert_eq!(g.displayed_puzzle[i], '3');
    g.set_cell(i, EMPTY_SPACE);
    assert_eq!(g.displayed_puzzle, g.puzzle.puzzle);
}

#[test]
fn end_to_end_session() {
    let mut g = Game::new();
    g.new_game(PuzzleType::Easy);
    assert_eq!(g.puzzle.difficulty, PuzzleType::Easy);
    assert!(is_consistent(&g.puzzle.puzzle, &g.puzzle.solution));
    assert!(is_solved(&g.puzzle.solution));
    let i = open_index(&g);
    g.set_cell(i, '5');
    assert_eq!(g.displayed_puzzle[i], '5');
    assert_eq!(has_conflict(&g.displayed_puzzle, i), peers_hold(&g.displayed_puzzle, i));
    for j in 0..81 {
        if g.displayed_puzzle[j] == EMPTY_SPACE {
            assert!(!has_conflict(&g.displayed_puzzle, j));
        }
    }
    g.give_up();
    assert!(g.gave_up);
    assert_eq!(g.displayed_puzzle, g.puzzle.solution);
}

#[test]
fn filling_in_the_solution_wins() {
    let mut g = Game::new();
    assert!(!g.has_won);
    let last_open = (0..81).rev().find(|i| g.puzzle.puzzle[*i] == EMPTY_SPACE).unwrap();
    for i in 0..81 {
        g.set_cell(i, g.puzzle.solution[i]);
        assert_eq!(g.has_won, i >= last_open);
    }
    assert!(g.has_won);
    assert!(!g.gave_up);
}

#[test]
fn commands_move_and_write() {
    let mut g = Game::new();
    assert!(g.handle(Command::Right));
    assert!(g.handle(Command::Down));
    assert!(g.handle(Command::Down));
    assert_eq!(g.highlighted_cell, Point { x: 1, y: 2 });
    assert!(g.handle(Command::Up));
    assert!(g.handle(Command::Left));
    assert!(g.handle(Command::Left));
    assert_eq!(g.highlighted_cell, Point { x: 0, y: 1 });
    let index = g.highlighted_cell.as_board_cords();
    let before = g.displayed_puzzle;
    g.handle(Command::Enter('6'));
    if g.puzzle.puzzle[index] == EMPTY_SPACE {
        assert_eq!(g.displayed_puzzle[index], '6');
        g.handle(Command::Erase);
        assert_eq!(g.displayed_puzzle[index], EMPTY_SPACE);
    } else {
        assert_eq!(g.displayed_puzzle, before);
    }
    let before = g.displayed_puzzle;
    g.handle(Command::Enter('x'));
    assert_eq!(g.displayed_puzzle, before);
    g.handle(Command::Tick(250));
    g.handle(Command::Tick(250));
    assert_eq!(g.time_in_ms, 500);
    assert!(!g.handle(Command::Quit));
}

#[test]
fn finished_game_takes_only_new_game_or_quit() {
    let mut g = Game::new();
    assert!(g.handle(Command::GiveUp));
    assert!(g.gave_up);
    assert_eq!(g.displayed_puzzle, g.puzzle.solution);
    let cell = g.highlighted_cell;
    g.handle(Command::Down);
    g.handle(Command::Tick(100));
    g.handle(Command::Erase);
    assert_eq!(g.highlighted_cell, cell);
    assert_eq!(g.time_in_ms, 0);
    assert_eq!(g.displayed_puzzle, g.puzzle.solution);
    assert!(g.handle(Command::NewGame(PuzzleType::Hard)));
    assert!(!g.gave_up);
    assert!(!g.has_won);
    assert_eq!(g.puzzle.difficulty, PuzzleType::Hard);
    assert_eq!(g.displayed_puzzle, g.puzzle.puzzle);
    g.give_up();
    assert!(!g.handle(Command::Quit));
}

#[test]
fn clock_stops_at_its_largest_value() {
    let mut g = Game::new();
    g.tick(u64::MAX - 5);
    g.tick(10);
    assert_eq!(g.time_in_ms, u64::MAX);
}

#[test]
fn digit_counts_of_boards() {
    let (clues, solution) = seed_puzzles(PuzzleType::Easy)[0];
    assert_eq!(digit_counts(&solution), [9; 9]);
    assert_eq!(digit_counts(&[EMPTY_SPACE; 81]), [0; 9]);
    let counts = digit_counts(&clues);
    for d in 0..9 {
        let c = char::from(b'1' + d as u8);
        assert_eq!(counts[d] as usize, clues.iter().filter(|x| **x == c).count());
    }
    assert_eq!(counts[6], 5);
}

#[test]
fn writing_on_a_highlighted_clue_changes_nothing() {
    let mut g = Game::new();
    let i = clue_index(&g);
    g.highlighted_cell = Point { x: i % 9, y: i / 9 };
    let before = g.displayed_puzzle;
    g.update_displayed_board('1');
    g.handle(Command::Enter('9'));
    g.handle(Command::Erase);
    assert_eq!(g.displayed_puzzle, before);
    assert_eq!(g.puzzle.puzzle, before);
}

#[test]
fn every_new_game_starts_unwon_with_open_cells() {
    let seed_open = seed_puzzles(PuzzleType::Beginner)[0]
        .0
        .iter()
        .filter(|c| **c == EMPTY_SPACE)
        .count();
    let mut g = Game::new();
    for tier in [PuzzleType::Beginner, PuzzleType::Easy, PuzzleType::Hard] {
        g.give_up();
        assert!(g.has_won);
        g.new_game(tier);
        assert!(!g.has_won);
        assert!(!g.gave_up);
        let open = g.displayed_puzzle.iter().filter(|c| **c == EMPTY_SPACE).count();
        assert_eq!(open, seed_open);
    }
}
