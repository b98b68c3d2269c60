use sudoku::conflicts::is_solved;
use sudoku::grid::{is_consistent, SudokuPuzzle, EMPTY_SPACE};
use sudoku::puzzle::{seed_puzzles, PuzzleType};
use sudoku::puzzle_transformer::{
    flop, flop_with, randomize_numbers, reflect_horizontal, reflect_vertical, relabel_numbers,
    rotate, rotate_90, rotate_by, transform_puzzle, transform_with,
};

fn seed() -> (SudokuPuzzle, SudokuPuzzle) {
    seed_puzzles(PuzzleType::Easy)[0]
}

fn row(g: &SudokuPuzzle, r: usize) -> String {
    g[r * 9..r * 9 + 9].iter().collect()
}

fn column(g: &SudokuPuzzle, c: usize) -> String {
    (0..9).map(|r| g[r * 9 + c]).collect()
}

fn numbered() -> SudokuPuzzle {
    let mut g = ['_'; 81];
    for (i, c) in g.iter_mut().enumerate() {
        *c = char::from(b'0' + (i % 10) as u8);
    }
    g
}

#[test]
fn rotate_90_moves_each_cell() {
    let original = numbered();
    let mut g = original;
    rotate_90(&mut g);
    for i in 0..9 {
        for j in 0..9 {
            assert_eq!(g[j * 9 + 9 - i - 1], original[i * 9 + j]);
        }
    }
}

#[test]
fn rotate_90_turns_the_first_row_into_the_last_column() {
    let (_, mut solution) = seed();
    rotate_90(&mut solution);
    assert_eq!(column(&solution, 8), "723846159");
    assert_eq!(row(&solution, 0), "945213867");
}

#[test]
fn rotating_four_times_gives_the_grid_back() {
    let (clues, solution) = seed();
    let (mut c, mut s) = (clues, solution);
    for _ in 0..4 {
        rotate_90(&mut c);
        rotate_90(&mut s);
    }
    assert_eq!(c, clues);
    assert_eq!(s, solution);
    let mut g = numbered();
    rotate_by((&mut c, &mut g), 4);
    assert_eq!(g, numbered());
}

#[test]
fn reflect_horizontal_swaps_the_rows() {
    let (clues, solution) = seed();
    let (mut c, mut s) = (clues, solution);
    reflect_horizontal((&mut c, &mut s));
    assert_eq!(row(&s, 0), "932568714");
    assert_eq!(row(&s, 8), "723846159");
    assert_eq!(row(&c, 0), "932___714");
    assert_eq!(row(&s, 4), row(&solution, 4));
}

#[test]
fn reflecting_twice_gives_the_grid_back() {
    let (clues, solution) = seed();
    let (mut c, mut s) = (clues, solution);
    reflect_horizontal((&mut c, &mut s));
    assert_ne!(s, solution);
    reflect_horizontal((&mut c, &mut s));
    assert_eq!(c, clues);
    assert_eq!(s, solution);
}

#[test]
fn reflect_vertical_is_a_turn_then_a_reflection() {
    let (clues, solution) = seed();
    let (mut c, mut s) = (clues, solution);
    reflect_vertical((&mut c, &mut s));
    let (mut c2, mut s2) = (clues, solution);
    rotate_90(&mut c2);
    rotate_90(&mut s2);
    reflect_horizontal((&mut c2, &mut s2));
    assert_eq!(c, c2);
    assert_eq!(s, s2);
    // the first row of the seed ends up as the last column, read upwards
    assert_eq!(column(&s, 8), "723846159".chars().rev().collect::<String>());
    assert!(is_solved(&s));
    assert!(is_consistent(&c, &s));
}

#[test]
fn relabel_with_reversed_digits() {
    let (clues, solution) = seed();
    let (mut c, mut s) = (clues, solution);
    let mapping = ['9', '8', '7', '6', '5', '4', '3', '2', '1'];
    relabel_numbers((&mut c, &mut s), &mapping);
    assert_eq!(row(&s, 0), "387264951");
    assert_eq!(row(&c, 0), "387___951");
    assert!(is_solved(&s));
    assert!(is_consistent(&c, &s));
}

#[test]
fn relabel_takes_clues_from_the_solution() {
    let (_, solution) = seed();
    let mut c = ['_'; 81];
    c[0] = '4';
    c[1] = 'x';
    let mut s = solution;
    let mapping = ['2', '3', '4', '5', '6', '7', '8', '9', '1'];
    relabel_numbers((&mut c, &mut s), &mapping);
    assert_eq!(s[0], '8');
    assert_eq!(c[0], '8');
    assert_eq!(c[1], s[1]);
    assert_eq!(c[2], EMPTY_SPACE);
}

#[test]
fn relabel_empties_what_is_not_a_digit() {
    let mut c = ['_'; 81];
    let mut s = ['_'; 81];
    s[0] = '1';
    s[1] = 'a';
    let mapping = ['5', '3', '4', '6', '7', '8', '9', '1', '2'];
    relabel_numbers((&mut c, &mut s), &mapping);
    assert_eq!(s[0], '5');
    assert_eq!(s[1], EMPTY_SPACE);
    assert_eq!(s[2], EMPTY_SPACE);
}

#[test]
fn flop_with_choices() {
    let (clues, solution) = seed();
    let (mut c, mut s) = (clues, solution);
    flop_with((&mut c, &mut s), false, false);
    assert_eq!(s, solution);
    flop_with((&mut c, &mut s), true, false);
    let (mut c2, mut s2) = (clues, solution);
    reflect_horizontal((&mut c2, &mut s2));
    assert_eq!(s, s2);
    assert_eq!(c, c2);
    flop_with((&mut c, &mut s), false, true);
    reflect_vertical((&mut c2, &mut s2));
    assert_eq!(s, s2);
}

#[test]
fn transform_with_fixed_choices() {
    let (clues, solution) = seed();
    let (mut c, mut s) = (clues, solution);
    let mapping = ['9', '8', '7', '6', '5', '4', '3', '2', '1'];
    transform_with((&mut c, &mut s), &mapping, true, false, 2);
    // relabel, reflect across the middle row, then turn half way
    let (mut c2, mut s2) = (clues, solution);
    relabel_numbers((&mut c2, &mut s2), &mapping);
    reflect_horizontal((&mut c2, &mut s2));
    rotate_90(&mut c2);
    rotate_90(&mut s2);
    rotate_90(&mut c2);
    rotate_90(&mut s2);
    assert_eq!(c, c2);
    assert_eq!(s, s2);
    // a half turn after the reflection reverses each row
    assert_eq!(row(&s, 0), "159462783");
    assert!(is_solved(&s));
    assert!(is_consistent(&c, &s));
}

#[test]
fn randomize_numbers_relabels() {
    let (clues, solution) = seed();
    let mut changed = false;
    for _ in 0..20 {
        let (mut c, mut s) = (clues, solution);
        randomize_numbers((&mut c, &mut s));
        assert!(is_solved(&s));
        assert!(is_consistent(&c, &s));
        // empty cells stay where they were
        for i in 0..81 {
            assert_eq!(c[i] == EMPTY_SPACE, clues[i] == EMPTY_SPACE);
        }
        changed |= s != solution;
    }
    assert!(changed);
}

#[test]
fn flop_and_rotate_draw_different_outcomes() {
    let (clues, solution) = seed();
    let mut flop_changed = false;
    let mut rotate_changed = false;
    for _ in 0..40 {
        let (mut c, mut s) = (clues, solution);
        flop((&mut c, &mut s));
        assert!(is_solved(&s) && is_consistent(&c, &s));
        flop_changed |= s != solution;
        let (mut c, mut s) = (clues, solution);
        rotate((&mut c, &mut s));
        assert!(is_solved(&s) && is_consistent(&c, &s));
        rotate_changed |= s != solution;
    }
    assert!(flop_changed);
    assert!(rotate_changed);
}

#[test]
fn transform_puzzle_keeps_both_invariants() {
    let (clues, solution) = seed();
    for _ in 0..50 {
        let (mut c, mut s) = (clues, solution);
        transform_puzzle((&mut c, &mut s));
        assert!(is_consistent(&c, &s));
        assert!(is_solved(&s));
    }
}

#[test]
fn transform_puzzle_keeps_an_inconsistent_pair_consistent_afterwards() {
    let (mut c, mut s) = seed();
    c[3] = '1';
    assert!(!is_consistent(&c, &s));
    transform_puzzle((&mut c, &mut s));
    assert!(is_consistent(&c, &s));
}
