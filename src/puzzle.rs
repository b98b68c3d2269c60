//! Puzzles: the seed corpus by difficulty, and a fresh puzzle drawn from it.
use vstd::prelude::*;
use crate::grid::{consistent, has_empty_cell, valid, SudokuPuzzle};
use crate::puzzle_transformer::{
    is_digit_permutation, lemma_pipeline_keeps_an_empty_clue, transform_puzzle, transformed_clues,
    transformed_solution,
};
use crate::random::random_below;

verus! {

/// The difficulty tier of a puzzle.
#[derive(Clone, Copy, PartialEq, Eq, Structural, Debug)]
pub enum PuzzleType {
    Beginner,
    Easy,
    Hard,
}

impl PuzzleType {
    /// The name shown to the player.
    pub fn label(&self) -> (r: &'static str)
        ensures
            *self == PuzzleType::Beginner ==> r@ == "Beginner"@,
            *self == PuzzleType::Easy ==> r@ == "Easy"@,
            *self == PuzzleType::Hard ==> r@ == "Hard"@,
    {
        match self {
            PuzzleType::Beginner => "Beginner",
            PuzzleType::Easy => "Easy",
            PuzzleType::Hard => "Hard",
        }
    }
}

/// The clues of the seed of the corpus.
pub open spec fn easy_seed_clues() -> Seq<char> {
    seq!['7', '2', '3', '_', '_', '_', '1', '5', '9', '6', '_', '_', '3', '_', '2', '_', '_', '8',
        '8', '_', '_', '_', '1', '_', '_', '_', '2', '_', '7', '_', '6', '5', '4', '_', '2', '_',
        '_', '_', '4', '2', '_', '7', '3', '_', '_', '_', '5', '_', '9', '3', '1', '_', '4', '_',
        '5', '_', '_', '_', '7', '_', '_', '_', '3', '4', '_', '_', '1', '_', '3', '_', '_', '6',
        '9', '3', '2', '_', '_', '_', '7', '1', '4']
}

/// The solution of the seed of the corpus.
pub open spec fn easy_seed_solution() -> Seq<char> {
    seq!['7', '2', '3', '8', '4', '6', '1', '5', '9', '6', '1', '5', '3', '9', '2', '4', '7', '8',
        '8', '4', '9', '7', '1', '5', '6', '3', '2', '3', '7', '8', '6', '5', '4', '9', '2', '1',
        '1', '9', '4', '2', '8', '7', '3', '6', '5', '2', '5', '6', '9', '3', '1', '8', '4', '7',
        '5', '6', '1', '4', '7', '9', '2', '8', '3', '4', '8', '7', '1', '2', '3', '5', '9', '6',
        '9', '3', '2', '5', '6', '8', '7', '1', '4']
}

/// The seeds of a difficulty tier, each as clues and solution. The corpus
/// holds one seed so far, shared by every tier.
pub open spec fn seed_corpus(difficulty: PuzzleType) -> Seq<(Seq<char>, Seq<char>)> {
    seq![(easy_seed_clues(), easy_seed_solution())]
}

/// Every seed of every tier has clues that agree with its solution, a
/// completed solution, and at least one empty clue.
pub proof fn lemma_seed_corpus_sound(difficulty: PuzzleType)
    ensures
        seed_corpus(difficulty).len() >= 1,
        forall|i: int|
            0 <= i < seed_corpus(difficulty).len() ==> {
                let seed = #[trigger] seed_corpus(difficulty)[i];
                &&& consistent(seed.0, seed.1)
                &&& valid(seed.1)
                &&& has_empty_cell(seed.0)
            },
{
    let c = easy_seed_clues();
    let s = easy_seed_solution();
    assert(consistent(c, s));
    assert(valid(s));
    assert(c[3] == '_');
    assert(seed_corpus(difficulty)[0] == (c, s));
}

/// The clues and solution are seed `i` of the tier's corpus put through the
/// transform pipeline with some permutation of the digits, some pair of
/// reflections and fewer than four quarter turns.
pub open spec fn dealt_from_corpus(
    clues: Seq<char>,
    solution: Seq<char>,
    difficulty: PuzzleType,
) -> bool {
    exists|i: int, mapping: Seq<char>, horizontal: bool, vertical: bool, rot_count: nat|
        {
            &&& 0 <= i < seed_corpus(difficulty).len()
            &&& is_digit_permutation(mapping)
            &&& rot_count < 4
            &&& clues == #[trigger] transformed_clues(
                seed_corpus(difficulty)[i].0,
                seed_corpus(difficulty)[i].1,
                mapping,
                horizontal,
                vertical,
                rot_count,
            )
            &&& solution == transformed_solution(
                seed_corpus(difficulty)[i].1,
                mapping,
                horizontal,
                vertical,
                rot_count,
            )
        }
}

/// A puzzle: its clues, its solution and its difficulty.
pub struct Puzzle {
    pub puzzle: SudokuPuzzle,
    pub solution: SudokuPuzzle,
    pub difficulty: PuzzleType,
}

impl Puzzle {
    /// The clues agree with the solution, and the solution is a completed
    /// Sudoku.
    pub open spec fn wf(&self) -> bool {
        consistent(self.puzzle@, self.solution@) && valid(self.solution@)
    }

    /// A fresh puzzle of the given difficulty: a seed of that tier, picked
    /// at random, put through `transform_puzzle`.
    pub fn new_puzzle(difficulty: PuzzleType) -> (r: Puzzle)
        ensures
            r.wf(),
            r.difficulty == difficulty,
            dealt_from_corpus(r.puzzle@, r.solution@, difficulty),
            has_empty_cell(r.puzzle@),
    {
        let seeds = seed_puzzles(difficulty);
        let index = random_below(seeds.len() as u32) as usize;
        let (mut puzzle, mut solution) = seeds[index];
        let ghost seed = seed_corpus(difficulty)[index as int];
        transform_puzzle((&mut puzzle, &mut solution));
        proof {
            let (mapping, horizontal, vertical, rot_count) = choose|
                mapping: Seq<char>,
                horizontal: bool,
                vertical: bool,
                rot_count: nat,
            |
                {
                    &&& is_digit_permutation(mapping)
                    &&& rot_count < 4
                    &&& puzzle@ == transformed_clues(
                        seed.0,
                        seed.1,
                        mapping,
                        horizontal,
                        vertical,
                        rot_count,
                    )
                    &&& solution@ == transformed_solution(
                        seed.1,
                        mapping,
                        horizontal,
                        vertical,
                        rot_count,
                    )
                };
            lemma_pipeline_keeps_an_empty_clue(
                seed.0,
                seed.1,
                mapping,
                horizontal,
                vertical,
                rot_count,
            );
            assert(dealt_from_corpus(puzzle@, solution@, difficulty)) by {
                assert(seed == seed_corpus(difficulty)[index as int]);
            }
        }
        Puzzle { puzzle, solution, difficulty }
    }
}

/// The seed puzzles of a difficulty tier, each with its solution: the
/// tier's `seed_corpus`. Every seed's clues agree with its solution, every
/// solution is a completed Sudoku, and every seed has an empty clue.
pub fn seed_puzzles(difficulty: PuzzleType) -> (r: Vec<(SudokuPuzzle, SudokuPuzzle)>)
    ensures
        1 <= r.len() <= u32::MAX,
        r.len() == seed_corpus(difficulty).len(),
        forall|i: int|
            0 <= i < r.len() ==> (#[trigger] r[i].0@, r[i].1@) == seed_corpus(difficulty)[i],
        forall|i: int| 0 <= i < r.len() ==> consistent(#[trigger] r[i].0@, r[i].1@),
        forall|i: int| 0 <= i < r.len() ==> valid(#[trigger] r[i].1@),
        forall|i: int| 0 <= i < r.len() ==> has_empty_cell(#[trigger] r[i].0@),
{
    proof {
        lemma_seed_corpus_sound(difficulty);
    }
    let mut seeds: Vec<(SudokuPuzzle, SudokuPuzzle)> = Vec::new();
    // the corpus holds one seed so far, shared by every tier
    match difficulty {
        PuzzleType::Beginner | PuzzleType::Easy | PuzzleType::Hard => seeds.push(easy_seed()),
    }
    proof {
        assert(seeds@[0].0@ == easy_seed_clues());
        assert(seeds@[0].1@ == easy_seed_solution());
    }
    seeds
}

/// The seed of the corpus: its clues and its solution.
fn easy_seed() -> (r: (SudokuPuzzle, SudokuPuzzle))
    ensures
        r.0@ == easy_seed_clues(),
        r.1@ == easy_seed_solution(),
{
    let clues: SudokuPuzzle = [
        '7', '2', '3', '_', '_', '_', '1', '5', '9', '6', '_', '_', '3', '_', '2', '_', '_', '8',
        '8', '_', '_', '_', '1', '_', '_', '_', '2', '_', '7', '_', '6', '5', '4', '_', '2', '_',
        '_', '_', '4', '2', '_', '7', '3', '_', '_', '_', '5', '_', '9', '3', '1', '_', '4', '_',
        '5', '_', '_', '_', '7', '_', '_', '_', '3', '4', '_', '_', '1', '_', '3', '_', '_', '6',
        '9', '3', '2', '_', '_', '_', '7', '1', '4',
    ];
    let solution: SudokuPuzzle = [
        '7', '2', '3', '8', '4', '6', '1', '5', '9', '6', '1', '5', '3', '9', '2', '4', '7', '8',
        '8', '4', '9', '7', '1', '5', '6', '3', '2', '3', '7', '8', '6', '5', '4', '9', '2', '1',
        '1', '9', '4', '2', '8', '7', '3', '6', '5', '2', '5', '6', '9', '3', '1', '8', '4', '7',
        '5', '6', '1', '4', '7', '9', '2', '8', '3', '4', '8', '7', '1', '2', '3', '5', '9', '6',
        '9', '3', '2', '5', '6', '8', '7', '1', '4',
    ];
    proof {
        assert(clues@ =~= easy_seed_clues());
        assert(solution@ =~= easy_seed_solution());
    }
    (clues, solution)
}

} // verus!
