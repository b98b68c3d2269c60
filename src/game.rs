//! The state of one game: the puzzle, the board as the player filled it, the
//! highlighted cell, the clock and the outcome.
use vstd::prelude::*;
use crate::conflicts::{is_solved, lemma_valid_grid_is_solved, solved};
use crate::coords::{linear_index, Point};
use crate::grid::{digits_in_order, is_cell_value, is_digit, SudokuPuzzle, EMPTY_SPACE};
use crate::puzzle::{dealt_from_corpus, Puzzle, PuzzleType};

verus! {

/// How often `c` occurs in `s`.
pub open spec fn count_of(s: Seq<char>, c: char) -> nat
    decreases s.len(),
{
    if s.len() == 0 {
        0
    } else {
        count_of(s.drop_last(), c) + if s.last() == c {
            1nat
        } else {
            0nat
        }
    }
}

/// Whether `c` is one of the digits 1 to 9.
fn is_digit_char(c: char) -> (r: bool)
    ensures
        r == is_digit(c),
{
    '1' <= c && c <= '9'
}

/// How often each digit occurs on the board: entry `d` counts digit `d + 1`.
pub fn digit_counts(board: &SudokuPuzzle) -> (r: [u8; 9])
    ensures
        forall|d: int| 0 <= d < 9 ==> #[trigger] r@[d] == count_of(board@, digits_in_order()[d]),
{
    let mut counts: [u8; 9] = [0; 9];
    for i in 0..81
        invariant
            forall|d: int|
                0 <= d < 9 ==> #[trigger] counts@[d] == count_of(
                    board@.take(i as int),
                    digits_in_order()[d],
                ),
            forall|d: int| 0 <= d < 9 ==> #[trigger] counts@[d] <= i,
    {
        let ghost before = counts@;
        let value = board[i];
        proof {
            assert(board@.take(i + 1).drop_last() =~= board@.take(i as int));
        }
        if is_digit_char(value) {
            let d = (value as u32 - '1' as u32) as usize;
            assert(digits_in_order()[d as int] == value);
            counts[d] = counts[d] + 1;
            proof {
                assert forall|e: int| 0 <= e < 9 implies #[trigger] counts@[e] == count_of(
                    board@.take(i + 1),
                    digits_in_order()[e],
                ) by {
                    assert(before[e] == count_of(board@.take(i as int), digits_in_order()[e]));
                    assert(e != d ==> digits_in_order()[e] != value);
                }
            }
        } else {
            proof {
                assert forall|e: int| 0 <= e < 9 implies #[trigger] counts@[e] == count_of(
                    board@.take(i + 1),
                    digits_in_order()[e],
                ) by {
                    assert(before[e] == count_of(board@.take(i as int), digits_in_order()[e]));
                    assert(is_digit(digits_in_order()[e]));
                }
            }
        }
    }
    proof {
        assert(board@.take(81) =~= board@);
    }
    counts
}

/// What the player asks for.
#[derive(Clone, Copy, PartialEq, Eq, Structural, Debug)]
pub enum Command {
    /// Move the highlight one row up.
    Up,
    /// Move the highlight one row down.
    Down,
    /// Move the highlight one column left.
    Left,
    /// Move the highlight one column right.
    Right,
    /// Write a digit into the highlighted cell; other characters do nothing.
    Enter(char),
    /// Empty the highlighted cell.
    Erase,
    /// Start a new puzzle of the given difficulty.
    NewGame(PuzzleType),
    /// Show the solution and end the game.
    GiveUp,
    /// Leave the game.
    Quit,
    /// The given number of milliseconds passed.
    Tick(u64),
}

/// The highlighted cell after a move command; other commands leave it.
pub open spec fn moved(p: Point, command: Command) -> Point {
    match command {
        Command::Up => Point { x: p.x, y: if p.y > 0 { (p.y - 1) as usize } else { p.y } },
        Command::Down => Point { x: p.x, y: if p.y < 8 { (p.y + 1) as usize } else { p.y } },
        Command::Left => Point { x: if p.x > 0 { (p.x - 1) as usize } else { p.x }, y: p.y },
        Command::Right => Point { x: if p.x < 8 { (p.x + 1) as usize } else { p.x }, y: p.y },
        _ => p,
    }
}

/// The value a command writes into the highlighted cell, if any.
pub open spec fn entry_of(command: Command) -> Option<char> {
    match command {
        Command::Enter(c) => if is_digit(c) {
            Some(c)
        } else {
            None
        },
        Command::Erase => Some(EMPTY_SPACE),
        _ => None,
    }
}

/// The board after writing `value` at `index`, which only takes where the
/// puzzle has no clue.
pub open spec fn edited(clues: Seq<char>, board: Seq<char>, index: int, value: char) -> Seq<char> {
    if clues[index] == EMPTY_SPACE {
        board.update(index, value)
    } else {
        board
    }
}

/// The clock after `ms` more milliseconds, stopping at the largest value.
pub open spec fn advanced(time_in_ms: u64, ms: u64) -> u64 {
    if time_in_ms + ms <= u64::MAX {
        (time_in_ms + ms) as u64
    } else {
        u64::MAX
    }
}

/// Writing into a cell that holds a clue leaves the board as it was,
/// whatever the value written.
pub proof fn lemma_edit_guard(clues: Seq<char>, board: Seq<char>, index: int, value: char)
    requires
        0 <= index < clues.len(),
        clues[index] != EMPTY_SPACE,
    ensures
        edited(clues, board, index, value) == board,
{
}

/// One game: the puzzle, the board as the player filled it, the highlighted
/// cell, the time played and the outcome.
pub struct Game {
    pub puzzle: Puzzle,
    pub displayed_puzzle: SudokuPuzzle,
    pub highlighted_cell: Point,
    pub time_in_ms: u64,
    pub gave_up: bool,
    pub has_won: bool,
}

impl Game {
    /// The puzzle is well formed, the highlight is on the board, every clue
    /// is shown as given, every cell holds a digit or nothing, and the game
    /// counts as won exactly when the board is solved.
    pub open spec fn wf(&self) -> bool {
        &&& self.puzzle.wf()
        &&& self.highlighted_cell.wf()
        &&& forall|i: int|
            0 <= i < 81 && self.puzzle.puzzle@[i] != EMPTY_SPACE ==> #[trigger] self.displayed_puzzle@[i]
                == self.puzzle.puzzle@[i]
        &&& forall|i: int| 0 <= i < 81 ==> is_cell_value(#[trigger] self.displayed_puzzle@[i])
        &&& self.has_won == solved(self.displayed_puzzle@)
    }

    /// The player gave up or won.
    pub open spec fn finished(&self) -> bool {
        self.gave_up || self.has_won
    }

    /// The linear index of the highlighted cell.
    pub open spec fn highlighted_index(&self) -> int {
        linear_index(self.highlighted_cell.y as int, self.highlighted_cell.x as int)
    }

    /// A new game on a fresh beginner puzzle, the top left cell highlighted.
    pub fn new() -> (r: Game)
        ensures
            r.wf(),
            r.puzzle.difficulty == PuzzleType::Beginner,
            r.displayed_puzzle == r.puzzle.puzzle,
            r.highlighted_cell == (Point { x: 0, y: 0 }),
            r.time_in_ms == 0,
            !r.gave_up,
            !r.has_won,
            dealt_from_corpus(r.puzzle.puzzle@, r.puzzle.solution@, PuzzleType::Beginner),
    {
        let puzzle = Puzzle::new_puzzle(PuzzleType::Beginner);
        let displayed_puzzle = puzzle.puzzle;
        let has_won = is_solved(&displayed_puzzle);
        Game {
            puzzle,
            displayed_puzzle,
            highlighted_cell: Point::origin(),
            time_in_ms: 0,
            gave_up: false,
            has_won,
        }
    }

    /// Replaces the puzzle by a fresh one of the given difficulty and resets
    /// the board, the clock and the outcome; the highlight stays.
    pub fn new_game(&mut self, difficulty: PuzzleType)
        requires
            old(self).wf(),
        ensures
            final(self).wf(),
            final(self).puzzle.difficulty == difficulty,
            final(self).displayed_puzzle == final(self).puzzle.puzzle,
            final(self).highlighted_cell == old(self).highlighted_cell,
            final(self).time_in_ms == 0,
            !final(self).gave_up,
            !final(self).has_won,
            dealt_from_corpus(final(self).puzzle.puzzle@, final(self).puzzle.solution@, difficulty),
    {
        self.time_in_ms = 0;
        self.puzzle = Puzzle::new_puzzle(difficulty);
        self.displayed_puzzle = self.puzzle.puzzle;
        self.gave_up = false;
        self.has_won = is_solved(&self.displayed_puzzle);
    }

    /// Writes `value` into the cell at `index` unless the puzzle has a clue
    /// there, in which case nothing changes.
    pub fn set_cell(&mut self, index: usize, value: char)
        requires
            old(self).wf(),
            index < 81,
            is_cell_value(value),
        ensures
            final(self).wf(),
            final(self).displayed_puzzle@ == edited(
                old(self).puzzle.puzzle@,
                old(self).displayed_puzzle@,
                index as int,
                value,
            ),
            old(self).puzzle.puzzle@[index as int] != EMPTY_SPACE ==> final(self).displayed_puzzle
                == old(self).displayed_puzzle,
            final(self).puzzle == old(self).puzzle,
            final(self).highlighted_cell == old(self).highlighted_cell,
            final(self).time_in_ms == old(self).time_in_ms,
            final(self).gave_up == old(self).gave_up,
    {
        if self.puzzle.puzzle[index] == EMPTY_SPACE {
            self.displayed_puzzle[index] = value;
            self.has_won = is_solved(&self.displayed_puzzle);
        }
    }

    /// Writes `val` into the highlighted cell unless it holds a clue.
    pub fn update_displayed_board(&mut self, val: char)
        requires
            old(self).wf(),
            is_cell_value(val),
        ensures
            final(self).wf(),
            final(self).displayed_puzzle@ == edited(
                old(self).puzzle.puzzle@,
                old(self).displayed_puzzle@,
                old(self).highlighted_index(),
                val,
            ),
            old(self).puzzle.puzzle@[old(self).highlighted_index()] != EMPTY_SPACE
                ==> final(self).displayed_puzzle == old(self).displayed_puzzle,
            final(self).puzzle == old(self).puzzle,
            final(self).highlighted_cell == old(self).highlighted_cell,
            final(self).time_in_ms == old(self).time_in_ms,
            final(self).gave_up == old(self).gave_up,
    {
        let index = self.highlighted_cell.as_board_cords();
        self.set_cell(index, val);
    }

    /// Shows the solution and ends the game.
    pub fn give_up(&mut self)
        requires
            old(self).wf(),
        ensures
            final(self).wf(),
            final(self).gave_up,
            final(self).displayed_puzzle == old(self).puzzle.solution,
            final(self).puzzle == old(self).puzzle,
            final(self).highlighted_cell == old(self).highlighted_cell,
            final(self).time_in_ms == old(self).time_in_ms,
    {
        self.gave_up = true;
        self.displayed_puzzle = self.puzzle.solution;
        proof {
            lemma_valid_grid_is_solved(self.displayed_puzzle@);
        }
        self.has_won = true;
    }

    /// Adds `ms` milliseconds to the time played, stopping at the largest
    /// value.
    pub fn tick(&mut self, ms: u64)
        ensures
            final(self).time_in_ms == advanced(old(self).time_in_ms, ms),
            final(self).puzzle == old(self).puzzle,
            final(self).displayed_puzzle == old(self).displayed_puzzle,
            final(self).highlighted_cell == old(self).highlighted_cell,
            final(self).gave_up == old(self).gave_up,
            final(self).has_won == old(self).has_won,
    {
        if self.time_in_ms <= u64::MAX - ms {
            self.time_in_ms = self.time_in_ms + ms;
        } else {
            self.time_in_ms = u64::MAX;
        }
    }

    /// Carries out one command and says whether the game goes on. Once the
    /// game is finished, only a new game or leaving is taken.
    pub fn handle(&mut self, command: Command) -> (keep_running: bool)
        requires
            old(self).wf(),
        ensures
            final(self).wf(),
            keep_running == !(command is Quit),
            old(self).finished() && !(command is NewGame) ==> *final(self) == *old(self),
            command is NewGame ==> final(self).puzzle.difficulty == command->NewGame_0
                && final(self).displayed_puzzle == final(self).puzzle.puzzle
                && final(self).time_in_ms == 0 && !final(self).gave_up && !final(self).has_won
                && final(self).highlighted_cell == old(self).highlighted_cell && dealt_from_corpus(
                final(self).puzzle.puzzle@,
                final(self).puzzle.solution@,
                command->NewGame_0,
            ),
            !old(self).finished() && (command is Up || command is Down || command is Left
                || command is Right) ==> *final(self) == (Game {
                highlighted_cell: moved(old(self).highlighted_cell, command),
                ..*old(self)
            }),
            !old(self).finished() && entry_of(command) is Some ==> final(self).displayed_puzzle@
                == edited(
                old(self).puzzle.puzzle@,
                old(self).displayed_puzzle@,
                old(self).highlighted_index(),
                entry_of(command)->0,
            ) && final(self).puzzle == old(self).puzzle && final(self).highlighted_cell == old(
                self,
            ).highlighted_cell && final(self).time_in_ms == old(self).time_in_ms
                && final(self).gave_up == old(self).gave_up,
            !old(self).finished() && command is Enter && entry_of(command) is None ==> *final(self)
                == *old(self),
            !old(self).finished() && command is GiveUp ==> final(self).gave_up
                && final(self).displayed_puzzle == old(self).puzzle.solution && final(self).puzzle
                == old(self).puzzle && final(self).highlighted_cell == old(self).highlighted_cell
                && final(self).time_in_ms == old(self).time_in_ms,
            !old(self).finished() && command is Tick ==> *final(self) == (Game {
                time_in_ms: advanced(old(self).time_in_ms, command->Tick_0),
                ..*old(self)
            }),
            command is Quit ==> *final(self) == *old(self),
    {
        if self.gave_up || self.has_won {
            match command {
                Command::NewGame(difficulty) => self.new_game(difficulty),
                Command::Quit => return false,
                _ => {},
            }
            return true;
        }
        match command {
            Command::Up => self.highlighted_cell.up(),
            Command::Down => self.highlighted_cell.down(),
            Command::Left => self.highlighted_cell.left(),
            Command::Right => self.highlighted_cell.right(),
            Command::Enter(c) => {
                if is_digit_char(c) {
                    self.update_displayed_board(c);
                }
            },
            Command::Erase => self.update_displayed_board(EMPTY_SPACE),
            Command::NewGame(difficulty) => self.new_game(difficulty),
            Command::GiveUp => self.give_up(),
            Command::Quit => return false,
            Command::Tick(ms) => self.tick(ms),
        }
        true
    }
}

} // verus!
