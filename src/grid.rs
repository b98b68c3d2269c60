//! The 81-cell grid and the two invariants of a puzzle: the clues agree with
//! the solution, and the solution is a completed Sudoku.
use vstd::prelude::*;

verus! {

/// The value of a cell that holds no digit.
pub const EMPTY_SPACE: char = '_';

/// A board, row by row: the cell in row `r` and column `c` is at `c + 9 * r`.
pub type SudokuPuzzle = [char; 81];

/// One of the digits 1 to 9.
pub open spec fn is_digit(c: char) -> bool {
    '1' <= c <= '9'
}

/// A digit or the empty cell.
pub open spec fn is_cell_value(c: char) -> bool {
    is_digit(c) || c == EMPTY_SPACE
}

/// The value in row `r` and column `c`.
pub open spec fn cell(g: Seq<char>, r: int, c: int) -> char {
    g[9 * r + c]
}

/// The value at row `r`, column `c` of the block in block row `br` and
/// block column `bc`, all four in `[0, 3)`.
pub open spec fn block_cell(g: Seq<char>, br: int, bc: int, r: int, c: int) -> char {
    cell(g, 3 * br + r, 3 * bc + c)
}

/// Every clue agrees with the solution.
pub open spec fn consistent(clues: Seq<char>, solution: Seq<char>) -> bool {
    &&& clues.len() == 81
    &&& solution.len() == 81
    &&& forall|i: int| 0 <= i < 81 && clues[i] != EMPTY_SPACE ==> #[trigger] clues[i] == solution[i]
}

/// No row holds a value twice.
pub open spec fn rows_distinct(g: Seq<char>) -> bool {
    forall|r: int, c1: int, c2: int|
        0 <= r < 9 && 0 <= c1 < 9 && 0 <= c2 < 9 && c1 != c2 ==> #[trigger] cell(g, r, c1)
            != #[trigger] cell(g, r, c2)
}

/// No column holds a value twice.
pub open spec fn cols_distinct(g: Seq<char>) -> bool {
    forall|c: int, r1: int, r2: int|
        0 <= c < 9 && 0 <= r1 < 9 && 0 <= r2 < 9 && r1 != r2 ==> #[trigger] cell(g, r1, c)
            != #[trigger] cell(g, r2, c)
}

/// No 3x3 block holds a value twice.
pub open spec fn blocks_distinct(g: Seq<char>) -> bool {
    forall|br: int, bc: int, r1: int, c1: int, r2: int, c2: int|
        0 <= br < 3 && 0 <= bc < 3 && 0 <= r1 < 3 && 0 <= c1 < 3 && 0 <= r2 < 3 && 0 <= c2 < 3
            && (r1 != r2 || c1 != c2) ==> #[trigger] block_cell(g, br, bc, r1, c1)
            != #[trigger] block_cell(g, br, bc, r2, c2)
}

/// Some cell of `g` is empty.
pub open spec fn has_empty_cell(g: Seq<char>) -> bool {
    exists|i: int| 0 <= i < 81 && #[trigger] g[i] == EMPTY_SPACE
}

/// A completed Sudoku: every cell holds a digit and no row, column or block
/// holds a digit twice, so each of them holds each digit exactly once.
pub open spec fn valid(g: Seq<char>) -> bool {
    &&& g.len() == 81
    &&& forall|i: int| 0 <= i < 81 ==> is_digit(#[trigger] g[i])
    &&& rows_distinct(g)
    &&& cols_distinct(g)
    &&& blocks_distinct(g)
}

/// The digits 1 to 9 in order.
pub open spec fn digits_in_order() -> Seq<char> {
    seq!['1', '2', '3', '4', '5', '6', '7', '8', '9']
}

/// Splits a linear index into its row and column.
pub proof fn lemma_index_parts(k: int)
    requires
        0 <= k < 81,
    ensures
        0 <= k / 9 < 9,
        0 <= k % 9 < 9,
        k == 9 * (k / 9) + k % 9,
{
    vstd::arithmetic::div_mod::lemma_fundamental_div_mod(k, 9);
}

/// Row and column of the linear index of a cell.
pub proof fn lemma_index_of_cell(r: int, c: int)
    requires
        0 <= r < 9,
        0 <= c < 9,
    ensures
        (9 * r + c) / 9 == r,
        (9 * r + c) % 9 == c,
{
    vstd::arithmetic::div_mod::lemma_fundamental_div_mod_converse(9 * r + c, 9, r, c);
}

/// Whether every clue agrees with the solution.
pub fn is_consistent(clues: &SudokuPuzzle, solution: &SudokuPuzzle) -> (r: bool)
    ensures
        r == consistent(clues@, solution@),
{
    for i in 0..81
        invariant
            forall|k: int| 0 <= k < i && clues@[k] != EMPTY_SPACE ==> #[trigger] clues@[k] == solution@[k],
    {
        if clues[i] != EMPTY_SPACE && clues[i] != solution[i] {
            return false;
        }
    }
    true
}

} // verus!
