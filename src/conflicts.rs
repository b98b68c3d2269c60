//! Which cells of a board break the rule that a digit appears at most once in
//! each row, column and block, and whether a board is solved.
use vstd::prelude::*;
use crate::coords::{
    block_of, box_major_col, box_major_row, cell_in_block_of, lemma_box_major_inverse,
    lemma_box_major_parts, linear, linear_index, square_to_point_cords, Point,
};
use crate::grid::{
    block_cell, cell, is_digit, lemma_index_of_cell, lemma_index_parts, valid, SudokuPuzzle,
    EMPTY_SPACE,
};

verus! {

/// Row of a linear index.
pub open spec fn row_of(i: int) -> int {
    i / 9
}

/// Column of a linear index.
pub open spec fn col_of(i: int) -> int {
    i % 9
}

/// The cells at `a` and `b` lie in the same 3x3 block.
pub open spec fn same_block(a: int, b: int) -> bool {
    row_of(a) / 3 == row_of(b) / 3 && col_of(a) / 3 == col_of(b) / 3
}

/// The cells at `a` and `b` share a row, a column or a block.
pub open spec fn peers(a: int, b: int) -> bool {
    row_of(a) == row_of(b) || col_of(a) == col_of(b) || same_block(a, b)
}

/// The cell at `index` holds a digit that another cell of its row, column or
/// block holds too.
pub open spec fn conflicts(board: Seq<char>, index: int) -> bool {
    &&& board[index] != EMPTY_SPACE
    &&& exists|j: int|
        0 <= j < 81 && j != index && peers(index, j) && #[trigger] board[j] == board[index]
}

/// No cell is empty and no cell conflicts.
pub open spec fn solved(board: Seq<char>) -> bool {
    &&& forall|i: int| 0 <= i < 81 ==> #[trigger] board[i] != EMPTY_SPACE
    &&& forall|i: int| 0 <= i < 81 ==> !#[trigger] conflicts(board, i)
}

/// The linear index of cell `k` of block `s`, box-major.
pub open spec fn block_index(s: int, k: int) -> int {
    linear_index(box_major_row(s, k), box_major_col(s, k))
}

/// Whether the cell at `point_cords`, which lies in block `current_square`,
/// holds a digit that another cell of its block, row or column holds too.
/// An empty cell never counts as an error.
pub fn cell_error(board: &SudokuPuzzle, point_cords: &Point, current_square: usize) -> (r: bool)
    requires
        point_cords.wf(),
        current_square < 9,
    ensures
        board@[linear_index(point_cords.y as int, point_cords.x as int)] == EMPTY_SPACE ==> !r,
        current_square == block_of(point_cords.y as int, point_cords.x as int) ==> r == conflicts(
            board@,
            linear_index(point_cords.y as int, point_cords.x as int),
        ),
{
    let own = point_cords.as_board_cords();
    let value = board[own];
    if value == EMPTY_SPACE {
        return false;
    }
    let ghost row = point_cords.y as int;
    let ghost col = point_cords.x as int;
    proof {
        lemma_index_of_cell(row, col);
        lemma_box_major_inverse(row, col);
    }
    let mut duplicate_found = false;
    // check for any duplicates in the same square
    for i in 0..9
        invariant
            own == linear_index(row, col),
            own < 81,
            value == board@[own as int],
            current_square < 9,
            duplicate_found == exists|k: int|
                0 <= k < i && block_index(current_square as int, k) != own && #[trigger] board@[block_index(
                    current_square as int,
                    k,
                )] == value,
    {
        let current_cord = square_to_point_cords(current_square, i);
        let idx = current_cord.as_board_cords();
        assert(idx == block_index(current_square as int, i as int));
        if idx != own && board[idx] == value {
            duplicate_found = true;
        }
    }
    let ghost in_block = duplicate_found;
    // check for any duplicates in the same row
    for i in 0..9
        invariant
            point_cords.wf(),
            own == linear_index(row, col),
            own < 81,
            row == point_cords.y,
            value == board@[own as int],
            duplicate_found == (in_block || exists|k: int|
                0 <= k < i && linear_index(row, k) != own && #[trigger] board@[linear_index(row, k)]
                    == value),
    {
        let idx = linear(point_cords.y, i);
        if idx != own && board[idx] == value {
            duplicate_found = true;
        }
    }
    let ghost in_row = duplicate_found;
    // check for any duplicates in the same column
    for i in 0..9
        invariant
            point_cords.wf(),
            own == linear_index(row, col),
            own < 81,
            col == point_cords.x,
            value == board@[own as int],
            duplicate_found == (in_row || exists|k: int|
                0 <= k < i && linear_index(k, col) != own && #[trigger] board@[linear_index(k, col)]
                    == value),
    {
        let idx = linear(i, point_cords.x);
        if idx != own && board[idx] == value {
            duplicate_found = true;
        }
    }
    proof {
        let g = board@;
        let o = own as int;
        if current_square != block_of(row, col) {
        } else if duplicate_found {
            if in_block {
                let k = choose|k: int|
                    0 <= k < 9 && block_index(current_square as int, k) != own && #[trigger] g[block_index(
                        current_square as int,
                        k,
                    )] == value;
                let j = block_index(current_square as int, k);
                lemma_box_major_parts(current_square as int, k);
                lemma_index_of_cell(box_major_row(current_square as int, k), box_major_col(current_square as int, k));
                assert(peers(o, j));
            } else if in_row {
                let k = choose|k: int|
                    0 <= k < 9 && linear_index(row, k) != own && #[trigger] g[linear_index(row, k)] == value;
                lemma_index_of_cell(row, k);
                assert(peers(o, linear_index(row, k)));
            } else {
                let k = choose|k: int|
                    0 <= k < 9 && linear_index(k, col) != own && #[trigger] g[linear_index(k, col)] == value;
                lemma_index_of_cell(k, col);
                assert(peers(o, linear_index(k, col)));
            }
        } else {
            assert forall|j: int| 0 <= j < 81 && j != o && peers(o, j) implies #[trigger] g[j] != value by {
                lemma_index_parts(j);
                let jr = j / 9;
                let jc = j % 9;
                if jr == row {
                    assert(g[linear_index(row, jc)] != value);
                } else if jc == col {
                    assert(g[linear_index(jr, col)] != value);
                } else {
                    lemma_box_major_inverse(jr, jc);
                    let k = cell_in_block_of(jr, jc);
                    assert(block_index(current_square as int, k) == j);
                    assert(g[block_index(current_square as int, k)] != value);
                }
            }
        }
    }
    duplicate_found
}

/// Whether the cell at linear index `index` conflicts with a peer.
pub fn has_conflict(board: &SudokuPuzzle, index: usize) -> (r: bool)
    requires
        index < 81,
    ensures
        r == conflicts(board@, index as int),
{
    let point = Point { x: index % 9, y: index / 9 };
    proof {
        lemma_index_parts(index as int);
    }
    let square = (point.y / 3) * 3 + point.x / 3;
    cell_error(board, &point, square)
}

/// Whether the board is solved: no cell is empty and no cell conflicts.
pub fn is_solved(board: &SudokuPuzzle) -> (r: bool)
    ensures
        r == solved(board@),
{
    for i in 0..81
        invariant
            forall|k: int| 0 <= k < i ==> #[trigger] board@[k] != EMPTY_SPACE,
            forall|k: int| 0 <= k < i ==> !#[trigger] conflicts(board@, k),
    {
        if board[i] == EMPTY_SPACE {
            return false;
        }
        if has_conflict(board, i) {
            return false;
        }
    }
    true
}

/// In a completed Sudoku no cell conflicts, and the board is solved.
pub proof fn lemma_valid_grid_is_solved(g: Seq<char>)
    requires
        valid(g),
    ensures
        forall|i: int| 0 <= i < 81 ==> !#[trigger] conflicts(g, i),
        solved(g),
{
    assert forall|i: int| 0 <= i < 81 implies !#[trigger] conflicts(g, i) by {
        if conflicts(g, i) {
            let j = choose|j: int|
                0 <= j < 81 && j != i && peers(i, j) && #[trigger] g[j] == g[i];
            lemma_index_parts(i);
            lemma_index_parts(j);
            let (ri, ci, rj, cj) = (i / 9, i % 9, j / 9, j % 9);
            if ri == rj {
                assert(cell(g, ri, ci) != cell(g, ri, cj));
            } else if ci == cj {
                assert(cell(g, ri, ci) != cell(g, rj, ci));
            } else {
                vstd::arithmetic::div_mod::lemma_fundamental_div_mod(ri, 3);
                vstd::arithmetic::div_mod::lemma_fundamental_div_mod(ci, 3);
                vstd::arithmetic::div_mod::lemma_fundamental_div_mod(rj, 3);
                vstd::arithmetic::div_mod::lemma_fundamental_div_mod(cj, 3);
                let (br, bc) = (ri / 3, ci / 3);
                assert(block_cell(g, br, bc, ri % 3, ci % 3) == g[i]);
                assert(block_cell(g, br, bc, rj % 3, cj % 3) == g[j]);
            }
        }
    }
    assert forall|i: int| 0 <= i < 81 implies #[trigger] g[i] != EMPTY_SPACE by {
        assert(is_digit(g[i]));
    }
}

/// On a board that is empty but for two equal digits in one row, exactly
/// those two cells conflict.
pub proof fn lemma_lone_pair_in_row(g: Seq<char>, a: int, b: int)
    requires
        g.len() == 81,
        0 <= a < 81,
        0 <= b < 81,
        a != b,
        row_of(a) == row_of(b),
        g[a] != EMPTY_SPACE,
        g[a] == g[b],
        forall|k: int| 0 <= k < 81 && k != a && k != b ==> #[trigger] g[k] == EMPTY_SPACE,
    ensures
        conflicts(g, a),
        conflicts(g, b),
        forall|k: int| 0 <= k < 81 && k != a && k != b ==> !#[trigger] conflicts(g, k),
{
    assert(g[b] == g[a]);
    assert(peers(a, b));
    assert(peers(b, a));
}

} // verus!
