//! Linear, Cartesian and box-major addressing of the 81 cells.
use vstd::prelude::*;

verus! {

/// Side length of the board.
pub const BOARD_LENGTH: usize = 9;

/// Linear index of the cell in row `row` and column `col`.
pub open spec fn linear_index(row: int, col: int) -> int {
    col + 9 * row
}

/// Column of the cell number `cell` in block `block` (both box-major).
pub open spec fn box_major_col(block: int, cell: int) -> int {
    (block % 3) * 3 + cell % 3
}

/// Row of the cell number `cell` in block `block` (both box-major).
pub open spec fn box_major_row(block: int, cell: int) -> int {
    (block / 3) * 3 + cell / 3
}

/// Block-level and cell-level parts of a box-major position.
pub proof fn lemma_box_major_parts(block: int, cell: int)
    requires
        0 <= block < 9,
        0 <= cell < 9,
    ensures
        0 <= box_major_row(block, cell) < 9,
        0 <= box_major_col(block, cell) < 9,
        box_major_row(block, cell) / 3 == block / 3,
        box_major_row(block, cell) % 3 == cell / 3,
        box_major_col(block, cell) / 3 == block % 3,
        box_major_col(block, cell) % 3 == cell % 3,
{
    vstd::arithmetic::div_mod::lemma_fundamental_div_mod(block, 3);
    vstd::arithmetic::div_mod::lemma_fundamental_div_mod(cell, 3);
    vstd::arithmetic::div_mod::lemma_fundamental_div_mod_converse(
        box_major_row(block, cell),
        3,
        block / 3,
        cell / 3,
    );
    vstd::arithmetic::div_mod::lemma_fundamental_div_mod_converse(
        box_major_col(block, cell),
        3,
        block % 3,
        cell % 3,
    );
}

/// The block of row `row` and column `col`, box-major.
pub open spec fn block_of(row: int, col: int) -> int {
    (row / 3) * 3 + col / 3
}

/// The number of the cell in row `row` and column `col` within its block.
pub open spec fn cell_in_block_of(row: int, col: int) -> int {
    (row % 3) * 3 + col % 3
}

/// The box-major position of a cell leads back to that cell.
pub proof fn lemma_box_major_inverse(row: int, col: int)
    requires
        0 <= row < 9,
        0 <= col < 9,
    ensures
        0 <= block_of(row, col) < 9,
        0 <= cell_in_block_of(row, col) < 9,
        box_major_row(block_of(row, col), cell_in_block_of(row, col)) == row,
        box_major_col(block_of(row, col), cell_in_block_of(row, col)) == col,
{
    let b = block_of(row, col);
    let k = cell_in_block_of(row, col);
    vstd::arithmetic::div_mod::lemma_fundamental_div_mod(row, 3);
    vstd::arithmetic::div_mod::lemma_fundamental_div_mod(col, 3);
    assert(0 <= row / 3 < 3);
    assert(0 <= col / 3 < 3);
    assert(0 <= row % 3 < 3);
    assert(0 <= col % 3 < 3);
    vstd::arithmetic::div_mod::lemma_fundamental_div_mod_converse(b, 3, row / 3, col / 3);
    vstd::arithmetic::div_mod::lemma_fundamental_div_mod_converse(k, 3, row % 3, col % 3);
}

/// Some pair (block, cell) in `[0, 9) x [0, 9)` gives the point in row `row`
/// and column `col`.
pub open spec fn has_box_major_position(row: int, col: int) -> bool {
    exists|b: int, k: int|
        0 <= b < 9 && 0 <= k < 9 && #[trigger] box_major_row(b, k) == row && box_major_col(b, k)
            == col
}

/// Box-major addressing is a bijection: every pair (block, cell) in
/// `[0, 9) x [0, 9)` gives a point of the board, no two pairs give the same
/// point, and every point of the board is given by some pair.
pub proof fn lemma_box_major_bijection()
    ensures
        forall|b: int, k: int|
            0 <= b < 9 && 0 <= k < 9 ==> 0 <= #[trigger] box_major_row(b, k) < 9 && 0
                <= box_major_col(b, k) < 9,
        forall|b1: int, k1: int, b2: int, k2: int|
            0 <= b1 < 9 && 0 <= k1 < 9 && 0 <= b2 < 9 && 0 <= k2 < 9 && #[trigger] box_major_row(
                b1,
                k1,
            ) == #[trigger] box_major_row(b2, k2) && box_major_col(b1, k1) == box_major_col(
                b2,
                k2,
            ) ==> b1 == b2 && k1 == k2,
        forall|row: int, col: int|
            0 <= row < 9 && 0 <= col < 9 ==> #[trigger] has_box_major_position(row, col),
{
    assert forall|b: int, k: int| 0 <= b < 9 && 0 <= k < 9 implies 0 <= #[trigger] box_major_row(
        b,
        k,
    ) < 9 && 0 <= box_major_col(b, k) < 9 by {
        lemma_box_major_parts(b, k);
    }
    assert forall|b1: int, k1: int, b2: int, k2: int|
        0 <= b1 < 9 && 0 <= k1 < 9 && 0 <= b2 < 9 && 0 <= k2 < 9 && #[trigger] box_major_row(
            b1,
            k1,
        ) == #[trigger] box_major_row(b2, k2) && box_major_col(b1, k1) == box_major_col(
            b2,
            k2,
        ) implies b1 == b2 && k1 == k2 by {
        lemma_box_major_parts(b1, k1);
        lemma_box_major_parts(b2, k2);
        vstd::arithmetic::div_mod::lemma_fundamental_div_mod(b1, 3);
        vstd::arithmetic::div_mod::lemma_fundamental_div_mod(k1, 3);
        vstd::arithmetic::div_mod::lemma_fundamental_div_mod(b2, 3);
        vstd::arithmetic::div_mod::lemma_fundamental_div_mod(k2, 3);
    }
    assert forall|row: int, col: int| 0 <= row < 9 && 0 <= col < 9 implies #[trigger] has_box_major_position(
        row,
        col,
    ) by {
        lemma_box_major_inverse(row, col);
    }
}

/// A position on the board: `x` is the column, `y` the row.
#[derive(PartialEq, Eq, Structural, Clone, Copy, Debug)]
pub struct Point {
    pub x: usize,
    pub y: usize,
}

impl Point {
    /// Both coordinates lie on the board.
    pub open spec fn wf(&self) -> bool {
        self.x < 9 && self.y < 9
    }

    /// The top left cell.
    pub fn origin() -> (r: Point)
        ensures
            r.x == 0 && r.y == 0,
    {
        Point { x: 0, y: 0 }
    }

    /// Moves one column to the left, staying put at the left edge.
    pub fn left(&mut self)
        ensures
            final(self).x == if old(self).x > 0 { old(self).x - 1 } else { old(self).x as int },
            final(self).y == old(self).y,
    {
        if self.x > 0 {
            self.x -= 1;
        }
    }

    /// Moves one column to the right, staying put at the right edge.
    pub fn right(&mut self)
        requires
            old(self).wf(),
        ensures
            final(self).x == if old(self).x < 8 { old(self).x + 1 } else { old(self).x as int },
            final(self).y == old(self).y,
    {
        if self.x != BOARD_LENGTH - 1 {
            self.x += 1;
        }
    }

    /// Moves one row up, staying put at the top edge.
    pub fn up(&mut self)
        ensures
            final(self).y == if old(self).y > 0 { old(self).y - 1 } else { old(self).y as int },
            final(self).x == old(self).x,
    {
        if self.y > 0 {
            self.y -= 1;
        }
    }

    /// Moves one row down, staying put at the bottom edge.
    pub fn down(&mut self)
        requires
            old(self).wf(),
        ensures
            final(self).y == if old(self).y < 8 { old(self).y + 1 } else { old(self).y as int },
            final(self).x == old(self).x,
    {
        if self.y != BOARD_LENGTH - 1 {
            self.y += 1;
        }
    }

    /// The linear index of this point.
    pub fn as_board_cords(&self) -> (r: usize)
        requires
            self.wf(),
        ensures
            r == linear_index(self.y as int, self.x as int),
            r < 81,
    {
        linear(self.y, self.x)
    }
}

/// Linear index of the cell in row `row` and column `col`.
pub fn linear(row: usize, col: usize) -> (r: usize)
    requires
        row < 9,
        col < 9,
    ensures
        r == linear_index(row as int, col as int),
        r < 81,
{
    col + BOARD_LENGTH * row
}

/// The point of cell `cell_number` of block `square_number`, both counted
/// left to right, top to bottom.
pub fn square_to_point_cords(square_number: usize, cell_number: usize) -> (r: Point)
    requires
        square_number < 9,
        cell_number < 9,
    ensures
        r.x == box_major_col(square_number as int, cell_number as int),
        r.y == box_major_row(square_number as int, cell_number as int),
        r.wf(),
{
    let col = (square_number % 3) * 3 + cell_number % 3;
    let row = (square_number / 3) * 3 + cell_number / 3;
    Point { x: col, y: row }
}

} // verus!
