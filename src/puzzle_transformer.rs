//! Transforms that turn one seed puzzle into many: digit relabeling, quarter
//! turns and reflections, applied to clues and solution alike.
use vstd::prelude::*;
use crate::random::{random_below, random_ratio, shuffle_chars};
use crate::grid::{
    block_cell, cell, consistent, digits_in_order, has_empty_cell, is_digit, lemma_index_of_cell, lemma_index_parts, valid,
    SudokuPuzzle, EMPTY_SPACE,
};

verus! {

/// The grid turned a quarter turn clockwise: the cell in row `r` and column
/// `c` moves to row `c` and column `8 - r`.
pub open spec fn rotated(g: Seq<char>) -> Seq<char> {
    Seq::new(81, |k: int| g[9 * (8 - k % 9) + k / 9])
}

/// The grid turned `n` quarter turns clockwise.
pub open spec fn rotated_times(g: Seq<char>, n: nat) -> Seq<char>
    decreases n,
{
    if n == 0 {
        g
    } else {
        rotated(rotated_times(g, (n - 1) as nat))
    }
}

/// The grid mirrored across its middle row.
pub open spec fn reflected(g: Seq<char>) -> Seq<char> {
    Seq::new(81, |k: int| g[9 * (8 - k / 9) + k % 9])
}

/// The vertical reflection as this library performs it: a quarter turn,
/// then a reflection across the middle row.
pub open spec fn reflected_vertically(g: Seq<char>) -> Seq<char> {
    reflected(rotated(g))
}

/// The grid after an optional reflection across the middle row and then an
/// optional vertical reflection.
pub open spec fn flopped(g: Seq<char>, horizontal: bool, vertical: bool) -> Seq<char> {
    let g1 = if horizontal { reflected(g) } else { g };
    if vertical { reflected_vertically(g1) } else { g1 }
}

/// `mapping` sends the digits 1 to 9, in that order, to the digits 1 to 9,
/// each digit once.
pub open spec fn is_digit_permutation(mapping: Seq<char>) -> bool {
    &&& mapping.len() == 9
    &&& mapping.no_duplicates()
    &&& forall|i: int| 0 <= i < 9 ==> is_digit(#[trigger] mapping[i])
}

/// The image of one cell value under `mapping`: digit `d` becomes
/// `mapping[d - 1]`, anything else becomes empty.
pub open spec fn relabel_char(mapping: Seq<char>, c: char) -> char {
    if is_digit(c) {
        mapping[c as int - '1' as int]
    } else {
        EMPTY_SPACE
    }
}

/// Every cell of `g` relabeled by `mapping`.
pub open spec fn relabeled(mapping: Seq<char>, g: Seq<char>) -> Seq<char> {
    Seq::new(g.len(), |k: int| relabel_char(mapping, g[k]))
}

/// The clues copied afresh from `solution`: each non-empty clue takes the
/// solution's value, empty cells stay empty.
pub open spec fn synced(clues: Seq<char>, solution: Seq<char>) -> Seq<char> {
    Seq::new(clues.len(), |k: int| if clues[k] != EMPTY_SPACE { solution[k] } else { clues[k] })
}

/// The solution after the whole pipeline with the given choices.
pub open spec fn transformed_solution(
    solution: Seq<char>,
    mapping: Seq<char>,
    horizontal: bool,
    vertical: bool,
    rot_count: nat,
) -> Seq<char> {
    rotated_times(flopped(relabeled(mapping, solution), horizontal, vertical), rot_count)
}

/// The clues after the whole pipeline with the given choices.
pub open spec fn transformed_clues(
    clues: Seq<char>,
    solution: Seq<char>,
    mapping: Seq<char>,
    horizontal: bool,
    vertical: bool,
    rot_count: nat,
) -> Seq<char> {
    rotated_times(
        flopped(synced(clues, relabeled(mapping, solution)), horizontal, vertical),
        rot_count,
    )
}

/// Where a quarter turn takes each cell.
pub proof fn lemma_rotated_cell(g: Seq<char>, r: int, c: int)
    requires
        0 <= r < 9,
        0 <= c < 9,
    ensures
        cell(rotated(g), r, c) == cell(g, 8 - c, r),
{
    lemma_index_of_cell(r, c);
}

/// Where a reflection takes each cell.
pub proof fn lemma_reflected_cell(g: Seq<char>, r: int, c: int)
    requires
        0 <= r < 9,
        0 <= c < 9,
    ensures
        cell(reflected(g), r, c) == cell(g, 8 - r, c),
{
    lemma_index_of_cell(r, c);
}

/// Rotating a grid a quarter turn four times gives the grid back.
pub proof fn lemma_rotate_four_times(g: Seq<char>)
    requires
        g.len() == 81,
    ensures
        rotated_times(g, 4) == g,
{
    let g4 = rotated_times(g, 4);
    assert(rotated_times(g, 0) == g);
    assert(rotated_times(g, 1) == rotated(g));
    assert(g4 == rotated(rotated_times(g, 3)));
    assert(rotated_times(g, 3) == rotated(rotated_times(g, 2)));
    assert(rotated_times(g, 2) == rotated(rotated_times(g, 1)));
    assert forall|k: int| 0 <= k < 81 implies g4[k] == g[k] by {
        lemma_index_parts(k);
        let r = k / 9;
        let c = k % 9;
        lemma_rotated_cell(rotated_times(g, 3), r, c);
        lemma_rotated_cell(rotated_times(g, 2), 8 - c, r);
        lemma_rotated_cell(rotated_times(g, 1), 8 - r, 8 - c);
        lemma_rotated_cell(g, c, 8 - r);
    }
    assert(g4 =~= g);
}

/// Reflecting a grid across its middle row twice gives the grid back.
pub proof fn lemma_reflect_twice(g: Seq<char>)
    requires
        g.len() == 81,
    ensures
        reflected(reflected(g)) == g,
{
    assert forall|k: int| 0 <= k < 81 implies reflected(reflected(g))[k] == g[k] by {
        lemma_index_parts(k);
        let r = k / 9;
        let c = k % 9;
        lemma_reflected_cell(reflected(g), r, c);
        lemma_reflected_cell(g, 8 - r, c);
    }
    assert(reflected(reflected(g)) =~= g);
}

/// A quarter turn keeps a completed Sudoku completed: rows become columns,
/// columns become rows and blocks become blocks.
pub proof fn lemma_rotation_preserves_validity(g: Seq<char>)
    requires
        valid(g),
    ensures
        valid(rotated(g)),
{
    let h = rotated(g);
    assert forall|k: int| 0 <= k < 81 implies is_digit(#[trigger] h[k]) by {
        lemma_index_parts(k);
        assert(is_digit(g[9 * (8 - k % 9) + k / 9]));
    }
    assert forall|r: int, c1: int, c2: int|
        0 <= r < 9 && 0 <= c1 < 9 && 0 <= c2 < 9 && c1 != c2 implies #[trigger] cell(h, r, c1)
        != #[trigger] cell(h, r, c2) by {
        lemma_rotated_cell(g, r, c1);
        lemma_rotated_cell(g, r, c2);
    }
    assert forall|c: int, r1: int, r2: int|
        0 <= c < 9 && 0 <= r1 < 9 && 0 <= r2 < 9 && r1 != r2 implies #[trigger] cell(h, r1, c)
        != #[trigger] cell(h, r2, c) by {
        lemma_rotated_cell(g, r1, c);
        lemma_rotated_cell(g, r2, c);
    }
    assert forall|br: int, bc: int, r1: int, c1: int, r2: int, c2: int|
        0 <= br < 3 && 0 <= bc < 3 && 0 <= r1 < 3 && 0 <= c1 < 3 && 0 <= r2 < 3 && 0 <= c2 < 3
            && (r1 != r2 || c1 != c2) implies #[trigger] block_cell(h, br, bc, r1, c1)
        != #[trigger] block_cell(h, br, bc, r2, c2) by {
        lemma_rotated_cell(g, 3 * br + r1, 3 * bc + c1);
        lemma_rotated_cell(g, 3 * br + r2, 3 * bc + c2);
        assert(block_cell(h, br, bc, r1, c1) == block_cell(g, 2 - bc, br, 2 - c1, r1));
        assert(block_cell(h, br, bc, r2, c2) == block_cell(g, 2 - bc, br, 2 - c2, r2));
    }
}

/// A reflection across the middle row keeps a completed Sudoku completed.
pub proof fn lemma_reflection_preserves_validity(g: Seq<char>)
    requires
        valid(g),
    ensures
        valid(reflected(g)),
{
    let h = reflected(g);
    assert forall|k: int| 0 <= k < 81 implies is_digit(#[trigger] h[k]) by {
        lemma_index_parts(k);
        assert(is_digit(g[9 * (8 - k / 9) + k % 9]));
    }
    assert forall|r: int, c1: int, c2: int|
        0 <= r < 9 && 0 <= c1 < 9 && 0 <= c2 < 9 && c1 != c2 implies #[trigger] cell(h, r, c1)
        != #[trigger] cell(h, r, c2) by {
        lemma_reflected_cell(g, r, c1);
        lemma_reflected_cell(g, r, c2);
    }
    assert forall|c: int, r1: int, r2: int|
        0 <= c < 9 && 0 <= r1 < 9 && 0 <= r2 < 9 && r1 != r2 implies #[trigger] cell(h, r1, c)
        != #[trigger] cell(h, r2, c) by {
        lemma_reflected_cell(g, r1, c);
        lemma_reflected_cell(g, r2, c);
    }
    assert forall|br: int, bc: int, r1: int, c1: int, r2: int, c2: int|
        0 <= br < 3 && 0 <= bc < 3 && 0 <= r1 < 3 && 0 <= c1 < 3 && 0 <= r2 < 3 && 0 <= c2 < 3
            && (r1 != r2 || c1 != c2) implies #[trigger] block_cell(h, br, bc, r1, c1)
        != #[trigger] block_cell(h, br, bc, r2, c2) by {
        lemma_reflected_cell(g, 3 * br + r1, 3 * bc + c1);
        lemma_reflected_cell(g, 3 * br + r2, 3 * bc + c2);
        assert(block_cell(h, br, bc, r1, c1) == block_cell(g, 2 - br, bc, 2 - r1, c1));
        assert(block_cell(h, br, bc, r2, c2) == block_cell(g, 2 - br, bc, 2 - r2, c2));
    }
}

/// A quarter turn moves clue and solution cells together, so clues that
/// agreed with the solution still agree.
pub proof fn lemma_rotation_preserves_consistency(clues: Seq<char>, solution: Seq<char>)
    requires
        consistent(clues, solution),
    ensures
        consistent(rotated(clues), rotated(solution)),
{
    assert forall|k: int| 0 <= k < 81 && rotated(clues)[k] != EMPTY_SPACE implies #[trigger] rotated(
        clues,
    )[k] == rotated(solution)[k] by {
        lemma_index_parts(k);
        assert(clues[9 * (8 - k % 9) + k / 9] == solution[9 * (8 - k % 9) + k / 9]);
    }
}

/// A reflection moves clue and solution cells together, so clues that
/// agreed with the solution still agree.
pub proof fn lemma_reflection_preserves_consistency(clues: Seq<char>, solution: Seq<char>)
    requires
        consistent(clues, solution),
    ensures
        consistent(reflected(clues), reflected(solution)),
{
    assert forall|k: int| 0 <= k < 81 && reflected(clues)[k] != EMPTY_SPACE implies #[trigger] reflected(
        clues,
    )[k] == reflected(solution)[k] by {
        lemma_index_parts(k);
        assert(clues[9 * (8 - k / 9) + k % 9] == solution[9 * (8 - k / 9) + k % 9]);
    }
}

/// Relabeling the digits of a completed Sudoku by a permutation of the
/// digits gives a completed Sudoku.
pub proof fn lemma_relabel_preserves_validity(mapping: Seq<char>, g: Seq<char>)
    requires
        is_digit_permutation(mapping),
        valid(g),
    ensures
        valid(relabeled(mapping, g)),
{
    let h = relabeled(mapping, g);
    assert forall|a: char, b: char| is_digit(a) && is_digit(b) && a != b implies #[trigger] relabel_char(
        mapping,
        a,
    ) != #[trigger] relabel_char(mapping, b) && is_digit(relabel_char(mapping, a)) by {
        assert(mapping[a as int - '1' as int] != mapping[b as int - '1' as int]);
    }
    assert forall|k: int| 0 <= k < 81 implies is_digit(#[trigger] h[k]) by {
        assert(is_digit(g[k]));
        assert(is_digit(mapping[g[k] as int - '1' as int]));
    }
    assert forall|r: int, c1: int, c2: int|
        0 <= r < 9 && 0 <= c1 < 9 && 0 <= c2 < 9 && c1 != c2 implies #[trigger] cell(h, r, c1)
        != #[trigger] cell(h, r, c2) by {
        assert(cell(g, r, c1) != cell(g, r, c2));
        assert(is_digit(g[9 * r + c1]) && is_digit(g[9 * r + c2]));
    }
    assert forall|c: int, r1: int, r2: int|
        0 <= c < 9 && 0 <= r1 < 9 && 0 <= r2 < 9 && r1 != r2 implies #[trigger] cell(h, r1, c)
        != #[trigger] cell(h, r2, c) by {
        assert(cell(g, r1, c) != cell(g, r2, c));
        assert(is_digit(g[9 * r1 + c]) && is_digit(g[9 * r2 + c]));
    }
    assert forall|br: int, bc: int, r1: int, c1: int, r2: int, c2: int|
        0 <= br < 3 && 0 <= bc < 3 && 0 <= r1 < 3 && 0 <= c1 < 3 && 0 <= r2 < 3 && 0 <= c2 < 3
            && (r1 != r2 || c1 != c2) implies #[trigger] block_cell(h, br, bc, r1, c1)
        != #[trigger] block_cell(h, br, bc, r2, c2) by {
        assert(block_cell(g, br, bc, r1, c1) != block_cell(g, br, bc, r2, c2));
        assert(is_digit(g[9 * (3 * br + r1) + 3 * bc + c1]));
        assert(is_digit(g[9 * (3 * br + r2) + 3 * bc + c2]));
    }
}

/// Clues copied afresh from a solution agree with it.
pub proof fn lemma_synced_consistent(clues: Seq<char>, solution: Seq<char>)
    requires
        clues.len() == 81,
        solution.len() == 81,
    ensures
        consistent(synced(clues, solution), solution),
{
}

/// Any number of quarter turns keeps clues consistent with the solution.
pub proof fn lemma_rotations_preserve_consistency(clues: Seq<char>, solution: Seq<char>, n: nat)
    requires
        consistent(clues, solution),
    ensures
        consistent(rotated_times(clues, n), rotated_times(solution, n)),
    decreases n,
{
    if n > 0 {
        lemma_rotations_preserve_consistency(clues, solution, (n - 1) as nat);
        lemma_rotation_preserves_consistency(
            rotated_times(clues, (n - 1) as nat),
            rotated_times(solution, (n - 1) as nat),
        );
    }
}

/// Whatever the relabeling, reflections and number of quarter turns, the
/// clues that the pipeline gives agree with the solution it gives.
pub proof fn lemma_pipeline_keeps_clues_consistent(
    clues: Seq<char>,
    solution: Seq<char>,
    mapping: Seq<char>,
    horizontal: bool,
    vertical: bool,
    rot_count: nat,
)
    requires
        clues.len() == 81,
        solution.len() == 81,
    ensures
        consistent(
            transformed_clues(clues, solution, mapping, horizontal, vertical, rot_count),
            transformed_solution(solution, mapping, horizontal, vertical, rot_count),
        ),
{
    let s0 = relabeled(mapping, solution);
    let c0 = synced(clues, s0);
    lemma_synced_consistent(clues, s0);
    let c1 = if horizontal { reflected(c0) } else { c0 };
    let s1 = if horizontal { reflected(s0) } else { s0 };
    lemma_reflection_preserves_consistency(c0, s0);
    let c2 = if vertical { reflected_vertically(c1) } else { c1 };
    let s2 = if vertical { reflected_vertically(s1) } else { s1 };
    lemma_rotation_preserves_consistency(c1, s1);
    lemma_reflection_preserves_consistency(rotated(c1), rotated(s1));
    assert(consistent(c2, s2));
    lemma_rotations_preserve_consistency(c2, s2, rot_count);
}

/// A quarter turn or a reflection moves cells around, so an empty cell
/// stays somewhere.
pub proof fn lemma_moves_keep_an_empty_cell(g: Seq<char>)
    requires
        g.len() == 81,
        has_empty_cell(g),
    ensures
        has_empty_cell(rotated(g)),
        has_empty_cell(reflected(g)),
{
    let j = choose|j: int| 0 <= j < 81 && #[trigger] g[j] == EMPTY_SPACE;
    lemma_index_parts(j);
    let (r, c) = (j / 9, j % 9);
    lemma_rotated_cell(g, c, 8 - r);
    lemma_index_parts(9 * c + 8 - r);
    assert(rotated(g)[9 * c + 8 - r] == EMPTY_SPACE);
    lemma_reflected_cell(g, 8 - r, c);
    assert(reflected(g)[9 * (8 - r) + c] == EMPTY_SPACE);
}

/// Any number of quarter turns keeps an empty cell somewhere.
pub proof fn lemma_rotations_keep_an_empty_cell(g: Seq<char>, n: nat)
    requires
        g.len() == 81,
        has_empty_cell(g),
    ensures
        has_empty_cell(rotated_times(g, n)),
        rotated_times(g, n).len() == 81,
    decreases n,
{
    if n > 0 {
        lemma_rotations_keep_an_empty_cell(g, (n - 1) as nat);
        lemma_moves_keep_an_empty_cell(rotated_times(g, (n - 1) as nat));
    }
}

/// Whatever the choices, the pipeline leaves an empty clue somewhere when
/// the clues had one: empty clues stay empty and only move.
pub proof fn lemma_pipeline_keeps_an_empty_clue(
    clues: Seq<char>,
    solution: Seq<char>,
    mapping: Seq<char>,
    horizontal: bool,
    vertical: bool,
    rot_count: nat,
)
    requires
        clues.len() == 81,
        solution.len() == 81,
        has_empty_cell(clues),
    ensures
        has_empty_cell(
            transformed_clues(clues, solution, mapping, horizontal, vertical, rot_count),
        ),
{
    let c0 = synced(clues, relabeled(mapping, solution));
    let j = choose|j: int| 0 <= j < 81 && #[trigger] clues[j] == EMPTY_SPACE;
    assert(c0[j] == EMPTY_SPACE);
    lemma_moves_keep_an_empty_cell(c0);
    let c1 = if horizontal { reflected(c0) } else { c0 };
    lemma_moves_keep_an_empty_cell(c1);
    lemma_moves_keep_an_empty_cell(rotated(c1));
    let c2 = if vertical { reflected_vertically(c1) } else { c1 };
    lemma_rotations_keep_an_empty_cell(c2, rot_count);
}

/// Any arrangement of the digits 1 to 9, each as often as in
/// `digits_in_order`, is a permutation of the digits.
pub proof fn lemma_arrangement_of_digits(mapping: Seq<char>)
    requires
        mapping.to_multiset() == digits_in_order().to_multiset(),
    ensures
        is_digit_permutation(mapping),
{
    let d = digits_in_order();
    broadcast use vstd::seq_lib::group_to_multiset_ensures;

    assert(d.no_duplicates());
    d.lemma_multiset_has_no_duplicates();
    mapping.lemma_multiset_has_no_duplicates_conv();
    assert(mapping.len() == 9) by {
        assert(mapping.len() == mapping.to_multiset().len());
        assert(d.len() == d.to_multiset().len());
    }
    assert forall|i: int| 0 <= i < 9 implies is_digit(#[trigger] mapping[i]) by {
        assert(mapping.contains(mapping[i]));
        assert(mapping.to_multiset().count(mapping[i]) > 0);
        assert(d.to_multiset().count(mapping[i]) > 0);
        assert(d.contains(mapping[i]));
    }
}

/// Turns the grid a quarter turn clockwise.
pub fn rotate_90(matrix: &mut SudokuPuzzle)
    ensures
        final(matrix)@ == rotated(old(matrix)@),
{
    let src: SudokuPuzzle = *matrix;
    let mut res: SudokuPuzzle = *matrix;
    for i in 0..9
        invariant
            src@ == old(matrix)@,
            forall|i2: int, j2: int|
                0 <= i2 < i && 0 <= j2 < 9 ==> #[trigger] cell(src@, i2, j2) == cell(
                    res@,
                    j2,
                    8 - i2,
                ),
    {
        for j in 0..9
            invariant
                i < 9,
                forall|i2: int, j2: int|
                    (0 <= i2 < i && 0 <= j2 < 9) || (i2 == i && 0 <= j2 < j) ==> #[trigger] cell(
                        src@,
                        i2,
                        j2,
                    ) == cell(res@, j2, 8 - i2),
        {
            res[j * 9 + 9 - i - 1] = src[i * 9 + j];
        }
    }
    proof {
        assert forall|k: int| 0 <= k < 81 implies res@[k] == rotated(src@)[k] by {
            lemma_index_parts(k);
            let r = k / 9;
            let c = k % 9;
            assert(cell(src@, 8 - c, r) == cell(res@, r, 8 - (8 - c)));
        }
        assert(res@ =~= rotated(src@));
    }
    *matrix = res;
}

/// The value that a reflection across the middle row brings to row `r`,
/// column `c`.
spec fn mirror_cell(g: Seq<char>, r: int, c: int) -> char {
    cell(g, 8 - r, c)
}

/// Mirrors clues and solution across the middle row.
pub fn reflect_horizontal(game: (&mut SudokuPuzzle, &mut SudokuPuzzle))
    ensures
        final(game.0)@ == reflected(old(game.0)@),
        final(game.1)@ == reflected(old(game.1)@),
{
    let puzzle: SudokuPuzzle = *game.0;
    let solution: SudokuPuzzle = *game.1;
    let mut res_puzzle: SudokuPuzzle = puzzle;
    let mut res_solution: SudokuPuzzle = solution;
    for i in 0..9
        invariant
            forall|i2: int, j2: int|
                0 <= i2 < i && 0 <= j2 < 9 ==> cell(res_puzzle@, i2, j2) == #[trigger] mirror_cell(
                    puzzle@,
                    i2,
                    j2,
                ),
            forall|i2: int, j2: int|
                0 <= i2 < i && 0 <= j2 < 9 ==> cell(res_solution@, i2, j2) == #[trigger] mirror_cell(
                    solution@,
                    i2,
                    j2,
                ),
    {
        for j in 0..9
            invariant
                i < 9,
                forall|i2: int, j2: int|
                    (0 <= i2 < i && 0 <= j2 < 9) || (i2 == i && 0 <= j2 < j) ==> cell(
                        res_puzzle@,
                        i2,
                        j2,
                    ) == #[trigger] mirror_cell(puzzle@, i2, j2),
                forall|i2: int, j2: int|
                    (0 <= i2 < i && 0 <= j2 < 9) || (i2 == i && 0 <= j2 < j) ==> cell(
                        res_solution@,
                        i2,
                        j2,
                    ) == #[trigger] mirror_cell(solution@, i2, j2),
        {
            res_puzzle[i * 9 + j] = puzzle[(9 - i - 1) * 9 + j];
            res_solution[i * 9 + j] = solution[(9 - i - 1) * 9 + j];
        }
    }
    proof {
        assert forall|k: int| 0 <= k < 81 implies res_puzzle@[k] == reflected(puzzle@)[k]
            && res_solution@[k] == reflected(solution@)[k] by {
            lemma_index_parts(k);
            assert(cell(res_puzzle@, k / 9, k % 9) == mirror_cell(puzzle@, k / 9, k % 9));
            assert(cell(res_solution@, k / 9, k % 9) == mirror_cell(solution@, k / 9, k % 9));
        }
        assert(res_puzzle@ =~= reflected(puzzle@));
        assert(res_solution@ =~= reflected(solution@));
    }
    *game.0 = res_puzzle;
    *game.1 = res_solution;
}

/// Mirrors clues and solution vertically, as a quarter turn followed by a
/// reflection across the middle row.
pub fn reflect_vertical(game: (&mut SudokuPuzzle, &mut SudokuPuzzle))
    ensures
        final(game.0)@ == reflected_vertically(old(game.0)@),
        final(game.1)@ == reflected_vertically(old(game.1)@),
{
    rotate_90(game.0);
    rotate_90(game.1);
    reflect_horizontal(game);
}

/// Relabels the digits of the solution by `mapping` (digit `d` becomes
/// `mapping[d - 1]`) and copies each clue afresh from the relabeled solution.
pub fn relabel_numbers(game: (&mut SudokuPuzzle, &mut SudokuPuzzle), mapping: &[char; 9])
    ensures
        final(game.1)@ == relabeled(mapping@, old(game.1)@),
        final(game.0)@ == synced(old(game.0)@, final(game.1)@),
        consistent(final(game.0)@, final(game.1)@),
        is_digit_permutation(mapping@) && valid(old(game.1)@) ==> valid(final(game.1)@),
{
    let old_puzzle: SudokuPuzzle = *game.0;
    let old_solution: SudokuPuzzle = *game.1;
    let mut puzzle: SudokuPuzzle = old_puzzle;
    let mut solution: SudokuPuzzle = old_solution;
    for i in 0..81
        invariant
            forall|k: int|
                0 <= k < i ==> #[trigger] solution@[k] == relabel_char(mapping@, old_solution@[k]),
            forall|k: int|
                0 <= k < i ==> #[trigger] puzzle@[k] == (if old_puzzle@[k] != EMPTY_SPACE {
                    solution@[k]
                } else {
                    old_puzzle@[k]
                }),
            forall|k: int| i <= k < 81 ==> #[trigger] solution@[k] == old_solution@[k],
            forall|k: int| i <= k < 81 ==> #[trigger] puzzle@[k] == old_puzzle@[k],
    {
        solution[i] = match solution[i] {
            '1' => mapping[0],
            '2' => mapping[1],
            '3' => mapping[2],
            '4' => mapping[3],
            '5' => mapping[4],
            '6' => mapping[5],
            '7' => mapping[6],
            '8' => mapping[7],
            '9' => mapping[8],
            _ => EMPTY_SPACE,
        };
        // the clue follows the relabeled solution
        if puzzle[i] != EMPTY_SPACE {
            puzzle[i] = solution[i];
        }
    }
    proof {
        assert(solution@ =~= relabeled(mapping@, old_solution@));
        assert(puzzle@ =~= synced(old_puzzle@, solution@));
        lemma_synced_consistent(old_puzzle@, solution@);
        if is_digit_permutation(mapping@) && valid(old_solution@) {
            lemma_relabel_preserves_validity(mapping@, old_solution@);
        }
    }
    *game.0 = puzzle;
    *game.1 = solution;
}

/// A random arrangement of the digits 1 to 9.
fn random_digit_mapping() -> (mapping: [char; 9])
    ensures
        is_digit_permutation(mapping@),
{
    let mut mapping: [char; 9] = ['1', '2', '3', '4', '5', '6', '7', '8', '9'];
    proof {
        assert(mapping@ =~= digits_in_order());
    }
    shuffle_chars(&mut mapping);
    proof {
        lemma_arrangement_of_digits(mapping@);
    }
    mapping
}

/// Relabels the digits by a random permutation of 1 to 9; see
/// `relabel_numbers`.
pub fn randomize_numbers(game: (&mut SudokuPuzzle, &mut SudokuPuzzle))
    ensures
        exists|mapping: Seq<char>|
            {
                &&& is_digit_permutation(mapping)
                &&& final(game.1)@ == relabeled(mapping, old(game.1)@)
                &&& final(game.0)@ == synced(old(game.0)@, final(game.1)@)
            },
        consistent(final(game.0)@, final(game.1)@),
        valid(old(game.1)@) ==> valid(final(game.1)@),
{
    let mapping = random_digit_mapping();
    relabel_numbers(game, &mapping);
}

/// Reflects across the middle row if `horizontal`, then vertically if
/// `vertical`.
pub fn flop_with(game: (&mut SudokuPuzzle, &mut SudokuPuzzle), horizontal: bool, vertical: bool)
    ensures
        final(game.0)@ == flopped(old(game.0)@, horizontal, vertical),
        final(game.1)@ == flopped(old(game.1)@, horizontal, vertical),
        consistent(old(game.0)@, old(game.1)@) ==> consistent(final(game.0)@, final(game.1)@),
        valid(old(game.1)@) ==> valid(final(game.1)@),
{
    proof {
        if consistent((*game.0)@, (*game.1)@) {
            lemma_reflection_preserves_consistency((*game.0)@, (*game.1)@);
        }
        if valid((*game.1)@) {
            lemma_reflection_preserves_validity((*game.1)@);
        }
    }
    if horizontal {
        reflect_horizontal((&mut *game.0, &mut *game.1));
    }
    proof {
        if consistent((*game.0)@, (*game.1)@) {
            lemma_rotation_preserves_consistency((*game.0)@, (*game.1)@);
            lemma_reflection_preserves_consistency(rotated((*game.0)@), rotated((*game.1)@));
        }
        if valid((*game.1)@) {
            lemma_rotation_preserves_validity((*game.1)@);
            lemma_reflection_preserves_validity(rotated((*game.1)@));
        }
    }
    if vertical {
        reflect_vertical(game);
    }
}

/// Reflects across the middle row with probability one half, then
/// vertically with probability one half.
pub fn flop(game: (&mut SudokuPuzzle, &mut SudokuPuzzle))
    ensures
        exists|horizontal: bool, vertical: bool|
            {
                &&& final(game.0)@ == flopped(old(game.0)@, horizontal, vertical)
                &&& final(game.1)@ == flopped(old(game.1)@, horizontal, vertical)
            },
        consistent(old(game.0)@, old(game.1)@) ==> consistent(final(game.0)@, final(game.1)@),
        valid(old(game.1)@) ==> valid(final(game.1)@),
{
    let horizontal = random_ratio(1, 2);
    let vertical = random_ratio(1, 2);
    flop_with(game, horizontal, vertical);
}

/// Turns clues and solution `rot_count` quarter turns clockwise.
pub fn rotate_by(game: (&mut SudokuPuzzle, &mut SudokuPuzzle), rot_count: u32)
    ensures
        final(game.0)@ == rotated_times(old(game.0)@, rot_count as nat),
        final(game.1)@ == rotated_times(old(game.1)@, rot_count as nat),
        consistent(old(game.0)@, old(game.1)@) ==> consistent(final(game.0)@, final(game.1)@),
        valid(old(game.1)@) ==> valid(final(game.1)@),
{
    let mut puzzle: SudokuPuzzle = *game.0;
    let mut solution: SudokuPuzzle = *game.1;
    let ghost start = (puzzle@, solution@);
    let mut n: u32 = 0;
    while n < rot_count
        invariant
            n <= rot_count,
            puzzle@ == rotated_times(start.0, n as nat),
            solution@ == rotated_times(start.1, n as nat),
            consistent(start.0, start.1) ==> consistent(puzzle@, solution@),
            valid(start.1) ==> valid(solution@),
        decreases rot_count - n,
    {
        proof {
            if consistent(puzzle@, solution@) {
                lemma_rotation_preserves_consistency(puzzle@, solution@);
            }
            if valid(solution@) {
                lemma_rotation_preserves_validity(solution@);
            }
        }
        rotate_90(&mut puzzle);
        rotate_90(&mut solution);
        n += 1;
    }
    *game.0 = puzzle;
    *game.1 = solution;
}

/// Turns clues and solution 0, 1, 2 or 3 quarter turns clockwise, each
/// with probability one quarter.
pub fn rotate(game: (&mut SudokuPuzzle, &mut SudokuPuzzle))
    ensures
        exists|rot_count: nat|
            {
                &&& rot_count < 4
                &&& final(game.0)@ == rotated_times(old(game.0)@, rot_count)
                &&& final(game.1)@ == rotated_times(old(game.1)@, rot_count)
            },
        consistent(old(game.0)@, old(game.1)@) ==> consistent(final(game.0)@, final(game.1)@),
        valid(old(game.1)@) ==> valid(final(game.1)@),
{
    let rot_count = random_below(4);
    rotate_by(game, rot_count);
}

/// The whole pipeline with the given choices: relabeling by `mapping`, the
/// optional reflections, then `rot_count` quarter turns.
pub fn transform_with(
    game: (&mut SudokuPuzzle, &mut SudokuPuzzle),
    mapping: &[char; 9],
    horizontal: bool,
    vertical: bool,
    rot_count: u32,
)
    ensures
        final(game.0)@ == transformed_clues(
            old(game.0)@,
            old(game.1)@,
            mapping@,
            horizontal,
            vertical,
            rot_count as nat,
        ),
        final(game.1)@ == transformed_solution(
            old(game.1)@,
            mapping@,
            horizontal,
            vertical,
            rot_count as nat,
        ),
        consistent(final(game.0)@, final(game.1)@),
        is_digit_permutation(mapping@) && valid(old(game.1)@) ==> valid(final(game.1)@),
{
    relabel_numbers((&mut *game.0, &mut *game.1), mapping);
    flop_with((&mut *game.0, &mut *game.1), horizontal, vertical);
    rotate_by(game, rot_count);
}

/// Transforms a puzzle and its solution alike so that one seed gives many
/// puzzles: a random relabeling of the digits, then random reflections, then
/// a random number of quarter turns. The clues agree with the solution
/// afterwards, and a completed solution stays completed.
pub fn transform_puzzle(game: (&mut SudokuPuzzle, &mut SudokuPuzzle))
    ensures
        exists|mapping: Seq<char>, horizontal: bool, vertical: bool, rot_count: nat|
            {
                &&& is_digit_permutation(mapping)
                &&& rot_count < 4
                &&& final(game.0)@ == transformed_clues(
                    old(game.0)@,
                    old(game.1)@,
                    mapping,
                    horizontal,
                    vertical,
                    rot_count,
                )
                &&& final(game.1)@ == transformed_solution(
                    old(game.1)@,
                    mapping,
                    horizontal,
                    vertical,
                    rot_count,
                )
            },
        consistent(final(game.0)@, final(game.1)@),
        valid(old(game.1)@) ==> valid(final(game.1)@),
{
    let mapping = random_digit_mapping();
    let horizontal = random_ratio(1, 2);
    let vertical = random_ratio(1, 2);
    let rot_count = random_below(4);
    transform_with(game, &mapping, horizontal, vertical, rot_count);
}

} // verus!
