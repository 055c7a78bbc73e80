//! No grain is relocated more than once within one frame.
//!
//! The settling pass in `settle` moves grains cell by cell, so "the same
//! grain moved twice" is a statement about the history of a frame, not
//! about its final grid.  This module instruments the pass with a mask that
//! marks every cell whose grain just arrived by a relocation, and records,
//! step by step, whether any relocation ever started from a marked cell.
//! `lemma_advance_single_move` shows it never does: the bottom-up, left to
//! right order, together with the rightward-slide suppression, guarantees
//! that a relocated grain is never picked up again in the same frame.

use vstd::prelude::*;
use crate::settle::{
    is_grain, wf_grid, Direction, slide_direction, spec_fall, spec_slide, spec_cell,
    spec_row_pass, spec_rows, spec_advance, lemma_cell_dims,
};

verus! {

/// The mask of a frame that has not yet moved anything: no cell has
/// received a grain.
pub open spec fn fresh_mask(g: Seq<Seq<char>>) -> Seq<Seq<bool>> {
    Seq::new(g.len(), |i: int| Seq::new(g[i].len(), |j: int| false))
}

/// The mask after a grain moves from `(src_r, src_c)` to `(dst_r, dst_c)`:
/// the destination is marked as freshly moved, the source (now empty) is
/// cleared.
pub open spec fn mask_move(
    m: Seq<Seq<bool>>,
    src_r: int,
    src_c: int,
    dst_r: int,
    dst_c: int,
) -> Seq<Seq<bool>> {
    let m1 = m.update(dst_r, m[dst_r].update(dst_c, true));
    m1.update(src_r, m1[src_r].update(src_c, false))
}

/// One cell examined, instrumented: the updated grid and mask, the
/// direction moved, and whether this step obeyed the single-move
/// discipline — a relocation must start from a cell whose grain did not
/// itself arrive by a relocation earlier in the frame.
pub open spec fn cell_step_t(
    g: Seq<Seq<char>>,
    m: Seq<Seq<bool>>,
    step: int,
    row: int,
    col: int,
    dir: Direction,
) -> (Seq<Seq<char>>, Seq<Seq<bool>>, Direction, bool) {
    if !is_grain(g[row][col]) || row == g.len() - 1 {
        (g, m, Direction::Neither, true)
    } else if dir == Direction::Right {
        (g, m, Direction::Neither, true)
    } else if !is_grain(g[row + 1][col]) {
        (spec_fall(g, row, col), mask_move(m, row, col, row + 1, col), Direction::Neither, !m[row][col])
    } else {
        match slide_direction(g, step, row, col) {
            Direction::Left => (
                spec_slide(g, row, col, col - 1),
                mask_move(m, row, col, row, col - 1),
                Direction::Left,
                !m[row][col],
            ),
            Direction::Right => (
                spec_slide(g, row, col, col + 1),
                mask_move(m, row, col, row, col + 1),
                Direction::Right,
                !m[row][col],
            ),
            Direction::Neither => (g, m, Direction::Neither, true),
        }
    }
}

/// The rest of an instrumented row pass; the flag is the conjunction of the
/// discipline of every step taken.
pub open spec fn row_pass_t(
    g: Seq<Seq<char>>,
    m: Seq<Seq<bool>>,
    step: int,
    row: int,
    col: int,
    dir: Direction,
) -> (Seq<Seq<char>>, Seq<Seq<bool>>, bool)
    decreases g[row].len() - col,
{
    if row < 0 || row >= g.len() || col < 0 || col >= g[row].len() {
        (g, m, true)
    } else {
        let (g1, m1, d1, ok1) = cell_step_t(g, m, step, row, col, dir);
        let (g2, m2, ok2) = row_pass_t(g1, m1, step, row, col + 1, d1);
        (g2, m2, ok1 && ok2)
    }
}

/// The instrumented rows `row`, `row - 1`, ..., `0` of a frame.
pub open spec fn rows_t(g: Seq<Seq<char>>, m: Seq<Seq<bool>>, step: int, row: int) -> (
    Seq<Seq<char>>,
    Seq<Seq<bool>>,
    bool,
)
    decreases row + 1,
{
    if row < 0 {
        (g, m, true)
    } else {
        let (g1, m1, ok1) = row_pass_t(g, m, step, row, 0, Direction::Neither);
        let (g2, m2, ok2) = rows_t(g1, m1, step, row - 1);
        (g2, m2, ok1 && ok2)
    }
}

/// Single-move discipline of a whole frame: no relocation of the frame
/// starts from a cell that had already received a relocated grain.
pub open spec fn advance_single_move(g: Seq<Seq<char>>, step: int) -> bool {
    rows_t(g, fresh_mask(g), step, g.len() - 1).2
}

/// The mask and the grid have the same shape.
pub open spec fn mask_dims_ok(g: Seq<Seq<char>>, m: Seq<Seq<bool>>) -> bool {
    &&& m.len() == g.len()
    &&& forall|i: int| 0 <= i < g.len() ==> #[trigger] m[i].len() == g[i].len()
}

/// Every marked cell lies strictly behind the examination front at
/// `(row, col)`: below the current row, to the left in the current row, or
/// exactly at the front when the previous grain just slid right (in which
/// case the front cell is about to be skipped).
pub open spec fn mask_behind_front(
    m: Seq<Seq<bool>>,
    row: int,
    col: int,
    dir: Direction,
) -> bool {
    forall|i: int, j: int|
        0 <= i < m.len() && 0 <= j < m[i].len() && #[trigger] m[i][j] ==> i > row || (i == row && j
            < col) || (i == row && j == col && dir == Direction::Right)
}

/// Every marked cell lies at `row` or below it.
pub open spec fn mask_at_or_below(m: Seq<Seq<bool>>, row: int) -> bool {
    forall|i: int, j: int| 0 <= i < m.len() && 0 <= j < m[i].len() && #[trigger] m[i][j] ==> i >= row
}

/// The instrumented pass performs exactly the moves of the plain pass.
proof fn lemma_row_pass_agrees(
    g: Seq<Seq<char>>,
    m: Seq<Seq<bool>>,
    step: int,
    row: int,
    col: int,
    dir: Direction,
)
    ensures
        row_pass_t(g, m, step, row, col, dir).0 == spec_row_pass(g, step, row, col, dir),
    decreases g[row].len() - col,
{
    if !(row < 0 || row >= g.len() || col < 0 || col >= g[row].len()) {
        let (g1, m1, d1, ok1) = cell_step_t(g, m, step, row, col, dir);
        assert(g1 == spec_cell(g, step, row, col, dir).0);
        assert(d1 == spec_cell(g, step, row, col, dir).1);
        lemma_row_pass_agrees(g1, m1, step, row, col + 1, d1);
    }
}

/// The instrumented frame performs exactly the moves of the plain frame.
proof fn lemma_rows_agree(g: Seq<Seq<char>>, m: Seq<Seq<bool>>, step: int, row: int)
    ensures
        rows_t(g, m, step, row).0 == spec_rows(g, step, row),
    decreases row + 1,
{
    if row >= 0 {
        let (g1, m1, ok1) = row_pass_t(g, m, step, row, 0, Direction::Neither);
        lemma_row_pass_agrees(g, m, step, row, 0, Direction::Neither);
        lemma_rows_agree(g1, m1, step, row - 1);
    }
}

/// The grid the instrumented frame produces is the grid `spec_advance`
/// produces: the instrumentation only watches the pass, it does not change
/// it.
pub proof fn lemma_instrumented_agrees(g: Seq<Seq<char>>, step: int)
    ensures
        rows_t(g, fresh_mask(g), step, g.len() - 1).0 == spec_advance(g, step),
{
    lemma_rows_agree(g, fresh_mask(g), step, g.len() - 1);
}

/// One instrumented step obeys the discipline and keeps every marked cell
/// behind the front.
proof fn lemma_cell_step_inv(
    g: Seq<Seq<char>>,
    m: Seq<Seq<bool>>,
    step: int,
    row: int,
    col: int,
    dir: Direction,
)
    requires
        wf_grid(g),
        mask_dims_ok(g, m),
        0 <= row < g.len(),
        0 <= col < g[row].len(),
        mask_behind_front(m, row, col, dir),
    ensures
        cell_step_t(g, m, step, row, col, dir).3,
        mask_dims_ok(g, cell_step_t(g, m, step, row, col, dir).1),
        mask_behind_front(
            cell_step_t(g, m, step, row, col, dir).1,
            row,
            col + 1,
            cell_step_t(g, m, step, row, col, dir).2,
        ),
{
    let (g1, m1, d1, ok1) = cell_step_t(g, m, step, row, col, dir);
    if is_grain(g[row][col]) && row != g.len() - 1 && dir != Direction::Right {
        if !is_grain(g[row + 1][col]) {
            assert(!m[row][col]);
            assert forall|i: int, j: int|
                0 <= i < m1.len() && 0 <= j < m1[i].len() && #[trigger] m1[i][j] implies i > row
                || (i == row && j < col + 1) || (i == row && j == col + 1 && d1
                == Direction::Right) by {
                if !(i == row + 1 && j == col) {
                    assert(m1[i][j] == m[i][j]);
                }
            }
        } else {
            let d = slide_direction(g, step, row, col);
            if d == Direction::Left || d == Direction::Right {
                assert(!m[row][col]);
                let dst = if d == Direction::Left {
                    col - 1
                } else {
                    col + 1
                };
                assert forall|i: int, j: int|
                    0 <= i < m1.len() && 0 <= j < m1[i].len() && #[trigger] m1[i][j] implies i
                    > row || (i == row && j < col + 1) || (i == row && j == col + 1 && d1
                    == Direction::Right) by {
                    if !(i == row && j == dst) {
                        assert(m1[i][j] == m[i][j]);
                    }
                }
            }
        }
    }
}

/// An instrumented row pass obeys the discipline at every step and leaves
/// every marked cell at the current row or below it.
proof fn lemma_row_pass_inv(
    g: Seq<Seq<char>>,
    m: Seq<Seq<bool>>,
    step: int,
    row: int,
    col: int,
    dir: Direction,
)
    requires
        wf_grid(g),
        mask_dims_ok(g, m),
        0 <= row < g.len(),
        mask_behind_front(m, row, col, dir),
    ensures
        row_pass_t(g, m, step, row, col, dir).2,
        mask_dims_ok(g, row_pass_t(g, m, step, row, col, dir).1),
        mask_at_or_below(row_pass_t(g, m, step, row, col, dir).1, row),
        row_pass_t(g, m, step, row, col, dir).0.len() == g.len(),
        forall|i: int|
            0 <= i < g.len() ==> #[trigger] row_pass_t(g, m, step, row, col, dir).0[i].len()
                == g[i].len(),
    decreases g[row].len() - col,
{
    if !(col < 0 || col >= g[row].len()) {
        let (g1, m1, d1, ok1) = cell_step_t(g, m, step, row, col, dir);
        lemma_cell_step_inv(g, m, step, row, col, dir);
        lemma_cell_dims(g, step, row, col, dir);
        assert(g1 == spec_cell(g, step, row, col, dir).0);
        assert(wf_grid(g1));
        assert(mask_dims_ok(g1, m1));
        lemma_row_pass_inv(g1, m1, step, row, col + 1, d1);
    }
}

/// Instrumented row passes from `row` down obey the discipline whenever
/// every already marked cell lies strictly below `row`.
proof fn lemma_rows_inv(g: Seq<Seq<char>>, m: Seq<Seq<bool>>, step: int, row: int)
    requires
        wf_grid(g),
        mask_dims_ok(g, m),
        row < g.len(),
        mask_at_or_below(m, row + 1),
    ensures
        rows_t(g, m, step, row).2,
    decreases row + 1,
{
    if row >= 0 {
        let (g1, m1, ok1) = row_pass_t(g, m, step, row, 0, Direction::Neither);
        assert(mask_behind_front(m, row, 0, Direction::Neither));
        lemma_row_pass_inv(g, m, step, row, 0, Direction::Neither);
        assert(wf_grid(g1));
        lemma_rows_inv(g1, m1, step, row - 1);
    }
}

/// Single-frame, single-move: in every frame of settling on a well-formed
/// grid, no grain is relocated more than once — every relocation starts
/// from a cell that had not received a relocated grain earlier in the same
/// frame.
pub proof fn lemma_advance_single_move(g: Seq<Seq<char>>, step: int)
    requires
        wf_grid(g),
    ensures
        advance_single_move(g, step),
{
    lemma_rows_inv(g, fresh_mask(g), step, g.len() - 1);
}

} // verus!
