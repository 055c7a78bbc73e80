//! General properties of the settling rule, proved against the model in
//! `settle`: settling conserves grains, placement never removes one, grains
//! resting on the floor stay where they are, ties between equally good slide
//! directions go to the left, and a slide always clears the viscosity
//! threshold.

use vstd::prelude::*;
use crate::settle::{
    is_grain, wf_grid, grain01, row_grains, total_grains, Direction, can_slide_left,
    can_slide_right, left_drop, right_drop, slide_direction, spec_cell, spec_row_pass, spec_rows,
    spec_advance, spec_drop, lemma_stack_below_gap, lemma_cell_dims, lemma_row_pass_dims,
};

verus! {

/// Updating one cell of a row changes its grain count by exactly the
/// difference the one cell makes.
proof fn lemma_row_grains_update(r: Seq<char>, j: int, c: char)
    requires
        0 <= j < r.len(),
    ensures
        row_grains(r.update(j, c)) == row_grains(r) - grain01(r[j]) + grain01(c),
    decreases r.len(),
{
    let r2 = r.update(j, c);
    if j == r.len() - 1 {
        assert(r2.drop_last() =~= r.drop_last());
    } else {
        assert(r2.drop_last() =~= r.drop_last().update(j, c));
        assert(r2.last() == r.last());
        lemma_row_grains_update(r.drop_last(), j, c);
    }
}

/// Replacing one row of a grid changes its total by exactly the difference
/// between the new and the old row's counts.
proof fn lemma_total_grains_update(g: Seq<Seq<char>>, i: int, row2: Seq<char>)
    requires
        0 <= i < g.len(),
    ensures
        total_grains(g.update(i, row2)) == total_grains(g) - row_grains(g[i]) + row_grains(row2),
    decreases g.len(),
{
    let g2 = g.update(i, row2);
    if i == g.len() - 1 {
        assert(g2.drop_last() =~= g.drop_last());
    } else {
        assert(g2.drop_last() =~= g.drop_last().update(i, row2));
        assert(g2.last() == g.last());
        lemma_total_grains_update(g.drop_last(), i, row2);
    }
}

/// Examining one cell neither creates nor destroys a grain: a fall or a
/// slide clears its source and fills a previously empty destination.
proof fn lemma_cell_count(g: Seq<Seq<char>>, step: int, row: int, col: int, dir: Direction)
    requires
        wf_grid(g),
        0 <= row < g.len(),
        0 <= col < g[row].len(),
    ensures
        total_grains(spec_cell(g, step, row, col, dir).0) == total_grains(g),
{
    if is_grain(g[row][col]) && row != g.len() - 1 && dir != Direction::Right {
        let sym = g[row][col];
        if !is_grain(g[row + 1][col]) {
            let below = g[row + 1].update(col, sym);
            let above = g[row].update(col, '-');
            lemma_row_grains_update(g[row + 1], col, sym);
            lemma_row_grains_update(g[row], col, '-');
            lemma_total_grains_update(g, row + 1, below);
            lemma_total_grains_update(g.update(row + 1, below), row, above);
            assert(g.update(row + 1, below)[row] == g[row]);
        } else {
            let d = slide_direction(g, step, row, col);
            if d == Direction::Left || d == Direction::Right {
                let dest = if d == Direction::Left {
                    col - 1
                } else {
                    col + 1
                };
                let mid = g[row].update(dest, sym);
                let row2 = mid.update(col, '-');
                lemma_row_grains_update(g[row], dest, sym);
                lemma_row_grains_update(mid, col, '-');
                lemma_total_grains_update(g, row, row2);
                assert(mid[col] == sym);
            }
        }
    }
}

/// A row pass conserves the total number of grains.
proof fn lemma_row_pass_count(g: Seq<Seq<char>>, step: int, row: int, col: int, dir: Direction)
    requires
        wf_grid(g),
        0 <= row < g.len(),
    ensures
        total_grains(spec_row_pass(g, step, row, col, dir)) == total_grains(g),
    decreases g[row].len() - col,
{
    if 0 <= col < g[row].len() {
        let (g1, d1) = spec_cell(g, step, row, col, dir);
        lemma_cell_dims(g, step, row, col, dir);
        lemma_cell_count(g, step, row, col, dir);
        assert(wf_grid(g1));
        lemma_row_pass_count(g1, step, row, col + 1, d1);
    }
}

/// Every sequence of row passes conserves the total number of grains.
proof fn lemma_rows_count(g: Seq<Seq<char>>, step: int, row: int)
    requires
        wf_grid(g),
        row < g.len(),
    ensures
        total_grains(spec_rows(g, step, row)) == total_grains(g),
    decreases row + 1,
{
    if row >= 0 {
        let g1 = spec_row_pass(g, step, row, 0, Direction::Neither);
        lemma_row_pass_dims(g, step, row, 0, Direction::Neither);
        lemma_row_pass_count(g, step, row, 0, Direction::Neither);
        assert(wf_grid(g1));
        lemma_rows_count(g1, step, row - 1);
    }
}

/// Conservation: one frame of settling relocates grains but neither
/// duplicates nor destroys any, whatever the grid and the viscosity.
pub proof fn lemma_advance_conserves_grains(g: Seq<Seq<char>>, step: int)
    requires
        wf_grid(g),
    ensures
        total_grains(spec_advance(g, step)) == total_grains(g),
{
    lemma_rows_count(g, step, g.len() - 1);
}

/// A row that only gains grains cell by cell has no fewer grains.
proof fn lemma_row_grains_pointwise_ge(r1: Seq<char>, r2: Seq<char>)
    requires
        r1.len() == r2.len(),
        forall|j: int| 0 <= j < r1.len() ==> #[trigger] r2[j] == r1[j] || !is_grain(r1[j]),
    ensures
        row_grains(r2) >= row_grains(r1),
    decreases r1.len(),
{
    if r1.len() > 0 {
        assert(forall|j: int|
            0 <= j < r1.len() - 1 ==> #[trigger] r2.drop_last()[j] == r1.drop_last()[j]
                || !is_grain(r1.drop_last()[j]));
        lemma_row_grains_pointwise_ge(r1.drop_last(), r2.drop_last());
    }
}

/// A grid that only gains grains cell by cell has no fewer grains.
proof fn lemma_total_grains_pointwise_ge(g1: Seq<Seq<char>>, g2: Seq<Seq<char>>)
    requires
        g1.len() == g2.len(),
        forall|i: int| 0 <= i < g1.len() ==> #[trigger] g2[i].len() == g1[i].len(),
        forall|i: int, j: int|
            0 <= i < g1.len() && 0 <= j < g1[i].len() ==> #[trigger] g2[i][j] == g1[i][j]
                || !is_grain(g1[i][j]),
    ensures
        total_grains(g2) >= total_grains(g1),
    decreases g1.len(),
{
    if g1.len() > 0 {
        assert forall|j: int| 0 <= j < g1.last().len() implies #[trigger] g2.last()[j]
            == g1.last()[j] || !is_grain(g1.last()[j]) by {
            assert(g2[g1.len() - 1][j] == g1[g1.len() - 1][j] || !is_grain(g1[g1.len() - 1][j]));
        }
        lemma_row_grains_pointwise_ge(g1.last(), g2.last());
        assert forall|i: int, j: int|
            0 <= i < g1.drop_last().len() && 0 <= j < g1.drop_last()[i].len() implies #[trigger] g2
            .drop_last()[i][j] == g1.drop_last()[i][j] || !is_grain(g1.drop_last()[i][j]) by {
            assert(g2[i][j] == g1[i][j] || !is_grain(g1[i][j]));
        }
        lemma_total_grains_pointwise_ge(g1.drop_last(), g2.drop_last());
    }
}

/// Placement never removes a grain: an area drop only turns empty cells
/// into grains, so the total count never decreases.
pub proof fn lemma_drop_never_removes(g: Seq<Seq<char>>, row: int, col: int, sym: char, area: int)
    ensures
        total_grains(spec_drop(g, row, col, sym, area)) >= total_grains(g),
{
    lemma_total_grains_pointwise_ge(g, spec_drop(g, row, col, sym, area));
}

/// Examining one cell leaves every grain of the bottom row in place: the
/// bottom row is never a source of movement, and a fall lands only on an
/// empty cell.
proof fn lemma_cell_floor(g: Seq<Seq<char>>, step: int, row: int, col: int, dir: Direction)
    requires
        wf_grid(g),
        0 <= row < g.len(),
        0 <= col < g[row].len(),
    ensures
        forall|c: int|
            0 <= c < g[g.len() - 1].len() && is_grain(#[trigger] g[g.len() - 1][c]) ==> spec_cell(
                g,
                step,
                row,
                col,
                dir,
            ).0[g.len() - 1][c] == g[g.len() - 1][c],
{
}

/// A row pass leaves every grain of the bottom row in place.
proof fn lemma_row_pass_floor(g: Seq<Seq<char>>, step: int, row: int, col: int, dir: Direction)
    requires
        wf_grid(g),
        0 <= row < g.len(),
    ensures
        forall|c: int|
            0 <= c < g[g.len() - 1].len() && is_grain(#[trigger] g[g.len() - 1][c])
                ==> spec_row_pass(g, step, row, col, dir)[g.len() - 1][c] == g[g.len() - 1][c],
    decreases g[row].len() - col,
{
    if 0 <= col < g[row].len() {
        let (g1, d1) = spec_cell(g, step, row, col, dir);
        lemma_cell_dims(g, step, row, col, dir);
        lemma_cell_floor(g, step, row, col, dir);
        assert(wf_grid(g1));
        lemma_row_pass_floor(g1, step, row, col + 1, d1);
    }
}

/// Every sequence of row passes leaves every grain of the bottom row in
/// place.
proof fn lemma_rows_floor(g: Seq<Seq<char>>, step: int, row: int)
    requires
        wf_grid(g),
        row < g.len(),
    ensures
        forall|c: int|
            0 <= c < g[g.len() - 1].len() && is_grain(#[trigger] g[g.len() - 1][c]) ==> spec_rows(
                g,
                step,
                row,
            )[g.len() - 1][c] == g[g.len() - 1][c],
    decreases row + 1,
{
    if row >= 0 {
        let g1 = spec_row_pass(g, step, row, 0, Direction::Neither);
        lemma_row_pass_dims(g, step, row, 0, Direction::Neither);
        lemma_row_pass_floor(g, step, row, 0, Direction::Neither);
        assert(wf_grid(g1));
        lemma_rows_floor(g1, step, row - 1);
    }
}

/// Floor stability: a grain resting on the bottom row is still there, with
/// the same symbol, after a frame of settling; nothing ever moves a grain
/// below the floor.
pub proof fn lemma_advance_floor_stability(g: Seq<Seq<char>>, step: int)
    requires
        wf_grid(g),
    ensures
        forall|c: int|
            0 <= c < g[g.len() - 1].len() && is_grain(#[trigger] g[g.len() - 1][c])
                ==> spec_advance(g, step)[g.len() - 1][c] == g[g.len() - 1][c],
{
    lemma_rows_floor(g, step, g.len() - 1);
}

/// Left preference: when both sides are open and their drop potentials are
/// equal, the slide rule never chooses right; it chooses left exactly when
/// the shared potential clears the viscosity threshold.
pub proof fn lemma_left_preference(g: Seq<Seq<char>>, step: int, row: int, col: int)
    requires
        wf_grid(g),
        0 <= row < g.len(),
        0 <= col < g[row].len(),
        can_slide_left(g, row, col),
        can_slide_right(g, row, col),
        left_drop(g, row, col) == right_drop(g, row, col),
    ensures
        slide_direction(g, step, row, col) != Direction::Right,
        left_drop(g, row, col) - 1 > step ==> slide_direction(g, step, row, col)
            == Direction::Left,
        left_drop(g, row, col) - 1 <= step ==> slide_direction(g, step, row, col)
            == Direction::Neither,
{
    lemma_stack_below_gap(g, col - 1, row);
}

/// Viscosity gating: a grain slides only towards a side whose drop
/// potential exceeds the viscosity by more than one.
pub proof fn lemma_viscosity_gating(g: Seq<Seq<char>>, step: int, row: int, col: int)
    ensures
        slide_direction(g, step, row, col) == Direction::Left ==> left_drop(g, row, col) > step
            + 1,
        slide_direction(g, step, row, col) == Direction::Right ==> right_drop(g, row, col) > step
            + 1,
{
}

/// A viscosity at least the grid's height freezes all horizontal movement:
/// no drop potential on a grid of that height can clear the threshold.
pub proof fn lemma_high_viscosity_freezes(g: Seq<Seq<char>>, step: int, row: int, col: int)
    requires
        wf_grid(g),
        0 <= row < g.len(),
        0 <= col < g[row].len(),
        step + 1 >= g.len(),
    ensures
        slide_direction(g, step, row, col) == Direction::Neither,
{
    assert(left_drop(g, row, col) <= g.len());
    assert(right_drop(g, row, col) <= g.len());
}

/// Number of grains in one column of the grid.
pub open spec fn col_grains(g: Seq<Seq<char>>, c: int) -> nat
    decreases g.len(),
{
    if g.len() == 0 {
        0
    } else {
        col_grains(g.drop_last(), c) + grain01(g.last()[c])
    }
}

/// Replacing one row of a grid changes a column's count by exactly the
/// difference the row's one cell in that column makes.
proof fn lemma_col_grains_update(g: Seq<Seq<char>>, i: int, row2: Seq<char>, c: int)
    requires
        0 <= i < g.len(),
    ensures
        col_grains(g.update(i, row2), c) == col_grains(g, c) - grain01(g[i][c]) + grain01(
            row2[c],
        ),
    decreases g.len(),
{
    let g2 = g.update(i, row2);
    if i == g.len() - 1 {
        assert(g2.drop_last() =~= g.drop_last());
    } else {
        assert(g2.drop_last() =~= g.drop_last().update(i, row2));
        assert(g2.last() == g.last());
        lemma_col_grains_update(g.drop_last(), i, row2, c);
    }
}

/// Under a freezing viscosity, examining one cell leaves every column's
/// grain count unchanged: the cell either stays put or falls within its
/// own column, and the slide rule never fires.
proof fn lemma_cell_col_freeze(
    g: Seq<Seq<char>>,
    step: int,
    row: int,
    col: int,
    dir: Direction,
    c: int,
)
    requires
        wf_grid(g),
        0 <= row < g.len(),
        0 <= col < g[row].len(),
        0 <= c < g[0].len(),
        step + 1 >= g.len(),
    ensures
        col_grains(spec_cell(g, step, row, col, dir).0, c) == col_grains(g, c),
{
    if is_grain(g[row][col]) && row != g.len() - 1 && dir != Direction::Right {
        if !is_grain(g[row + 1][col]) {
            let below = g[row + 1].update(col, g[row][col]);
            let above = g[row].update(col, '-');
            assert(g[row].len() == g[0].len());
            assert(g[row + 1].len() == g[0].len());
            lemma_col_grains_update(g, row + 1, below, c);
            lemma_col_grains_update(g.update(row + 1, below), row, above, c);
            assert(g.update(row + 1, below)[row] == g[row]);
            if c == col {
                assert(below[c] == g[row][col]);
                assert(above[c] == '-');
            } else {
                assert(below[c] == g[row + 1][c]);
                assert(above[c] == g[row][c]);
            }
        } else {
            lemma_high_viscosity_freezes(g, step, row, col);
        }
    }
}

/// Under a freezing viscosity, a row pass leaves every column's grain
/// count unchanged.
proof fn lemma_row_pass_col_freeze(
    g: Seq<Seq<char>>,
    step: int,
    row: int,
    col: int,
    dir: Direction,
    c: int,
)
    requires
        wf_grid(g),
        0 <= row < g.len(),
        0 <= c < g[0].len(),
        step + 1 >= g.len(),
    ensures
        col_grains(spec_row_pass(g, step, row, col, dir), c) == col_grains(g, c),
    decreases g[row].len() - col,
{
    if 0 <= col < g[row].len() {
        let (g1, d1) = spec_cell(g, step, row, col, dir);
        lemma_cell_dims(g, step, row, col, dir);
        lemma_cell_col_freeze(g, step, row, col, dir, c);
        assert(wf_grid(g1));
        assert(g1[0].len() == g[0].len());
        lemma_row_pass_col_freeze(g1, step, row, col + 1, d1, c);
    }
}

/// Under a freezing viscosity, every sequence of row passes leaves every
/// column's grain count unchanged.
proof fn lemma_rows_col_freeze(g: Seq<Seq<char>>, step: int, row: int, c: int)
    requires
        wf_grid(g),
        row < g.len(),
        0 <= c < g[0].len(),
        step + 1 >= g.len(),
    ensures
        col_grains(spec_rows(g, step, row), c) == col_grains(g, c),
    decreases row + 1,
{
    if row >= 0 {
        let g1 = spec_row_pass(g, step, row, 0, Direction::Neither);
        lemma_row_pass_dims(g, step, row, 0, Direction::Neither);
        lemma_row_pass_col_freeze(g, step, row, 0, Direction::Neither, c);
        assert(wf_grid(g1));
        assert(g1[0].len() == g[0].len());
        lemma_rows_col_freeze(g1, step, row - 1, c);
    }
}

/// A viscosity at least the grid's height freezes a whole frame's
/// horizontal movement: no grain leaves its column, so every column holds
/// exactly as many grains after the frame as before it.
pub proof fn lemma_high_viscosity_keeps_columns(g: Seq<Seq<char>>, step: int, c: int)
    requires
        wf_grid(g),
        0 <= c < g[0].len(),
        step + 1 >= g.len(),
    ensures
        col_grains(spec_advance(g, step), c) == col_grains(g, c),
{
    lemma_rows_col_freeze(g, step, g.len() - 1, c);
}

} // verus!
