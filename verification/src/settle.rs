//! Mathematical model of the grid and of the settling rule.
//!
//! A grid is a sequence of rows, each a sequence of cells; a cell holds `'-'`
//! when empty and any other character when a grain of that material sits
//! there.  `spec_advance` gives the meaning of one frame of settling: rows
//! are visited bottom-up, columns left to right, and each occupied cell
//! either falls straight down, slides one cell sideways, or stays put.

use vstd::prelude::*;

verus! {

/// True when the cell content is a grain rather than empty space.
pub open spec fn is_grain(c: char) -> bool {
    c != '-'
}

/// A well-formed grid: at least one row, at least one column, and every row
/// of the same width.
pub open spec fn wf_grid(g: Seq<Seq<char>>) -> bool {
    &&& g.len() > 0
    &&& g[0].len() > 0
    &&& forall|i: int| 0 <= i < g.len() ==> #[trigger] g[i].len() == g[0].len()
}

/// Length of the run of consecutive grains in column `col` that starts at
/// row `row` and extends upward (towards smaller row indices).
pub open spec fn grain_run(g: Seq<Seq<char>>, col: int, row: int) -> nat
    decreases row + 1,
{
    if row < 0 {
        0
    } else if !is_grain(g[row][col]) {
        0
    } else {
        1 + grain_run(g, col, row - 1)
    }
}

/// Number of contiguously occupied cells counted upward from the floor in
/// column `col`; the count stops at the first empty cell, so grains above a
/// gap are not included.
pub open spec fn stack_height(g: Seq<Seq<char>>, col: int) -> nat {
    grain_run(g, col, g.len() - 1)
}

/// Outcome of examining one cell: where its grain was just moved, if
/// anywhere.  Threaded through a row pass so that a grain that slid right is
/// not examined a second time in the same frame.
#[derive(Clone, Copy, PartialEq, Eq, Structural)]
pub enum Direction {
    Left,
    Right,
    Neither,
}

/// The grain at `(row, col)` can slide left: a column exists there and it is
/// empty at this row.
pub open spec fn can_slide_left(g: Seq<Seq<char>>, row: int, col: int) -> bool {
    col > 0 && !is_grain(g[row][col - 1])
}

/// The grain at `(row, col)` can slide right.
pub open spec fn can_slide_right(g: Seq<Seq<char>>, row: int, col: int) -> bool {
    col + 1 < g[row].len() && !is_grain(g[row][col + 1])
}

/// Drop potential of the column to the left: how far the grain could
/// eventually fall after moving there.  Zero when the grain cannot move left.
pub open spec fn left_drop(g: Seq<Seq<char>>, row: int, col: int) -> int {
    if can_slide_left(g, row, col) {
        g.len() - row - stack_height(g, col - 1)
    } else {
        0
    }
}

/// Drop potential of the column to the right.
pub open spec fn right_drop(g: Seq<Seq<char>>, row: int, col: int) -> int {
    if can_slide_right(g, row, col) {
        g.len() - row - stack_height(g, col + 1)
    } else {
        0
    }
}

/// Direction the grain at `(row, col)` slides when it cannot fall.  Left is
/// preferred on ties, and either side must clear the viscosity threshold
/// `step`: its drop potential, less one, must exceed `step`.
pub open spec fn slide_direction(g: Seq<Seq<char>>, step: int, row: int, col: int) -> Direction {
    if !can_slide_left(g, row, col) && !can_slide_right(g, row, col) {
        Direction::Neither
    } else {
        let ld = left_drop(g, row, col);
        let rd = right_drop(g, row, col);
        if ld != 0 && ld >= rd && ld - 1 > step {
            Direction::Left
        } else if rd != 0 && rd > ld && rd - 1 > step {
            Direction::Right
        } else {
            Direction::Neither
        }
    }
}

/// The grid after the grain at `(row, col)` falls one cell straight down.
pub open spec fn spec_fall(g: Seq<Seq<char>>, row: int, col: int) -> Seq<Seq<char>> {
    let sym = g[row][col];
    g.update(row + 1, g[row + 1].update(col, sym)).update(row, g[row].update(col, '-'))
}

/// The grid after the grain at `(row, col)` slides within its row to
/// column `dest`.
pub open spec fn spec_slide(g: Seq<Seq<char>>, row: int, col: int, dest: int) -> Seq<Seq<char>> {
    let sym = g[row][col];
    g.update(row, g[row].update(dest, sym).update(col, '-'))
}

/// One cell examined during a frame: the updated grid, and the direction the
/// cell's grain just moved.  `dir` is the direction the previous column's
/// grain moved; a cell whose grain just arrived by a rightward slide is
/// skipped.  Empty cells and the bottom row are skipped too, and both clear
/// the suppression.
pub open spec fn spec_cell(g: Seq<Seq<char>>, step: int, row: int, col: int, dir: Direction) -> (
    Seq<Seq<char>>,
    Direction,
) {
    if !is_grain(g[row][col]) || row == g.len() - 1 {
        (g, Direction::Neither)
    } else if dir == Direction::Right {
        (g, Direction::Neither)
    } else if !is_grain(g[row + 1][col]) {
        (spec_fall(g, row, col), Direction::Neither)
    } else {
        match slide_direction(g, step, row, col) {
            Direction::Left => (spec_slide(g, row, col, col - 1), Direction::Left),
            Direction::Right => (spec_slide(g, row, col, col + 1), Direction::Right),
            Direction::Neither => (g, Direction::Neither),
        }
    }
}

/// The rest of a row pass: columns `col`, `col + 1`, ... of row `row`, with
/// `dir` the direction moved at column `col - 1`.
pub open spec fn spec_row_pass(
    g: Seq<Seq<char>>,
    step: int,
    row: int,
    col: int,
    dir: Direction,
) -> Seq<Seq<char>>
    decreases g[row].len() - col,
{
    if row < 0 || row >= g.len() || col < 0 || col >= g[row].len() {
        g
    } else {
        let (g1, d1) = spec_cell(g, step, row, col, dir);
        spec_row_pass(g1, step, row, col + 1, d1)
    }
}

/// The rows `row`, `row - 1`, ..., `0` of a frame, each visited by a full
/// row pass.
pub open spec fn spec_rows(g: Seq<Seq<char>>, step: int, row: int) -> Seq<Seq<char>>
    decreases row + 1,
{
    if row < 0 {
        g
    } else {
        spec_rows(spec_row_pass(g, step, row, 0, Direction::Neither), step, row - 1)
    }
}

/// One whole frame of settling with viscosity `step`: rows visited from the
/// bottom row up to row 0.
pub open spec fn spec_advance(g: Seq<Seq<char>>, step: int) -> Seq<Seq<char>> {
    spec_rows(g, step, g.len() - 1)
}

/// The grid after an area placement: every empty cell of the `area` by
/// `area` square with top-left corner `(row, col)` receives a grain of
/// `sym`; cells outside the grid are skipped.
pub open spec fn spec_drop(
    g: Seq<Seq<char>>,
    row: int,
    col: int,
    sym: char,
    area: int,
) -> Seq<Seq<char>> {
    Seq::new(
        g.len(),
        |i: int|
            Seq::new(
                g[i].len(),
                |j: int|
                    if row <= i < row + area && col <= j < col + area && !is_grain(g[i][j]) {
                        sym
                    } else {
                        g[i][j]
                    },
            ),
    )
}

/// The line-per-row text dump of rows `i`, `i + 1`, ... of the grid: each
/// row's cells in order, followed by a newline.
pub open spec fn render_from(g: Seq<Seq<char>>, i: int) -> Seq<char>
    decreases g.len() - i,
{
    if i < 0 || i >= g.len() {
        Seq::empty()
    } else {
        g[i].push('\n') + render_from(g, i + 1)
    }
}

/// The full text dump of a grid.
pub open spec fn render_grid(g: Seq<Seq<char>>) -> Seq<char> {
    render_from(g, 0)
}

/// One when the cell holds a grain, zero when it is empty.
pub open spec fn grain01(c: char) -> nat {
    if is_grain(c) {
        1
    } else {
        0
    }
}

/// Number of grains in one row.
pub open spec fn row_grains(r: Seq<char>) -> nat
    decreases r.len(),
{
    if r.len() == 0 {
        0
    } else {
        row_grains(r.drop_last()) + grain01(r.last())
    }
}

/// Total number of grains in the grid.
pub open spec fn total_grains(g: Seq<Seq<char>>) -> nat
    decreases g.len(),
{
    if g.len() == 0 {
        0
    } else {
        total_grains(g.drop_last()) + row_grains(g.last())
    }
}

/// A run of grains never reaches past an empty cell: if the cell at
/// `(row, col)` is empty, the run counted upward from `upper` stops at or
/// below `row`.
pub proof fn lemma_run_stops_at_gap(g: Seq<Seq<char>>, col: int, row: int, upper: int)
    requires
        0 <= row <= upper,
        !is_grain(g[row][col]),
    ensures
        grain_run(g, col, upper) <= upper - row,
    decreases upper,
{
    if upper > row && is_grain(g[upper][col]) {
        lemma_run_stops_at_gap(g, col, row, upper - 1);
    }
}

/// When the cell at `(row, col)` is empty, the stack in that column is
/// shorter than the distance from `row` to the bottom of the grid, so the
/// drop potential of that column, seen from row `row`, is at least one.
pub proof fn lemma_stack_below_gap(g: Seq<Seq<char>>, col: int, row: int)
    requires
        0 <= row < g.len(),
        !is_grain(g[row][col]),
    ensures
        stack_height(g, col) <= g.len() - 1 - row,
{
    lemma_run_stops_at_gap(g, col, row, g.len() - 1);
}

/// One cell step leaves every row's length, and the number of rows,
/// unchanged.
pub proof fn lemma_cell_dims(g: Seq<Seq<char>>, step: int, row: int, col: int, dir: Direction)
    requires
        wf_grid(g),
        0 <= row < g.len(),
        0 <= col < g[row].len(),
    ensures
        spec_cell(g, step, row, col, dir).0.len() == g.len(),
        forall|i: int|
            0 <= i < g.len() ==> #[trigger] spec_cell(g, step, row, col, dir).0[i].len()
                == g[i].len(),
{
    let r = spec_cell(g, step, row, col, dir).0;
    assert forall|i: int| 0 <= i < g.len() implies #[trigger] r[i].len() == g[i].len() by {
        assert(r.len() == g.len());
    }
}

/// A row pass leaves the grid's dimensions unchanged.
pub proof fn lemma_row_pass_dims(g: Seq<Seq<char>>, step: int, row: int, col: int, dir: Direction)
    requires
        wf_grid(g),
        0 <= row < g.len(),
    ensures
        spec_row_pass(g, step, row, col, dir).len() == g.len(),
        forall|i: int|
            0 <= i < g.len() ==> #[trigger] spec_row_pass(g, step, row, col, dir)[i].len()
                == g[i].len(),
    decreases g[row].len() - col,
{
    if 0 <= col < g[row].len() {
        let (g1, d1) = spec_cell(g, step, row, col, dir);
        lemma_cell_dims(g, step, row, col, dir);
        assert(wf_grid(g1));
        lemma_row_pass_dims(g1, step, row, col + 1, d1);
    }
}

} // verus!
