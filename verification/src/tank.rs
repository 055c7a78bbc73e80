//! The executable grid-simulation engine.
//!
//! A `Tank` owns a rectangular grid of cells and a viscosity setting.  Its
//! contracts are stated against the model in `settle`.

use vstd::prelude::*;
use vstd::string::StrSliceExecFns;
use crate::settle::{
    is_grain, wf_grid, grain_run, stack_height, total_grains, Direction, can_slide_left,
    can_slide_right, slide_direction, spec_fall, spec_slide, spec_cell, spec_row_pass, spec_rows,
    spec_advance, spec_drop, render_grid, render_from, lemma_stack_below_gap,
};
use crate::laws::{lemma_advance_conserves_grains, lemma_drop_never_removes};

verus! {

/// Relies on String::push: appends the given character to the end of the
/// string.
#[verifier::external_body]
fn push_char(s: &mut String, c: char)
    ensures
        final(s)@ == old(s)@.push(c),
{
    s.push(c);
}

/// A fixed-size grid of cells.  A cell holds `'-'` when empty and any other
/// character when a grain of that material sits there.  `step` is the
/// viscosity: the threshold a drop potential must clear before a grain
/// slides sideways.
pub struct Tank {
    pub grains: Vec<Vec<char>>,
    step: usize,
}

impl Tank {
    /// The grid's contents as a sequence of rows of cells.
    pub closed spec fn cells(&self) -> Seq<Seq<char>> {
        Seq::new(self.grains@.len(), |i: int| self.grains@[i]@)
    }

    /// The viscosity the tank was built with.
    pub closed spec fn viscosity(&self) -> int {
        self.step as int
    }

    /// A well-formed tank: a non-degenerate rectangular grid.
    pub open spec fn wf(&self) -> bool {
        wf_grid(self.cells())
    }

    /// A new tank of the given dimensions, fully empty.
    #[verifier::loop_isolation(false)]
    pub fn new(width: usize, height: usize, step: usize) -> (t: Tank)
        requires
            width > 0,
            height > 0,
        ensures
            t.wf(),
            t.cells().len() == height,
            forall|i: int| 0 <= i < height ==> #[trigger] t.cells()[i].len() == width,
            forall|i: int, j: int|
                0 <= i < height && 0 <= j < width ==> !is_grain(#[trigger] t.cells()[i][j]),
            t.viscosity() == step,
    {
        let mut rows: Vec<Vec<char>> = Vec::new();
        let mut i: usize = 0;
        while i < height
            invariant
                i <= height,
                rows@.len() == i,
                forall|r: int| 0 <= r < i ==> (#[trigger] rows@[r])@.len() == width,
                forall|r: int, c: int|
                    0 <= r < i && 0 <= c < width ==> #[trigger] rows@[r]@[c] == '-',
            decreases height - i,
        {
            let mut row: Vec<char> = Vec::new();
            let mut j: usize = 0;
            while j < width
                invariant
                    j <= width,
                    row@.len() == j,
                    forall|c: int| 0 <= c < j ==> row@[c] == '-',
                decreases width - j,
            {
                row.push('-');
                j = j + 1;
            }
            rows.push(row);
            i = i + 1;
        }
        Tank { grains: rows, step }
    }

    /// A tank built directly from an ordered sequence of rows of symbols,
    /// top row first; the viscosity defaults to 0.  The rows are copied as
    /// given; a well-formed tank results whenever the rows all have the
    /// first row's length.
    #[verifier::loop_isolation(false)]
    pub fn from_grains(v: Vec<String>) -> (t: Tank)
        requires
            v@.len() > 0,
            v@[0]@.len() > 0,
        ensures
            t.cells().len() == v@.len(),
            forall|i: int| 0 <= i < v@.len() ==> #[trigger] t.cells()[i] == v@[i]@,
            t.viscosity() == 0,
    {
        let mut outer: Vec<Vec<char>> = Vec::new();
        let mut i: usize = 0;
        while i < v.len()
            invariant
                i <= v@.len(),
                outer@.len() == i,
                forall|r: int| 0 <= r < i ==> #[trigger] outer@[r]@ == v@[r]@,
            decreases v@.len() - i,
        {
            let line = &v[i];
            let n = line.as_str().unicode_len();
            let mut inner: Vec<char> = Vec::new();
            let mut j: usize = 0;
            while j < n
                invariant
                    j <= n,
                    n == v@[i as int]@.len(),
                    inner@.len() == j,
                    forall|c: int| 0 <= c < j ==> #[trigger] inner@[c] == v@[i as int]@[c],
                decreases n - j,
            {
                inner.push(line.as_str().get_char(j));
                j = j + 1;
            }
            proof {
                assert(inner@ =~= v@[i as int]@);
            }
            outer.push(inner);
            i = i + 1;
        }
        Tank { grains: outer, step: 0 }
    }

    /// Structural comparison of two well-formed grids: identical row count,
    /// identical row length, and cell-by-cell equality.
    #[verifier::loop_isolation(false)]
    pub fn equals(&self, other: &Tank) -> (res: bool)
        requires
            self.wf(),
            other.wf(),
        ensures
            res <==> self.cells() == other.cells(),
    {
        let ghost a = self.cells();
        let ghost b = other.cells();
        if self.grains.len() != other.grains.len() {
            return false;
        }

        if self.grains[0].len() != other.grains[0].len() {
            assert(a[0].len() != b[0].len());
            return false;
        }

        let mut i: usize = 0;
        while i < self.grains.len()
            invariant
                i <= a.len(),
                a.len() == b.len(),
                a[0].len() == b[0].len(),
                forall|r: int, c: int|
                    0 <= r < i && 0 <= c < a[r].len() ==> #[trigger] a[r][c] == b[r][c],
            decreases a.len() - i,
        {
            let mut j: usize = 0;
            while j < self.grains[i].len()
                invariant
                    i < a.len(),
                    a.len() == b.len(),
                    a[i as int].len() == b[i as int].len(),
                    j <= a[i as int].len(),
                    forall|c: int| 0 <= c < j ==> #[trigger] a[i as int][c] == b[i as int][c],
                decreases a[i as int].len() - j,
            {
                if self.grains[i][j] != other.grains[i][j] {
                    assert(a[i as int][j as int] != b[i as int][j as int]);
                    return false;
                }
                j = j + 1;
            }
            i = i + 1;
        }

        proof {
            assert(a =~~= b);
        }
        true
    }

    /// Number of contiguously occupied cells counted upward from the floor
    /// in `column`; the count stops at the first empty cell.  A read-only
    /// query: its result is a function of the grid's contents alone, so two
    /// calls with no mutation in between return the same value.
    #[verifier::loop_isolation(false)]
    pub fn get_count_of_grains_in_column(&self, column: usize) -> (count: usize)
        requires
            forall|i: int| 0 <= i < self.cells().len() ==> column < #[trigger] self.cells()[i].len(),
        ensures
            count == stack_height(self.cells(), column as int),
    {
        let ghost g = self.cells();
        let mut count: usize = 0;
        let mut i: usize = self.grains.len();
        while i > 0
            invariant
                i <= g.len(),
                count == g.len() - i,
                g == self.cells(),
                forall|r: int| 0 <= r < g.len() ==> column < #[trigger] g[r].len(),
                stack_height(g, column as int) == count + grain_run(g, column as int, i - 1),
            decreases i,
        {
            i = i - 1;
            if self.grains[i][column] != '-' {
                count = count + 1;
            } else {
                return count;
            }
        }
        count
    }

    /// The direction the grain at `(row, column)` slides when it cannot
    /// fall, per the slide rule: left preferred on ties, and only when the
    /// chosen side's drop potential, less one, exceeds the viscosity.
    fn figure_out_direction_to_move(&self, row: usize, column: usize) -> (d: Direction)
        requires
            self.wf(),
            row < self.cells().len(),
            column < self.cells()[row as int].len(),
        ensures
            d == slide_direction(self.cells(), self.viscosity(), row as int, column as int),
    {
        let ghost g = self.cells();
        let height = self.grains.len();
        let width = self.grains[row].len();
        let can_move_left = column != 0 && self.grains[row][column - 1] == '-';
        let can_move_right = column + 1 < width && self.grains[row][column + 1] == '-';

        if !can_move_left && !can_move_right {
            return Direction::Neither;
        }

        proof {
            if can_move_left {
                lemma_stack_below_gap(g, column - 1, row as int);
            }
            if can_move_right {
                lemma_stack_below_gap(g, column + 1, row as int);
            }
        }

        let left_drop_count: usize = if can_move_left {
            (height - row) - self.get_count_of_grains_in_column(column - 1)
        } else {
            0
        };

        let right_drop_count: usize = if can_move_right {
            (height - row) - self.get_count_of_grains_in_column(column + 1)
        } else {
            0
        };

        if left_drop_count != 0 && left_drop_count >= right_drop_count && left_drop_count - 1
            > self.step {
            return Direction::Left;
        }

        if right_drop_count != 0 && right_drop_count > left_drop_count && right_drop_count - 1
            > self.step {
            return Direction::Right;
        }

        Direction::Neither
    }

    /// One row of a frame: columns of `row` examined left to right, each
    /// grain falling or sliding as the settling rule directs, with the
    /// rightward-slide suppression threaded through the pass.
    #[verifier::loop_isolation(false)]
    fn advance_row(&mut self, row: usize)
        requires
            old(self).wf(),
            row < old(self).cells().len(),
        ensures
            final(self).cells() == spec_row_pass(
                old(self).cells(),
                old(self).viscosity(),
                row as int,
                0,
                Direction::Neither,
            ),
            final(self).wf(),
            final(self).viscosity() == old(self).viscosity(),
            final(self).cells().len() == old(self).cells().len(),
            forall|i: int|
                0 <= i < old(self).cells().len() ==> #[trigger] final(self).cells()[i].len()
                    == old(self).cells()[i].len(),
    {
        let ghost g0 = self.cells();
        let ghost v = self.viscosity();
        let height = self.grains.len();
        let width = self.grains[row].len();
        let mut direction_moved = Direction::Neither;
        let mut column: usize = 0;
        while column < width
            invariant
                column <= width,
                self.wf(),
                self.cells().len() == g0.len(),
                forall|i: int|
                    0 <= i < g0.len() ==> #[trigger] self.cells()[i].len() == g0[i].len(),
                self.viscosity() == v,
                spec_row_pass(g0, v, row as int, 0, Direction::Neither) == spec_row_pass(
                    self.cells(),
                    v,
                    row as int,
                    column as int,
                    direction_moved,
                ),
            decreases width - column,
        {
            let ghost cur = self.cells();
            let ghost dir0 = direction_moved;
            if self.grains[row][column] == '-' || row == height - 1 {
                direction_moved = Direction::Neither;
            } else if direction_moved == Direction::Right {
                direction_moved = Direction::Neither;
            } else {
                let fell = self.fall_down(row, column);
                if fell {
                    direction_moved = Direction::Neither;
                } else {
                    direction_moved = self.move_horizontally(row, column);
                }
            }
            proof {
                assert(spec_cell(cur, v, row as int, column as int, dir0) == (
                    self.cells(),
                    direction_moved,
                ));
                assert(spec_row_pass(cur, v, row as int, column as int, dir0) == spec_row_pass(
                    self.cells(),
                    v,
                    row as int,
                    column as int + 1,
                    direction_moved,
                ));
            }
            column = column + 1;
        }
    }

    /// Performs exactly one full settling pass over the grid: rows visited
    /// from the bottom up, columns left to right.  Grains fall straight down
    /// when they can, otherwise slide per the slide rule; the bottom row is
    /// never a source of movement.
    #[verifier::loop_isolation(false)]
    pub fn advance_frame(&mut self)
        requires
            old(self).wf(),
        ensures
            final(self).cells() == spec_advance(old(self).cells(), old(self).viscosity()),
            total_grains(final(self).cells()) == total_grains(old(self).cells()),
            final(self).wf(),
            final(self).viscosity() == old(self).viscosity(),
            final(self).cells().len() == old(self).cells().len(),
            forall|i: int|
                0 <= i < old(self).cells().len() ==> #[trigger] final(self).cells()[i].len()
                    == old(self).cells()[i].len(),
    {
        let ghost g0 = self.cells();
        let ghost v = self.viscosity();
        proof {
            lemma_advance_conserves_grains(g0, v);
        }
        let height = self.grains.len();
        let mut r: usize = height;
        while r > 0
            invariant
                r <= height,
                self.wf(),
                self.cells().len() == g0.len(),
                forall|i: int|
                    0 <= i < g0.len() ==> #[trigger] self.cells()[i].len() == g0[i].len(),
                self.viscosity() == v,
                spec_rows(g0, v, height as int - 1) == spec_rows(self.cells(), v, r as int - 1),
            decreases r,
        {
            let ghost cur = self.cells();
            self.advance_row(r - 1);
            proof {
                assert(spec_rows(cur, v, r as int - 1) == spec_rows(
                    self.cells(),
                    v,
                    r as int - 2,
                ));
            }
            r = r - 1;
        }
    }

    /// Fills the empty cells of row `r` between `column` and
    /// `column + area` (exclusive, clipped to the grid) with `grain`.
    #[verifier::loop_isolation(false)]
    fn fill_row(&mut self, r: usize, column: usize, grain: char, area: usize)
        requires
            old(self).wf(),
            r < old(self).cells().len(),
            column < old(self).cells()[r as int].len(),
        ensures
            final(self).cells().len() == old(self).cells().len(),
            forall|i: int|
                0 <= i < old(self).cells().len() ==> #[trigger] final(self).cells()[i].len()
                    == old(self).cells()[i].len(),
            forall|i: int|
                0 <= i < old(self).cells().len() && i != r
                    ==> #[trigger] final(self).cells()[i] == old(self).cells()[i],
            forall|c: int|
                0 <= c < old(self).cells()[r as int].len() ==> #[trigger] final(self).cells()[
                    r as int
                ][c] == (if column <= c < column + area && !is_grain(
                    old(self).cells()[r as int][c],
                ) {
                    grain
                } else {
                    old(self).cells()[r as int][c]
                }),
            final(self).wf(),
            final(self).viscosity() == old(self).viscosity(),
    {
        let ghost g0 = self.cells();
        let width = self.grains[r].len();
        let cols_left = width - column;
        let mut j: usize = 0;
        while j < area && j < cols_left
            invariant
                j <= cols_left,
                self.cells().len() == g0.len(),
                forall|i: int|
                    0 <= i < g0.len() ==> #[trigger] self.cells()[i].len() == g0[i].len(),
                forall|i: int|
                    0 <= i < g0.len() && i != r ==> #[trigger] self.cells()[i] == g0[i],
                forall|c: int|
                    0 <= c < g0[r as int].len() ==> #[trigger] self.cells()[r as int][c] == (
                    if column <= c < column + j && !is_grain(g0[r as int][c]) {
                        grain
                    } else {
                        g0[r as int][c]
                    }),
                j <= area,
                self.wf(),
                self.viscosity() == old(self).viscosity(),
            decreases area - j,
        {
            let ghost cur = self.cells();
            proof {
                assert(self.cells()[r as int].len() == g0[r as int].len());
                assert(self.cells()[r as int] == self.grains@[r as int]@);
            }
            if self.grains[r][column + j] == '-' {
                let sym = grain;
                self.grains[r][column + j] = sym;
                proof {
                    assert(self.cells() =~~= cur.update(
                        r as int,
                        cur[r as int].update(column as int + j, grain),
                    ));
                }
            }
            j = j + 1;
        }
    }

    /// Fills every currently empty cell of the `area` by `area` square with
    /// top-left corner `(row, column)` with a grain of `grain`; cells of the
    /// square that lie outside the grid are silently skipped.  This is the
    /// only way new grains enter the grid.
    #[verifier::loop_isolation(false)]
    pub fn drop_sand(&mut self, row: usize, column: usize, grain: char, area: usize)
        requires
            old(self).wf(),
            column < old(self).cells()[0].len(),
        ensures
            final(self).cells() == spec_drop(
                old(self).cells(),
                row as int,
                column as int,
                grain,
                area as int,
            ),
            total_grains(final(self).cells()) >= total_grains(old(self).cells()),
            final(self).wf(),
            final(self).viscosity() == old(self).viscosity(),
            final(self).cells().len() == old(self).cells().len(),
            forall|i: int|
                0 <= i < old(self).cells().len() ==> #[trigger] final(self).cells()[i].len()
                    == old(self).cells()[i].len(),
    {
        let ghost g0 = self.cells();
        proof {
            lemma_drop_never_removes(g0, row as int, column as int, grain, area as int);
        }
        let height = self.grains.len();
        let mut i: usize = 0;
        while i < area && row < height && i < height - row
            invariant
                self.cells().len() == g0.len(),
                forall|k: int|
                    0 <= k < g0.len() ==> #[trigger] self.cells()[k].len() == g0[k].len(),
                i <= area,
                forall|k: int, c: int|
                    0 <= k < g0.len() && 0 <= c < g0[k].len() ==> #[trigger] self.cells()[k][c]
                        == (if row <= k < row + i && k < row + area && column <= c < column + area
                        && !is_grain(g0[k][c]) {
                        grain
                    } else {
                        g0[k][c]
                    }),
                self.wf(),
                self.viscosity() == old(self).viscosity(),
            decreases area - i,
        {
            let ghost cur = self.cells();
            self.fill_row(row + i, column, grain, area);
            proof {
                assert forall|k: int, c: int|
                    0 <= k < g0.len() && 0 <= c < g0[k].len() implies #[trigger] self.cells()[k][c]
                    == (if row <= k < row + i + 1 && k < row + area && column <= c < column + area
                    && !is_grain(g0[k][c]) {
                    grain
                } else {
                    g0[k][c]
                }) by {
                    if k == row + i {
                        assert(cur[k][c] == g0[k][c]);
                    } else {
                        assert(self.cells()[k] == cur[k]);
                    }
                }
            }
            i = i + 1;
        }
        proof {
            assert(self.cells() =~~= spec_drop(g0, row as int, column as int, grain, area as int));
        }
    }

    /// Attempts to place one grain of `grain` at the top of the given
    /// column: the single cell `(0, column)` receives the grain if it is
    /// currently empty.
    pub fn drop_sand_in_column(&mut self, column: usize, grain: char)
        requires
            old(self).wf(),
            column < old(self).cells()[0].len(),
        ensures
            final(self).cells() == spec_drop(old(self).cells(), 0, column as int, grain, 1),
            !is_grain(old(self).cells()[0][column as int]) ==> final(self).cells()
                == old(self).cells().update(0, old(self).cells()[0].update(column as int, grain)),
            is_grain(old(self).cells()[0][column as int]) ==> final(self).cells()
                == old(self).cells(),
            final(self).wf(),
            final(self).viscosity() == old(self).viscosity(),
    {
        let ghost g0 = self.cells();
        self.drop_sand(0, column, grain, 1);
        proof {
            if !is_grain(g0[0][column as int]) {
                assert(self.cells() =~~= g0.update(0, g0[0].update(column as int, grain)));
            } else {
                assert(self.cells() =~~= g0);
            }
        }
    }

    /// The line-per-row text dump of the grid: one character per cell, each
    /// row followed by a newline; an empty cell appears as `'-'`.
    #[verifier::loop_isolation(false)]
    pub fn to_string(&self) -> (s: String)
        ensures
            s@ == render_grid(self.cells()),
    {
        let ghost g = self.cells();
        let mut s = String::new();
        let mut i: usize = 0;
        proof {
            assert(s@ + render_from(g, 0) =~= render_from(g, 0));
        }
        while i < self.grains.len()
            invariant
                i <= g.len(),
                render_grid(g) == s@ + render_from(g, i as int),
            decreases g.len() - i,
        {
            let ghost prefix = s@;
            let width = self.grains[i].len();
            let mut j: usize = 0;
            proof {
                assert(prefix + g[i as int].subrange(0, 0) =~= prefix);
            }
            while j < width
                invariant
                    j <= width,
                    i < g.len(),
                    width == g[i as int].len(),
                    s@ == prefix + g[i as int].subrange(0, j as int),
                decreases width - j,
            {
                let c = self.grains[i][j];
                push_char(&mut s, c);
                proof {
                    assert(s@ =~= prefix + g[i as int].subrange(0, j as int + 1));
                }
                j = j + 1;
            }
            push_char(&mut s, '\n');
            proof {
                assert(g[i as int].subrange(0, g[i as int].len() as int) =~= g[i as int]);
                assert(s@ =~= prefix + g[i as int].push('\n'));
                assert(render_from(g, i as int) == g[i as int].push('\n') + render_from(
                    g,
                    i as int + 1,
                ));
                assert(prefix + (g[i as int].push('\n') + render_from(g, i as int + 1)) =~= (prefix
                    + g[i as int].push('\n')) + render_from(g, i as int + 1));
            }
            i = i + 1;
        }
        proof {
            assert(s@ + render_from(g, g.len() as int) =~= s@);
        }
        s
    }

    /// Moves the grain at `(row, column)` one cell straight down when the
    /// cell below is empty; reports whether it fell.
    fn fall_down(&mut self, row: usize, column: usize) -> (fell: bool)
        requires
            old(self).wf(),
            row + 1 < old(self).cells().len(),
            column < old(self).cells()[row as int].len(),
        ensures
            fell == !is_grain(old(self).cells()[row as int + 1][column as int]),
            fell ==> final(self).cells() == spec_fall(old(self).cells(), row as int, column as int),
            !fell ==> final(self).cells() == old(self).cells(),
            final(self).wf(),
            final(self).viscosity() == old(self).viscosity(),
            final(self).cells().len() == old(self).cells().len(),
            forall|i: int|
                0 <= i < old(self).cells().len() ==> #[trigger] final(self).cells()[i].len()
                    == old(self).cells()[i].len(),
    {
        let ghost g = self.cells();
        // Binds the row count as a usize, so `row + 1` is known not to wrap.
        let height = self.grains.len();
        proof {
            assert(row + 1 < height);
            assert(g[row as int].len() == g[0].len());
            assert(g[row as int + 1].len() == g[0].len());
            assert(g[row as int + 1] == self.grains@[row as int + 1]@);
        }
        if self.grains[row + 1][column] != '-' {
            return false;
        }

        let sym = self.grains[row][column];
        self.grains[row + 1][column] = sym;
        self.grains[row][column] = '-';
        proof {
            assert(self.cells() =~~= spec_fall(g, row as int, column as int));
        }
        true
    }

    /// When the grain at `(row, column)` cannot fall, slides it one cell in
    /// the direction the slide rule chooses, if any; reports that direction.
    fn move_horizontally(&mut self, row: usize, column: usize) -> (d: Direction)
        requires
            old(self).wf(),
            row < old(self).cells().len(),
            column < old(self).cells()[row as int].len(),
        ensures
            d == slide_direction(old(self).cells(), old(self).viscosity(), row as int, column as int),
            d == Direction::Left ==> final(self).cells() == spec_slide(
                old(self).cells(),
                row as int,
                column as int,
                column as int - 1,
            ),
            d == Direction::Right ==> final(self).cells() == spec_slide(
                old(self).cells(),
                row as int,
                column as int,
                column as int + 1,
            ),
            d == Direction::Neither ==> final(self).cells() == old(self).cells(),
            final(self).wf(),
            final(self).viscosity() == old(self).viscosity(),
            final(self).cells().len() == old(self).cells().len(),
            forall|i: int|
                0 <= i < old(self).cells().len() ==> #[trigger] final(self).cells()[i].len()
                    == old(self).cells()[i].len(),
    {
        let ghost g = self.cells();
        let direction = self.figure_out_direction_to_move(row, column);

        match direction {
            Direction::Left => {
                assert(can_slide_left(g, row as int, column as int));
                let sym = self.grains[row][column];
                self.grains[row][column - 1] = sym;
                self.grains[row][column] = '-';
                proof {
                    assert(self.cells() =~~= spec_slide(
                        g,
                        row as int,
                        column as int,
                        column as int - 1,
                    ));
                }
            },
            Direction::Right => {
                assert(can_slide_right(g, row as int, column as int));
                // Binds the row's width as a usize, so `column + 1` is known
                // not to wrap.
                let width = self.grains[row].len();
                assert(column + 1 < width);
                let sym = self.grains[row][column];
                self.grains[row][column + 1] = sym;
                self.grains[row][column] = '-';
                proof {
                    assert(self.cells() =~~= spec_slide(
                        g,
                        row as int,
                        column as int,
                        column as int + 1,
                    ));
                }
            },
            Direction::Neither => (),
        }

        direction
    }
}

} // verus!
