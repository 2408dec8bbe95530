//! Three patterns whose fate is known: the empty grid, the block and the
//! blinker.

use vstd::prelude::*;
use crate::grid::{lemma_index_in_range, lemma_step_alive, lemma_step_changes, Grid};

verus! {

/// Whether the live cells of `g` are the four cells of the square whose
/// upper left corner is `(bx, by)`.
pub open spec fn is_block(g: Grid, bx: int, by: int) -> bool {
    &&& g.in_bounds(bx, by)
    &&& g.in_bounds(bx + 1, by + 1)
    &&& forall|x: int, y: int|
        #[trigger] g.alive(x, y) <==> (bx <= x <= bx + 1 && by <= y <= by + 1)
}

/// Whether the live cells of `g` are three in a row, with `(cx, cy)` in the
/// middle, and the row above and the row below lie on the grid.
pub open spec fn is_row_of_three(g: Grid, cx: int, cy: int) -> bool {
    &&& g.in_bounds(cx - 1, cy - 1)
    &&& g.in_bounds(cx + 1, cy + 1)
    &&& forall|x: int, y: int| #[trigger] g.alive(x, y) <==> (cx - 1 <= x <= cx + 1 && y == cy)
}

/// Whether the live cells of `g` are three in a column, with `(cx, cy)` in
/// the middle, and the column to the left and the column to the right lie on
/// the grid.
pub open spec fn is_column_of_three(g: Grid, cx: int, cy: int) -> bool {
    &&& g.in_bounds(cx - 1, cy - 1)
    &&& g.in_bounds(cx + 1, cy + 1)
    &&& forall|x: int, y: int| #[trigger] g.alive(x, y) <==> (x == cx && cy - 1 <= y <= cy + 1)
}

/// No cell of a dead grid is alive.
pub proof fn lemma_dead_grid(width: nat, height: nat)
    ensures
        Grid::dead(width, height).wf() <==> width >= 1 && height >= 1,
        forall|x: int, y: int| !#[trigger] Grid::dead(width, height).alive(x, y),
{
    let g = Grid::dead(width, height);
    assert forall|x: int, y: int| !#[trigger] g.alive(x, y) by {
        if g.in_bounds(x, y) {
            lemma_index_in_range(width as int, height as int, x, y);
        }
    }
}

/// A grid on which nothing lives stays as it is: the first step from it
/// already changes nothing.
pub proof fn lemma_dead_grid_is_still(width: nat, height: nat)
    requires
        width >= 1,
        height >= 1,
    ensures
        Grid::dead(width, height).step() == Grid::dead(width, height),
{
    let g = Grid::dead(width, height);
    lemma_dead_grid(width, height);
    lemma_step_changes(g);
}

/// A block is a still life: wherever it stands on the grid, at an edge or
/// away from it, the next generation is the same.
pub proof fn lemma_block_is_still(g: Grid, bx: int, by: int)
    requires
        g.wf(),
        is_block(g, bx, by),
    ensures
        g.step() == g,
{
    lemma_step_changes(g);
}

/// One step turns a row of three into the column of three through its
/// middle, and changes the grid.
pub proof fn lemma_row_becomes_column(g: Grid, cx: int, cy: int)
    requires
        g.wf(),
        is_row_of_three(g, cx, cy),
    ensures
        g.step().wf(),
        is_column_of_three(g.step(), cx, cy),
        g.step() != g,
{
    lemma_step_alive(g);
    lemma_step_changes(g);
    assert(g.next_alive(cx, cy - 1) != g.alive(cx, cy - 1));
}

/// One step turns a column of three into the row of three through its
/// middle, and changes the grid.
pub proof fn lemma_column_becomes_row(g: Grid, cx: int, cy: int)
    requires
        g.wf(),
        is_column_of_three(g, cx, cy),
    ensures
        g.step().wf(),
        is_row_of_three(g.step(), cx, cy),
        g.step() != g,
{
    lemma_step_alive(g);
    lemma_step_changes(g);
    assert(g.next_alive(cx - 1, cy) != g.alive(cx - 1, cy));
}

/// The blinker has period two: a row of three that stands clear of the
/// edges is a column after one step and the same row again after two, and
/// both steps change the grid.
pub proof fn lemma_blinker(g: Grid, cx: int, cy: int)
    requires
        g.wf(),
        is_row_of_three(g, cx, cy),
    ensures
        is_column_of_three(g.step(), cx, cy),
        g.step() != g,
        g.step().step() == g,
        g.step().step() != g.step(),
{
    lemma_row_becomes_column(g, cx, cy);
    lemma_column_becomes_row(g.step(), cx, cy);
    lemma_step_alive(g);
    lemma_step_alive(g.step());
    lemma_same_cells(g.step().step(), g);
}

/// Two grids of one size with the same live cells are the same grid.
pub proof fn lemma_same_cells(a: Grid, b: Grid)
    requires
        a.wf(),
        b.wf(),
        a.width == b.width,
        a.height == b.height,
        forall|x: int, y: int| a.alive(x, y) == b.alive(x, y),
    ensures
        a == b,
{
    assert forall|k: int| 0 <= k < a.cells.len() implies a.cells[k] == b.cells[k] by {
        crate::grid::lemma_index_of_cell(a.width as int, a.height as int, k);
        let x = k % (a.width as int);
        let y = k / (a.width as int);
        assert(a.alive(x, y) == b.alive(x, y));
    }
    assert(a.cells =~= b.cells);
}

} // verus!
