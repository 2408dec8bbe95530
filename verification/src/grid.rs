//! The mathematical model of one generation: a rectangle of cells, each
//! alive or dead, stored row by row.

use vstd::prelude::*;
use crate::pixel::pixel_of;

verus! {

/// One generation of the automaton.
///
/// The cell in column `x` and row `y` is `cells[y * width + x]`.
pub struct Grid {
    pub width: nat,
    pub height: nat,
    pub cells: Seq<bool>,
}

/// The Life rule: a live cell stays alive with two or three live neighbours,
/// a dead cell comes alive with exactly three.
pub open spec fn rule(alive: bool, neighbors: nat) -> bool {
    if alive {
        neighbors == 2 || neighbors == 3
    } else {
        neighbors == 3
    }
}

/// How a cell is drawn in text: `+` if it is alive, a blank if it is dead.
pub open spec fn glyph(alive: bool) -> char {
    if alive {
        '+'
    } else {
        ' '
    }
}

impl Grid {
    /// A grid has at least one cell, and one entry for each.
    pub open spec fn wf(self) -> bool {
        &&& self.width >= 1
        &&& self.height >= 1
        &&& self.cells.len() == self.width * self.height
    }

    /// The grid of the given size in which every cell is dead.
    pub open spec fn dead(width: nat, height: nat) -> Grid {
        Grid { width, height, cells: Seq::new(width * height, |k: int| false) }
    }

    /// Whether column `x` of row `y` lies on the grid.
    pub open spec fn in_bounds(self, x: int, y: int) -> bool {
        0 <= x < self.width && 0 <= y < self.height
    }

    /// Where the cell in column `x` of row `y` is stored.
    pub open spec fn index(self, x: int, y: int) -> int {
        y * self.width + x
    }

    /// Whether the cell in column `x` of row `y` is alive. The grid has hard
    /// edges: a position off the grid is never alive.
    pub open spec fn alive(self, x: int, y: int) -> bool {
        self.in_bounds(x, y) && self.cells[self.index(x, y)]
    }

    /// One for a live cell, zero for a dead one or a position off the grid.
    pub open spec fn count(self, x: int, y: int) -> nat {
        if self.alive(x, y) {
            1
        } else {
            0
        }
    }

    /// The number of live cells among the eight positions around `(x, y)`.
    pub open spec fn neighbors(self, x: int, y: int) -> nat {
        self.count(x - 1, y - 1) + self.count(x, y - 1) + self.count(x + 1, y - 1)
            + self.count(x - 1, y) + self.count(x + 1, y)
            + self.count(x - 1, y + 1) + self.count(x, y + 1) + self.count(x + 1, y + 1)
    }

    /// Whether the cell in column `x` of row `y` is alive one generation on.
    pub open spec fn next_alive(self, x: int, y: int) -> bool {
        rule(self.alive(x, y), self.neighbors(x, y))
    }

    /// The next generation.
    pub open spec fn step(self) -> Grid {
        Grid {
            width: self.width,
            height: self.height,
            cells: Seq::new(
                self.cells.len(),
                |k: int| self.next_alive(k % (self.width as int), k / (self.width as int)),
            ),
        }
    }

    /// Row `y` as text: one glyph for each column, then a line feed.
    pub open spec fn line(self, y: int) -> Seq<char> {
        Seq::new(self.width, |x: int| glyph(self.alive(x, y))).push('\n')
    }

    /// The first `rows` rows as text, one after the other.
    pub open spec fn lines(self, rows: nat) -> Seq<char>
        decreases rows,
    {
        if rows == 0 {
            Seq::empty()
        } else {
            self.lines((rows - 1) as nat) + self.line(rows - 1)
        }
    }

    /// The whole grid as text.
    pub open spec fn text(self) -> Seq<char> {
        self.lines(self.height)
    }

    /// Where the text holds column `x` of row `y`; column `width` is the
    /// line feed that ends the row.
    pub open spec fn text_index(self, x: int, y: int) -> int {
        y * (self.width + 1) + x
    }

    /// The grid as packed colours, one for each cell, in the order in which
    /// the cells are stored.
    pub open spec fn pixels(self) -> Seq<u32> {
        Seq::new(self.cells.len(), |k: int| pixel_of(self.cells[k]))
    }
}

/// The cells of a grid of `w` columns and `h` rows are stored at the indices
/// below `w * h`, row after row.
pub proof fn lemma_index_in_range(w: int, h: int, x: int, y: int)
    requires
        0 <= x < w,
        0 <= y < h,
    ensures
        0 <= y * w + x < w * h,
        y * w + x < (y + 1) * w,
        y * w <= y * w + x,
{
    assert(0 <= y * w && (y + 1) * w <= h * w && (y + 1) * w == y * w + w && h * w == w * h)
        by (nonlinear_arith)
        requires
            0 <= x < w,
            0 <= y < h,
    ;
}

/// The cell stored at index `y * w + x` is the one in column `x` of row `y`.
pub proof fn lemma_cell_of_index(w: int, x: int, y: int)
    requires
        0 <= x < w,
        0 <= y,
    ensures
        (y * w + x) % w == x,
        (y * w + x) / w == y,
{
    vstd::arithmetic::div_mod::lemma_fundamental_div_mod_converse(y * w + x, w, y, x);
}

/// Every index below `w * h` is that of one cell of the grid.
pub proof fn lemma_index_of_cell(w: int, h: int, k: int)
    requires
        0 < w,
        0 <= k < w * h,
    ensures
        0 <= k % w < w,
        0 <= k / w < h,
        (k / w) * w + k % w == k,
{
    vstd::arithmetic::div_mod::lemma_fundamental_div_mod(k, w);
    vstd::arithmetic::div_mod::lemma_mod_pos_bound(k, w);
    let q = k / w;
    assert(q * w == w * q) by (nonlinear_arith);
    assert(0 <= q < h) by (nonlinear_arith)
        requires
            0 < w,
            0 <= k < w * h,
            k == q * w + k % w,
            0 <= k % w < w,
    ;
}

/// The next generation has the size of this one, and each of its cells is
/// what the rule makes of that cell and its neighbours in this one.
pub proof fn lemma_step_alive(g: Grid)
    requires
        g.wf(),
    ensures
        g.step().wf(),
        g.step().width == g.width,
        g.step().height == g.height,
        forall|x: int, y: int|
            #[trigger] g.step().alive(x, y) == (g.in_bounds(x, y) && g.next_alive(x, y)),
{
    assert forall|x: int, y: int|
        #[trigger] g.step().alive(x, y) == (g.in_bounds(x, y) && g.next_alive(x, y)) by {
        if g.in_bounds(x, y) {
            lemma_index_in_range(g.width as int, g.height as int, x, y);
            lemma_cell_of_index(g.width as int, x, y);
        }
    }
}

/// A generation differs from the next one just when the rule changes some
/// cell of it.
pub proof fn lemma_step_changes(g: Grid)
    requires
        g.wf(),
    ensures
        g.step() != g <==> exists|x: int, y: int|
            g.in_bounds(x, y) && #[trigger] g.next_alive(x, y) != g.alive(x, y),
{
    lemma_step_alive(g);
    if exists|x: int, y: int| g.in_bounds(x, y) && #[trigger] g.next_alive(x, y) != g.alive(x, y) {
        let (x, y) = choose|x: int, y: int|
            g.in_bounds(x, y) && #[trigger] g.next_alive(x, y) != g.alive(x, y);
        assert(g.step().alive(x, y) != g.alive(x, y));
    } else {
        assert forall|k: int| 0 <= k < g.cells.len() implies g.step().cells[k] == g.cells[k] by {
            lemma_index_of_cell(g.width as int, g.height as int, k);
            let x = k % (g.width as int);
            let y = k / (g.width as int);
            assert(g.next_alive(x, y) == g.alive(x, y));
        }
        assert(g.step().cells =~= g.cells);
    }
}

/// The neighbours of the corner `(0, 0)` are the three positions beside it
/// that lie on the grid. Nothing is counted from beyond the edges, and
/// nothing from the far side of the grid.
pub proof fn lemma_corner_neighbors(g: Grid)
    ensures
        g.neighbors(0, 0) == g.count(1, 0) + g.count(0, 1) + g.count(1, 1),
        g.neighbors(0, 0) <= 3,
{
}

/// A position has at most eight live neighbours.
pub proof fn lemma_neighbors_bound(g: Grid, x: int, y: int)
    ensures
        g.neighbors(x, y) <= 8,
{
}

/// The first `rows` rows as text hold `width + 1` characters for each row,
/// and row `y` of them starts at index `y * (width + 1)`.
pub proof fn lemma_lines(g: Grid, rows: nat, x: int, y: int)
    requires
        0 <= y < rows,
        0 <= x <= g.width,
    ensures
        g.lines(rows).len() == rows * (g.width + 1),
        0 <= g.text_index(x, y) < g.lines(rows).len(),
        g.lines(rows)[g.text_index(x, y)] == g.line(y)[x],
    decreases rows,
{
    let w = g.width as int;
    let before = (rows - 1) as nat;
    assert(rows * (w + 1) == before * (w + 1) + (w + 1)) by (nonlinear_arith)
        requires
            before == rows - 1,
    ;
    lemma_lines_len(g, before);
    if y < before {
        lemma_lines(g, before, x, y);
    } else {
        assert(g.text_index(x, y) == before * (w + 1) + x);
    }
}

/// The first `rows` rows as text hold `width + 1` characters for each row.
pub proof fn lemma_lines_len(g: Grid, rows: nat)
    ensures
        g.lines(rows).len() == rows * (g.width + 1),
    decreases rows,
{
    if rows > 0 {
        let before = (rows - 1) as nat;
        lemma_lines_len(g, before);
        assert(rows * (g.width + 1) == before * (g.width + 1) + (g.width + 1))
            by (nonlinear_arith)
            requires
                before == rows - 1,
        ;
    } else {
        assert(rows * (g.width + 1) == 0) by (nonlinear_arith)
            requires
                rows == 0,
        ;
    }
}

/// The text of a grid is `height` lines of `width` glyphs each: every row
/// takes `width + 1` characters, the glyphs of its cells in order and then a
/// line feed, and no glyph is a line feed.
pub proof fn lemma_text_shape(g: Grid)
    ensures
        g.text().len() == g.height * (g.width + 1),
        forall|x: int, y: int|
            0 <= x < g.width && 0 <= y < g.height ==> g.text()[#[trigger] g.text_index(x, y)]
                == glyph(g.alive(x, y)),
        forall|y: int|
            0 <= y < g.height ==> g.text()[#[trigger] g.text_index(g.width as int, y)] == '\n',
        forall|alive: bool| #[trigger] glyph(alive) != '\n',
{
    lemma_lines_len(g, g.height);
    assert forall|x: int, y: int| 0 <= x < g.width && 0 <= y < g.height implies g.text()[#[trigger] g.text_index(
        x,
        y,
    )] == glyph(g.alive(x, y)) by {
        lemma_lines(g, g.height, x, y);
    }
    assert forall|y: int| 0 <= y < g.height implies g.text()[#[trigger] g.text_index(
        g.width as int,
        y,
    )] == '\n' by {
        lemma_lines(g, g.height, g.width as int, y);
    }
}

/// The colour stored for column `x` of row `y` is white if that cell is
/// alive and black if it is dead.
pub proof fn lemma_pixel_at(g: Grid, x: int, y: int)
    requires
        g.wf(),
        g.in_bounds(x, y),
    ensures
        0 <= g.index(x, y) < g.pixels().len(),
        g.pixels()[g.index(x, y)] == pixel_of(g.alive(x, y)),
{
    lemma_index_in_range(g.width as int, g.height as int, x, y);
}

} // verus!
