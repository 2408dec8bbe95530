//! The engine: a grid of cells and a scratch buffer of the same shape, which
//! trade places at every generation.

use vstd::prelude::*;
use crate::error::WorldError;
use crate::grid::{glyph, lemma_cell_of_index, lemma_index_in_range, lemma_pixel_at, Grid};
use crate::pixel::{pixel_of, BLACK, WHITE};

verus! {

/// A fair coin, tossed by `rand::random` with the generator of the calling
/// thread. Nothing is claimed of the outcome.
#[verifier::external_body]
fn random_bool() -> bool {
    rand::random()
}

/// A Game of Life on a grid whose size is fixed at construction.
pub struct World {
    w: usize,
    h: usize,
    state: Vec<bool>,
    next_state: Vec<bool>,
}

impl View for World {
    type V = Grid;

    /// The current generation. The scratch buffer is no part of it.
    closed spec fn view(&self) -> Grid {
        Grid { width: self.w as nat, height: self.h as nat, cells: self.state@ }
    }
}

impl World {
    /// Both buffers hold one entry for each cell of a grid that is not empty.
    #[verifier::type_invariant]
    spec fn inv(&self) -> bool {
        &&& self.w >= 1
        &&& self.h >= 1
        &&& self.w * self.h <= usize::MAX
        &&& self.state@.len() == self.w * self.h
        &&& self.next_state@.len() == self.w * self.h
    }

    /// A world of `w` columns and `h` rows in which every cell is dead.
    pub fn new(w: usize, h: usize) -> (r: Result<World, WorldError>)
        ensures
            match r {
                Ok(world) => w >= 1 && h >= 1 && w * h <= usize::MAX && world@ == Grid::dead(
                    w as nat,
                    h as nat,
                ),
                Err(WorldError::EmptyGrid) => w == 0 || h == 0,
                Err(WorldError::TooLarge) => w >= 1 && h >= 1 && w * h > usize::MAX,
                Err(WorldError::BufferSize) => false,
            },
    {
        if w == 0 || h == 0 {
            return Err(WorldError::EmptyGrid);
        }
        match w.checked_mul(h) {
            Some(n) => {
                let world = World { w, h, state: vec![false; n], next_state: vec![false; n] };
                assert(world@.cells =~= Grid::dead(w as nat, h as nat).cells);
                Ok(world)
            },
            None => Err(WorldError::TooLarge),
        }
    }

    /// Gives every cell a state drawn at random, alive or dead with equal
    /// chance. The size of the grid stays as it is.
    pub fn fill(&mut self)
        ensures
            final(self)@.wf(),
            final(self)@.width == old(self)@.width,
            final(self)@.height == old(self)@.height,
    {
        proof {
            use_type_invariant(&*self);
        }
        let w: usize = self.w;
        let h: usize = self.h;
        for j in 0..h
            invariant
                self.w == w,
                self.h == h,
                self@.wf(),
        {
            for i in 0..w
                invariant
                    self.w == w,
                    self.h == h,
                    j < h,
                    self@.wf(),
            {
                self.set_cell(i, j, random_bool())
            }
        }
    }

    /// Where the cell in column `i` of row `j` is stored.
    pub fn index(&self, i: usize, j: usize) -> (k: usize)
        requires
            self@.in_bounds(i as int, j as int),
        ensures
            k == self@.index(i as int, j as int),
            k < self@.cells.len(),
    {
        proof {
            use_type_invariant(self);
            lemma_index_in_range(self.w as int, self.h as int, i as int, j as int);
        }
        j * self.w + i
    }

    /// Whether the cell in column `i` of row `j` is alive.
    pub fn cell(&self, i: usize, j: usize) -> (alive: bool)
        requires
            self@.in_bounds(i as int, j as int),
        ensures
            alive == self@.alive(i as int, j as int),
    {
        let k: usize = self.index(i, j);
        self.state[k]
    }

    /// Makes the cell in column `i` of row `j` alive or dead, and leaves every
    /// other cell as it is.
    pub fn set_cell(&mut self, i: usize, j: usize, cell: bool)
        requires
            old(self)@.in_bounds(i as int, j as int),
        ensures
            final(self)@.wf(),
            final(self)@.width == old(self)@.width,
            final(self)@.height == old(self)@.height,
            final(self)@.cells == old(self)@.cells.update(
                old(self)@.index(i as int, j as int),
                cell,
            ),
    {
        proof {
            use_type_invariant(&*self);
        }
        let idx: usize = self.index(i, j);
        self.state[idx] = cell;
    }

    /// Writes the cell in column `i` of row `j` of the scratch buffer. The
    /// current generation stays as it is.
    fn set_next_cell(&mut self, i: usize, j: usize, cell: bool)
        requires
            old(self)@.in_bounds(i as int, j as int),
        ensures
            final(self)@ == old(self)@,
            final(self).next_state@ == old(self).next_state@.update(
                old(self)@.index(i as int, j as int),
                cell,
            ),
    {
        proof {
            use_type_invariant(&*self);
        }
        let idx: usize = self.index(i, j);
        self.next_state[idx] = cell;
    }

    /// The coordinate one before, at or one after `c`, for `d` being 0, 1 or
    /// 2, if it lies below `limit`.
    fn shifted(c: usize, d: usize, limit: usize) -> (r: Option<usize>)
        requires
            d <= 2,
        ensures
            match r {
                Some(p) => p == c + d - 1 && p < limit,
                None => !(0 <= c + d - 1 < limit),
            },
    {
        if d == 0 {
            if c == 0 || c - 1 >= limit {
                None
            } else {
                Some(c - 1)
            }
        } else if c >= limit || d - 1 >= limit - c {
            None
        } else {
            Some(c + (d - 1))
        }
    }

    /// One if the position `(x + dx - 1, y + dy - 1)` holds a live cell, zero
    /// if it holds a dead one or lies off the grid.
    fn count_at(&self, x: usize, dx: usize, y: usize, dy: usize) -> (n: u8)
        requires
            dx <= 2,
            dy <= 2,
        ensures
            n == self@.count(x + dx - 1, y + dy - 1),
    {
        match (World::shifted(x, dx, self.w), World::shifted(y, dy, self.h)) {
            (Some(i), Some(j)) => if self.cell(i, j) {
                1
            } else {
                0
            },
            _ => 0,
        }
    }

    /// The number of live cells among the eight positions around `(x, y)`.
    /// Positions off the grid count as dead: the grid does not wrap around.
    pub fn alive_neighbors(&self, x: usize, y: usize) -> (n: u8)
        ensures
            n == self@.neighbors(x as int, y as int),
            n <= 8,
    {
        let above: u8 = self.count_at(x, 0, y, 0) + self.count_at(x, 1, y, 0) + self.count_at(
            x,
            2,
            y,
            0,
        );
        let beside: u8 = self.count_at(x, 0, y, 1) + self.count_at(x, 2, y, 1);
        let below: u8 = self.count_at(x, 0, y, 2) + self.count_at(x, 1, y, 2) + self.count_at(
            x,
            2,
            y,
            2,
        );
        above + beside + below
    }

    /// Advances the world by one generation and tells whether any cell
    /// changed. Every cell's new state is computed from the generation before
    /// the call.
    pub fn update(&mut self) -> (changed: bool)
        ensures
            final(self)@.wf(),
            final(self)@ == old(self)@.step(),
            changed == (final(self)@ != old(self)@),
    {
        proof {
            use_type_invariant(&*self);
        }
        let ghost before: Grid = self@;
        let ghost after: Seq<bool> = before.step().cells;
        let w: usize = self.w;
        let h: usize = self.h;
        let mut changed: bool = false;

        assert(0 * w == 0);
        for j in 0..h
            invariant
                self@ == before,
                self.w == w,
                self.h == h,
                before.wf(),
                after == before.step().cells,
                self.next_state@.len() == after.len(),
                self.next_state@.take(j * w) == after.take(j * w),
                changed == !(after.take(j * w) =~= before.cells.take(j * w)),
        {
            for i in 0..w
                invariant
                    self@ == before,
                    self.w == w,
                    self.h == h,
                    j < h,
                    before.wf(),
                    after == before.step().cells,
                    self.next_state@.len() == after.len(),
                    self.next_state@.take(j * w + i) == after.take(j * w + i),
                    changed == !(after.take(j * w + i) =~= before.cells.take(j * w + i)),
            {
                let was_alive: bool = self.cell(i, j);
                let alive_neighbors: u8 = self.alive_neighbors(i, j);
                let alive: bool = if was_alive {
                    alive_neighbors == 2 || alive_neighbors == 3
                } else {
                    alive_neighbors == 3
                };
                let ghost k: int = j * w + i;
                proof {
                    lemma_index_in_range(w as int, h as int, i as int, j as int);
                    lemma_cell_of_index(w as int, i as int, j as int);
                    assert(after.take(k + 1).drop_last() == after.take(k));
                    assert(before.cells.take(k + 1).drop_last() == before.cells.take(k));
                    assert(after.take(k + 1).last() == alive);
                    assert(before.cells.take(k + 1).last() == was_alive);
                }

                self.set_next_cell(i, j, alive);

                if was_alive != alive {
                    changed = true;
                }
            }
            proof {
                assert(j * w + w == (j + 1) * w) by (nonlinear_arith);
            }
        }

        proof {
            let n = before.cells.len() as int;
            assert(h * w == n) by (nonlinear_arith)
                requires
                    n == w * h,
            ;
            assert(self.next_state@.take(n) == self.next_state@);
            assert(after.take(n) == after);
            assert(before.cells.take(n) == before.cells);
        }
        std::mem::swap(&mut self.next_state, &mut self.state);

        changed
    }

    /// The current generation as text: row by row, `+` for a live cell and a
    /// blank for a dead one, each row ended by a line feed.
    pub fn as_string(&self) -> (text: String)
        ensures
            self@.wf(),
            text@ == self@.text(),
    {
        proof {
            use_type_invariant(self);
        }
        let ghost grid: Grid = self@;
        let mut text = String::new();

        for j in 0..self.h
            invariant
                self@ == grid,
                text@ == grid.lines(j as nat),
        {
            for i in 0..self.w
                invariant
                    self@ == grid,
                    j < self.h,
                    text@ == grid.lines(j as nat) + Seq::new(
                        i as nat,
                        |x: int| glyph(grid.alive(x, j as int)),
                    ),
            {
                let ghost row: Seq<char> = Seq::new(
                    i as nat,
                    |x: int| glyph(grid.alive(x, j as int)),
                );
                if self.cell(i, j) {
                    proof {
                        reveal_strlit("+");
                    }
                    text.append("+");
                } else {
                    proof {
                        reveal_strlit(" ");
                    }
                    text.append(" ");
                }
                assert(text@ =~= grid.lines(j as nat) + row.push(glyph(grid.alive(i as int, j as int))));
                assert(row.push(glyph(grid.alive(i as int, j as int))) =~= Seq::new(
                    (i + 1) as nat,
                    |x: int| glyph(grid.alive(x, j as int)),
                ));
            }

            proof {
                reveal_strlit("\n");
            }
            text.append("\n");
            assert(text@ =~= grid.lines(j as nat) + grid.line(j as int));
        }

        text
    }

    /// Writes the current generation into `buff` as packed colours, white for
    /// a live cell and black for a dead one, in the order in which the cells
    /// are stored. A buffer that does not hold exactly one entry for each
    /// cell is refused and left as it is.
    pub fn to_buff(&self, buff: &mut Vec<u32>) -> (r: Result<(), WorldError>)
        ensures
            self@.wf(),
            match r {
                Ok(()) => {
                    &&& old(buff)@.len() == self@.cells.len()
                    &&& final(buff)@ == self@.pixels()
                    &&& forall|x: int, y: int|
                        self@.in_bounds(x, y) ==> final(buff)@[#[trigger] self@.index(x, y)]
                            == pixel_of(self@.alive(x, y))
                },
                Err(e) => e == WorldError::BufferSize && old(buff)@.len() != self@.cells.len()
                    && final(buff)@ == old(buff)@,
            },
    {
        proof {
            use_type_invariant(self);
        }
        if buff.len() != self.state.len() {
            return Err(WorldError::BufferSize);
        }
        let ghost pixels: Seq<u32> = self@.pixels();
        assert(0 * self.w == 0);
        for j in 0..self.h
            invariant
                self@.wf(),
                pixels == self@.pixels(),
                buff@.len() == pixels.len(),
                buff@.take(j * self.w) == pixels.take(j * self.w),
        {
            for i in 0..self.w
                invariant
                    self@.wf(),
                    j < self.h,
                    pixels == self@.pixels(),
                    buff@.len() == pixels.len(),
                    buff@.take(j * self.w + i) == pixels.take(j * self.w + i),
            {
                let mut value: u32 = BLACK;
                if self.cell(i, j) {
                    value = WHITE;
                }
                let k: usize = self.index(i, j);
                buff[k] = value;
            }
            proof {
                assert(j * self.w + self.w == (j + 1) * self.w) by (nonlinear_arith);
            }
        }
        proof {
            let n = pixels.len() as int;
            assert(self.h * self.w == n) by (nonlinear_arith)
                requires
                    n == self.w * self.h,
            ;
            assert(buff@.take(n) == buff@);
            assert(pixels.take(n) == pixels);
            assert forall|x: int, y: int| self@.in_bounds(x, y) implies buff@[#[trigger] self@.index(
                x,
                y,
            )] == pixel_of(self@.alive(x, y)) by {
                lemma_pixel_at(self@, x, y);
            }
        }
        Ok(())
    }
}

} // verus!
