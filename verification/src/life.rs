//! The generation step: neighbour counting and the rule of birth, survival
//! and death.

use vstd::prelude::*;
use vstd::arithmetic::div_mod::{lemma_add_mod_noop, lemma_mod_twice};
use crate::grid::Grid;
use crate::model::GridModel;

verus! {

impl GridModel {
    /// 1 where the cell that `(x, y)` addresses is alive, 0 where it is dead.
    pub open spec fn live(self, x: int, y: int) -> nat {
        if self.at(x, y) {
            1
        } else {
            0
        }
    }

    /// How many of the eight cells around `(x, y)` are alive. The cell itself
    /// does not count; the cells around an edge lie across the grid.
    pub open spec fn neighbours(self, x: int, y: int) -> nat {
        self.live(x - 1, y - 1) + self.live(x - 1, y) + self.live(x - 1, y + 1) + self.live(
            x,
            y - 1,
        ) + self.live(x, y + 1) + self.live(x + 1, y - 1) + self.live(x + 1, y) + self.live(
            x + 1,
            y + 1,
        )
    }

    /// Whether the cell that `(x, y)` addresses is alive in the next
    /// generation: with two neighbours alive it stays as it is, with three it
    /// is alive, with any other number it is dead.
    pub open spec fn next_cell(self, x: int, y: int) -> bool {
        let around = self.neighbours(x, y);
        if around == 2 {
            self.at(x, y)
        } else {
            around == 3
        }
    }

    /// The next generation: every cell decided from this generation alone.
    pub open spec fn step(self) -> GridModel {
        GridModel {
            cells: Seq::new(
                self.cells.len(),
                |i: int| self.next_cell(i % self.width, i / self.width),
            ),
            ..self
        }
    }

    /// No cell has more than eight neighbours alive.
    pub proof fn lemma_neighbours_bound(self, x: int, y: int)
        ensures
            self.neighbours(x, y) <= 8,
    {
    }

    /// A step keeps the dimensions, and decides the cell at every pair of
    /// coordinates, wrapped or not, by the rule.
    pub proof fn lemma_step_at(self, x: int, y: int)
        requires
            self.wf(),
        ensures
            self.step().wf(),
            self.step().width == self.width,
            self.step().height == self.height,
            self.step().at(x, y) == self.next_cell(x, y),
    {
        self.lemma_slot_in_range(x, y);
        self.lemma_slot_inside(x % self.width, y % self.height);
        self.lemma_next_cell_wraps(x, y);
    }

    /// The neighbours of a cell, and its fate, do not depend on which of its
    /// coordinates names it.
    pub proof fn lemma_next_cell_wraps(self, x: int, y: int)
        requires
            self.wf(),
        ensures
            self.neighbours(x % self.width, y % self.height) == self.neighbours(x, y),
            self.next_cell(x % self.width, y % self.height) == self.next_cell(x, y),
    {
        let w = self.width;
        let h = self.height;
        let cx = x % w;
        let cy = y % h;
        lemma_mod_twice(x, w);
        lemma_mod_twice(y, h);
        lemma_shifted_mod(x, -1, w);
        lemma_shifted_mod(x, 0, w);
        lemma_shifted_mod(x, 1, w);
        lemma_shifted_mod(y, -1, h);
        lemma_shifted_mod(y, 0, h);
        lemma_shifted_mod(y, 1, h);
        self.lemma_congruent(cx - 1, cy - 1, x - 1, y - 1);
        self.lemma_congruent(cx - 1, cy, x - 1, y);
        self.lemma_congruent(cx - 1, cy + 1, x - 1, y + 1);
        self.lemma_congruent(cx, cy - 1, x, y - 1);
        self.lemma_congruent(cx, cy, x, y);
        self.lemma_congruent(cx, cy + 1, x, y + 1);
        self.lemma_congruent(cx + 1, cy - 1, x + 1, y - 1);
        self.lemma_congruent(cx + 1, cy, x + 1, y);
        self.lemma_congruent(cx + 1, cy + 1, x + 1, y + 1);
    }
}

/// A step from a wrapped coordinate ends where the same step from the
/// coordinate itself ends.
proof fn lemma_shifted_mod(a: int, d: int, n: int)
    requires
        n > 0,
    ensures
        (a % n + d) % n == (a + d) % n,
{
    lemma_add_mod_noop(a, d, n);
    lemma_add_mod_noop(a % n, d, n);
    lemma_mod_twice(a, n);
}

/// 1 where the cell at the signed coordinates is alive, 0 where it is dead.
fn live_at(grid: &Grid, x: isize, y: isize) -> (count: usize)
    ensures
        count == grid@.live(x as int, y as int),
{
    if grid.get_signed(x, y) {
        1
    } else {
        0
    }
}

/// Count the number of neighbouring cells that are alive, not including itself.
pub fn alive_neighbours(grid: &Grid, x: usize, y: usize) -> (count: usize)
    ensures
        count == grid@.neighbours(x as int, y as int),
        count <= 8,
{
    proof {
        use_type_invariant(grid);
        grid@.lemma_next_cell_wraps(x as int, y as int);
        grid@.lemma_slot_in_range(x as int, y as int);
        assert(grid@.width <= grid@.cells.len() && grid@.height <= grid@.cells.len())
            by (nonlinear_arith)
            requires
                grid@.wf(),
        ;
    }
    // inside the grid a coordinate fits the signed type, with room for a step
    let cx = (x % grid.width()) as isize;
    let cy = (y % grid.height()) as isize;
    live_at(grid, cx - 1, cy - 1) + live_at(grid, cx - 1, cy) + live_at(grid, cx - 1, cy + 1)
        + live_at(grid, cx, cy - 1) + live_at(grid, cx, cy + 1) + live_at(grid, cx + 1, cy - 1)
        + live_at(grid, cx + 1, cy) + live_at(grid, cx + 1, cy + 1)
}

/// Compute the next generation from `grid` and place the result in `next`,
/// which must have the dimensions of `grid`.
pub fn generation(grid: &Grid, next: &mut Grid)
    requires
        old(next)@.width == grid@.width,
        old(next)@.height == grid@.height,
    ensures
        final(next)@ == grid@.step(),
{
    proof {
        use_type_invariant(grid);
        use_type_invariant(&*next);
    }
    let cells = grid.iter();
    let mut i: usize = 0;
    while i < cells.len()
        invariant
            0 <= i <= cells.len(),
            grid@.wf(),
            cells.len() == grid@.cells.len(),
            forall|j: int| 0 <= j < grid@.cells.len() ==> grid@.places(j, #[trigger] cells[j]),
            next@.width == grid@.width,
            next@.height == grid@.height,
            next@.cells.len() == grid@.cells.len(),
            forall|j: int| 0 <= j < i ==> #[trigger] next@.cells[j] == grid@.step().cells[j],
        decreases cells.len() - i,
    {
        let (x, y, alive) = cells[i];
        proof {
            grid@.lemma_slot_of_place(i as int);
            assert(grid@.places(i as int, cells[i as int]));
            assert(next@.slot(x as int, y as int) == i);
        }
        let fate = match alive_neighbours(grid, x, y) {
            2 => alive,
            3 => true,
            _ => false,
        };
        next.set(x, y, fate);
        i += 1;
    }
    assert(next@.cells =~= grid@.step().cells);
}

} // verus!
