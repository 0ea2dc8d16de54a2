//! The mathematical model of a grid, and the laws of its torus coordinates.

use vstd::prelude::*;
use vstd::arithmetic::div_mod::{
    lemma_fundamental_div_mod, lemma_fundamental_div_mod_converse, lemma_mod_multiples_vanish,
    lemma_small_mod,
};
use vstd::arithmetic::mul::lemma_mul_is_commutative;

verus! {

/// The sum of a coordinate and an offset as `usize` holds it: a sum past
/// `usize::MAX` starts again from zero.
pub open spec fn shift(coordinate: usize, offset: usize) -> int {
    if coordinate + offset > usize::MAX {
        coordinate + offset - (usize::MAX + 1)
    } else {
        coordinate + offset
    }
}

/// What a grid is: its dimensions and its cells, row after row.
pub struct GridModel {
    pub width: int,
    pub height: int,
    pub cells: Seq<bool>,
}

impl GridModel {
    /// Both dimensions are positive and there is one cell per position.
    pub open spec fn wf(self) -> bool {
        &&& self.width > 0
        &&& self.height > 0
        &&& self.cells.len() == self.width * self.height
    }

    /// The place in `cells` that the coordinates `(x, y)` address. Any pair of
    /// integers addresses a cell: both coordinates wrap, by Euclidean modulo.
    pub open spec fn slot(self, x: int, y: int) -> int {
        (y % self.height) * self.width + (x % self.width)
    }

    /// Whether the cell that `(x, y)` addresses is alive.
    pub open spec fn at(self, x: int, y: int) -> bool {
        self.cells[self.slot(x, y)]
    }

    /// The grid with the cell that `(x, y)` addresses set to `value`.
    pub open spec fn put(self, x: int, y: int, value: bool) -> GridModel {
        GridModel { cells: self.cells.update(self.slot(x, y), value), ..self }
    }

    /// The grid of the given dimensions in which every cell is dead.
    pub open spec fn dead(width: int, height: int) -> GridModel {
        GridModel { width, height, cells: Seq::new((width * height) as nat, |i: int| false) }
    }

    /// The grid with its cells, from the first on, replaced by the given
    /// states, as far as there are states and cells.
    pub open spec fn filled(self, states: Seq<bool>) -> GridModel {
        GridModel {
            cells: Seq::new(
                self.cells.len(),
                |i: int|
                    if i < states.len() {
                        states[i]
                    } else {
                        self.cells[i]
                    },
            ),
            ..self
        }
    }

    /// Row `y` of the grid, for `0 <= y < height`.
    pub open spec fn row(self, y: int) -> Seq<bool> {
        self.cells.subrange(y * self.width, (y + 1) * self.width)
    }

    /// Whether `cell` is the cell at place `i` with its coordinates: the column,
    /// the row, and whether it is alive.
    pub open spec fn places(self, i: int, cell: (usize, usize, bool)) -> bool {
        &&& cell.0 == i % self.width
        &&& cell.1 == i / self.width
        &&& cell.2 == self.cells[i]
    }

    /// Whether one of the first `count` coordinates, moved by the offsets,
    /// addresses the cell at place `i`.
    pub open spec fn marks(
        self,
        coords: Seq<(usize, usize)>,
        x_offset: usize,
        y_offset: usize,
        count: int,
        i: int,
    ) -> bool {
        exists|k: int|
            0 <= k < count && self.slot(
                shift((#[trigger] coords[k]).0, x_offset),
                shift(coords[k].1, y_offset),
            ) == i
    }

    /// One more coordinate marks the cell it addresses and no other.
    pub proof fn lemma_marks_step(
        self,
        coords: Seq<(usize, usize)>,
        x_offset: usize,
        y_offset: usize,
        count: int,
        i: int,
    )
        requires
            0 <= count < coords.len(),
        ensures
            self.marks(coords, x_offset, y_offset, count + 1, i) == (self.marks(
                coords,
                x_offset,
                y_offset,
                count,
                i,
            ) || self.slot(shift(coords[count].0, x_offset), shift(coords[count].1, y_offset))
                == i),
    {
        if self.marks(coords, x_offset, y_offset, count + 1, i) {
            let k = choose|k: int|
                0 <= k < count + 1 && self.slot(
                    shift((#[trigger] coords[k]).0, x_offset),
                    shift(coords[k].1, y_offset),
                ) == i;
            if k < count {
                assert(self.marks(coords, x_offset, y_offset, count, i));
            }
        }
        if self.marks(coords, x_offset, y_offset, count, i) {
            let k = choose|k: int|
                0 <= k < count && self.slot(
                    shift((#[trigger] coords[k]).0, x_offset),
                    shift(coords[k].1, y_offset),
                ) == i;
            assert(0 <= k < count + 1);
        }
        if self.slot(shift(coords[count].0, x_offset), shift(coords[count].1, y_offset)) == i {
            assert(0 <= count < count + 1);
        }
    }

    /// Every pair of coordinates addresses a cell of the grid.
    pub proof fn lemma_slot_in_range(self, x: int, y: int)
        requires
            self.wf(),
        ensures
            0 <= self.slot(x, y) < self.cells.len(),
            0 <= x % self.width < self.width,
            0 <= y % self.height < self.height,
    {
        let w = self.width;
        let h = self.height;
        let r = y % h;
        assert(0 <= r * w && r * w + w <= h * w) by (nonlinear_arith)
            requires
                0 <= r < h,
                w > 0,
        ;
        lemma_mul_is_commutative(w, h);
    }

    /// Inside the grid the coordinates of a cell are the remainder and the quotient
    /// of its place by the width.
    pub proof fn lemma_slot_of_place(self, i: int)
        requires
            self.wf(),
            0 <= i < self.cells.len(),
        ensures
            0 <= i % self.width < self.width,
            0 <= i / self.width < self.height,
            self.slot(i % self.width, i / self.width) == i,
    {
        let w = self.width;
        let h = self.height;
        lemma_fundamental_div_mod(i, w);
        let q = i / w;
        assert(0 <= q < h) by (nonlinear_arith)
            requires
                i == w * q + i % w,
                0 <= i % w < w,
                0 <= i < w * h,
                w > 0,
        ;
        lemma_small_mod(q as nat, h as nat);
        lemma_small_mod((i % w) as nat, w as nat);
        lemma_mul_is_commutative(w, q);
    }

    /// Inside the grid `slot` is the row-major position.
    pub proof fn lemma_slot_inside(self, x: int, y: int)
        requires
            self.wf(),
            0 <= x < self.width,
            0 <= y < self.height,
        ensures
            self.slot(x, y) == y * self.width + x,
            (y * self.width + x) % self.width == x,
            (y * self.width + x) / self.width == y,
    {
        lemma_small_mod(x as nat, self.width as nat);
        lemma_small_mod(y as nat, self.height as nat);
        lemma_mul_is_commutative(y, self.width);
        lemma_fundamental_div_mod_converse(y * self.width + x, self.width, y, x);
    }

    /// Wrap-around periodicity: moving by any whole number of widths along a row,
    /// or of heights along a column, arrives at the same cell.
    pub proof fn lemma_periodic(self, x: int, y: int, k: int)
        requires
            self.wf(),
        ensures
            self.slot(x + k * self.width, y) == self.slot(x, y),
            self.slot(x, y + k * self.height) == self.slot(x, y),
            self.at(x + k * self.width, y) == self.at(x, y),
            self.at(x, y + k * self.height) == self.at(x, y),
    {
        lemma_mod_multiples_vanish(k, x, self.width);
        lemma_mod_multiples_vanish(k, y, self.height);
        lemma_mul_is_commutative(k, self.width);
        lemma_mul_is_commutative(k, self.height);
    }

    /// Coordinates that are congruent modulo the dimensions address the same cell.
    pub proof fn lemma_congruent(self, x1: int, y1: int, x2: int, y2: int)
        requires
            self.wf(),
            x1 % self.width == x2 % self.width,
            y1 % self.height == y2 % self.height,
        ensures
            self.slot(x1, y1) == self.slot(x2, y2),
            self.at(x1, y1) == self.at(x2, y2),
    {
    }

    /// Euclidean wrapping of negative coordinates: one step before the first
    /// column and the first row lies the last column of the last row.
    pub proof fn lemma_minus_one_is_last(self)
        requires
            self.wf(),
        ensures
            self.slot(-1, -1) == self.slot(self.width - 1, self.height - 1),
            self.slot(-1, -1) == self.cells.len() - 1,
            self.at(-1, -1) == self.at(self.width - 1, self.height - 1),
    {
        let w = self.width;
        let h = self.height;
        lemma_mod_multiples_vanish(-1, w - 1, w);
        lemma_mod_multiples_vanish(-1, h - 1, h);
        lemma_small_mod((w - 1) as nat, w as nat);
        lemma_small_mod((h - 1) as nat, h as nat);
        assert((h - 1) * w + (w - 1) == w * h - 1) by (nonlinear_arith);
    }

    /// In the all-dead grid every pair of coordinates addresses a dead cell.
    pub proof fn lemma_dead_everywhere(width: int, height: int, x: int, y: int)
        requires
            width > 0,
            height > 0,
        ensures
            Self::dead(width, height).wf(),
            !Self::dead(width, height).at(x, y),
    {
        let m = Self::dead(width, height);
        assert(width * height > 0) by (nonlinear_arith)
            requires
                width > 0,
                height > 0,
        ;
        m.lemma_slot_in_range(x, y);
    }

    /// Setting a cell changes the cell that the coordinates address and no other.
    pub proof fn lemma_put_at(self, x: int, y: int, value: bool, x2: int, y2: int)
        requires
            self.wf(),
        ensures
            self.put(x, y, value).wf(),
            self.put(x, y, value).at(x2, y2) == (if self.slot(x2, y2) == self.slot(x, y) {
                value
            } else {
                self.at(x2, y2)
            }),
    {
        self.lemma_slot_in_range(x, y);
        self.lemma_slot_in_range(x2, y2);
    }
}

} // verus!
