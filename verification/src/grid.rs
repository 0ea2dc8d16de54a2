//! The grid itself: a flat buffer of cells with wrap-around access.

use vstd::prelude::*;
use vstd::slice::slice_subrange;
use crate::model::{shift, GridModel};

verus! {

/// Why a grid cannot be made.
#[derive(Debug, Clone, Copy, PartialEq, Eq, Structural)]
pub enum GridError {
    /// The width or the height is zero.
    InvalidDimensions,
    /// The grid would hold more cells than a buffer can.
    TooLarge,
}

/// A representation of the grid of the Game of Life.
/// Coordinates wrap around the grid edges, effectively making it a torus.
pub struct Grid {
    cells: Vec<bool>,
    width: usize,
    height: usize,
}

impl View for Grid {
    type V = GridModel;

    closed spec fn view(&self) -> GridModel {
        GridModel { width: self.width as int, height: self.height as int, cells: self.cells@ }
    }
}

/// Euclidean modulo: the remainder of `a` by a positive `n`, never negative.
pub fn modulo(a: isize, n: isize) -> (r: usize)
    requires
        n > 0,
    ensures
        r == a as int % n as int,
        r < n,
{
    if a < 0 {
        // -(a + 1) is at least 0 and cannot overflow
        let back: isize = -(a + 1);
        let m: isize = back % n;
        proof {
            lemma_mirror(a as int, n as int);
        }
        (n - 1 - m) as usize
    } else {
        (a % n) as usize
    }
}

/// Below zero the remainders run backwards: `a` and `-(a + 1)` have remainders
/// that add up to `n - 1`.
proof fn lemma_mirror(a: int, n: int)
    requires
        n > 0,
    ensures
        a % n == n - 1 - (-(a + 1)) % n,
{
    let b = -(a + 1);
    let q = b / n;
    let r = b % n;
    vstd::arithmetic::div_mod::lemma_fundamental_div_mod(b, n);
    assert(a == n * (-q - 1) + (n - 1 - r)) by (nonlinear_arith)
        requires
            b == n * q + r,
            b == -(a + 1),
    ;
    vstd::arithmetic::div_mod::lemma_fundamental_div_mod_converse(a, n, -q - 1, n - 1 - r);
}

impl Grid {
    /// What holds of every grid: positive dimensions, one cell per position,
    /// and no more cells than a buffer can hold.
    #[verifier::type_invariant]
    pub open spec fn inv(&self) -> bool {
        &&& self@.wf()
        &&& self@.cells.len() <= isize::MAX
    }

    /// Create a new empty (all dead) grid. Width and height must be positive,
    /// and the cells no more than a buffer can hold.
    pub fn new(width: usize, height: usize) -> (grid: Grid)
        requires
            width > 0,
            height > 0,
            width * height <= isize::MAX,
        ensures
            grid@ == GridModel::dead(width as int, height as int),
            forall|x: int, y: int| !#[trigger] grid@.at(x, y),
    {
        let cells = vec![false; width * height];
        let grid = Grid { cells, width, height };
        proof {
            assert(grid@.cells =~= GridModel::dead(width as int, height as int).cells);
            assert forall|x: int, y: int| !#[trigger] grid@.at(x, y) by {
                GridModel::lemma_dead_everywhere(width as int, height as int, x, y);
            }
        }
        grid
    }

    /// Create a new empty (all dead) grid, or say why there is none.
    pub fn try_new(width: usize, height: usize) -> (made: Result<Grid, GridError>)
        ensures
            (width == 0 || height == 0) <==> made == Err::<Grid, GridError>(
                GridError::InvalidDimensions,
            ),
            (width > 0 && height > 0 && width * height > isize::MAX) <==> made == Err::<
                Grid,
                GridError,
            >(GridError::TooLarge),
            (width > 0 && height > 0 && width * height <= isize::MAX) <==> made is Ok,
            made matches Ok(grid) ==> grid@ == GridModel::dead(width as int, height as int),
    {
        if width == 0 || height == 0 {
            return Err(GridError::InvalidDimensions);
        }
        match width.checked_mul(height) {
            Some(area) if area <= isize::MAX as usize => Ok(Grid::new(width, height)),
            _ => Err(GridError::TooLarge),
        }
    }

    pub fn height(&self) -> (h: usize)
        ensures
            h == self@.height,
    {
        self.height
    }

    pub fn width(&self) -> (w: usize)
        ensures
            w == self@.width,
    {
        self.width
    }

    /// Whether the cell at `(x, y)` is alive; both coordinates wrap.
    pub fn get(&self, x: usize, y: usize) -> (alive: bool)
        ensures
            alive == self@.at(x as int, y as int),
    {
        proof {
            use_type_invariant(self);
            self@.lemma_slot_in_range(x as int, y as int);
        }
        let (x, y) = (x % self.width, y % self.height);
        self.cells[y * self.width + x]
    }

    /// Set the cell at `(x, y)`; both coordinates wrap.
    pub fn set(&mut self, x: usize, y: usize, value: bool)
        ensures
            final(self)@ == old(self)@.put(x as int, y as int, value),
    {
        proof {
            use_type_invariant(&*self);
            self@.lemma_slot_in_range(x as int, y as int);
        }
        let (x, y) = (x % self.width, y % self.height);
        self.cells[y * self.width + x] = value;
    }

    /// Whether the cell at the signed coordinates `(x, y)` is alive; both
    /// coordinates wrap, negative ones too: `(-1, 0)` is the last cell of the
    /// first row.
    pub fn get_signed(&self, x: isize, y: isize) -> (alive: bool)
        ensures
            alive == self@.at(x as int, y as int),
    {
        proof {
            use_type_invariant(self);
            self@.lemma_slot_in_range(x as int, y as int);
            lemma_side_fits(self@.width, self@.height);
        }
        let (x, y) = (modulo(x, self.width as isize), modulo(y, self.height as isize));
        self.cells[y * self.width + x]
    }

    /// Set the cell at the signed coordinates `(x, y)`; both coordinates wrap,
    /// negative ones too.
    pub fn set_signed(&mut self, x: isize, y: isize, value: bool)
        ensures
            final(self)@ == old(self)@.put(x as int, y as int, value),
    {
        proof {
            use_type_invariant(&*self);
            self@.lemma_slot_in_range(x as int, y as int);
            lemma_side_fits(self@.width, self@.height);
        }
        let (x, y) = (modulo(x, self.width as isize), modulo(y, self.height as isize));
        self.cells[y * self.width + x] = value;
    }

    /// Set the cell at each (x, y) coordinate to alive.
    ///
    /// `x_offset` and `y_offset` are added to each x and y. A sum that does not
    /// fit in `usize` wraps, as `wrapping_add` does, before it wraps around the grid.
    pub fn set_cells(&mut self, coords: &[(usize, usize)], x_offset: usize, y_offset: usize)
        ensures
            final(self)@.width == old(self)@.width,
            final(self)@.height == old(self)@.height,
            final(self)@.cells.len() == old(self)@.cells.len(),
            forall|i: int|
                0 <= i < old(self)@.cells.len() ==> #[trigger] final(self)@.cells[i] == (old(
                    self,
                )@.cells[i] || old(self)@.marks(coords@, x_offset, y_offset, coords@.len() as int, i)),
    {
        proof {
            use_type_invariant(&*self);
        }
        let ghost before = self@;
        let mut k: usize = 0;
        while k < coords.len()
            invariant
                0 <= k <= coords.len(),
                self@.width == before.width,
                self@.height == before.height,
                self@.cells.len() == before.cells.len(),
                before.wf(),
                forall|i: int|
                    0 <= i < before.cells.len() ==> #[trigger] self@.cells[i] == (before.cells[i]
                        || before.marks(coords@, x_offset, y_offset, k as int, i)),
            decreases coords.len() - k,
        {
            let (x, y) = coords[k];
            let ghost prev = self@;
            self.set(x.wrapping_add(x_offset), y.wrapping_add(y_offset), true);
            proof {
                let hit = before.slot(shift(x, x_offset), shift(y, y_offset));
                before.lemma_slot_in_range(shift(x, x_offset), shift(y, y_offset));
                assert(prev.slot(shift(x, x_offset), shift(y, y_offset)) == hit);
                assert forall|i: int| 0 <= i < before.cells.len() implies #[trigger] self@.cells[i]
                    == (before.cells[i] || before.marks(
                    coords@,
                    x_offset,
                    y_offset,
                    k as int + 1,
                    i,
                )) by {
                    before.lemma_marks_step(coords@, x_offset, y_offset, k as int, i);
                }
            }
            k += 1;
        }
    }

    /// Overwrite the cells, row after row, with the given states. Where there
    /// are fewer states than cells the cells after them stay as they are;
    /// states past the last cell are not used.
    pub fn fill(&mut self, states: &[bool])
        ensures
            final(self)@ == old(self)@.filled(states@),
    {
        proof {
            use_type_invariant(&*self);
        }
        let ghost before = self@;
        let count = if states.len() <= self.cells.len() {
            states.len()
        } else {
            self.cells.len()
        };
        let mut i: usize = 0;
        while i < count
            invariant
                0 <= i <= count,
                count <= states@.len(),
                count <= self.cells.len(),
                self.inv(),
                self@.width == before.width,
                self@.height == before.height,
                self@.cells.len() == before.cells.len(),
                forall|j: int| 0 <= j < i ==> #[trigger] self@.cells[j] == states@[j],
                forall|j: int|
                    i <= j < before.cells.len() ==> #[trigger] self@.cells[j] == before.cells[j],
            decreases count - i,
        {
            self.cells[i] = states[i];
            i += 1;
        }
        assert(self@.cells =~= before.filled(states@).cells);
    }

    /// The rows of the grid, first to last: `height` slices of `width` cells each.
    pub fn iter_rows(&self) -> (rows: Vec<&[bool]>)
        ensures
            rows.len() == self@.height,
            forall|y: int| 0 <= y < self@.height ==> (#[trigger] rows[y])@ == self@.row(y),
            forall|y: int| 0 <= y < self@.height ==> (#[trigger] rows[y])@.len() == self@.width,
    {
        proof {
            use_type_invariant(self);
        }
        let all = self.cells.as_slice();
        let mut rows: Vec<&[bool]> = Vec::with_capacity(self.height);
        let mut y: usize = 0;
        while y < self.height
            invariant
                0 <= y <= self.height,
                self.inv(),
                all@ == self@.cells,
                rows.len() == y,
                forall|j: int| 0 <= j < y ==> (#[trigger] rows[j])@ == self@.row(j),
                forall|j: int| 0 <= j < y ==> (#[trigger] rows[j])@.len() == self@.width,
            decreases self.height - y,
        {
            proof {
                lemma_row_fits(self@.width, self@.height, y as int);
            }
            rows.push(slice_subrange(all, y * self.width, (y + 1) * self.width));
            y += 1;
        }
        rows
    }

    /// The cells of the grid in row-major order, each as `(x, y, alive)`.
    pub fn iter(&self) -> (cells: Vec<(usize, usize, bool)>)
        ensures
            cells.len() == self@.cells.len(),
            forall|i: int|
                0 <= i < self@.cells.len() ==> self@.places(i, #[trigger] cells[i]),
    {
        proof {
            use_type_invariant(self);
        }
        let mut cells: Vec<(usize, usize, bool)> = Vec::with_capacity(self.cells.len());
        let mut i: usize = 0;
        while i < self.cells.len()
            invariant
                0 <= i <= self.cells.len(),
                self.inv(),
                cells.len() == i,
                forall|j: int| 0 <= j < i ==> self@.places(j, #[trigger] cells[j]),
            decreases self.cells.len() - i,
        {
            cells.push((i % self.width, i / self.width, self.cells[i]));
            i += 1;
        }
        cells
    }
}

/// Row `y` of a grid lies inside its cells.
proof fn lemma_row_fits(w: int, h: int, y: int)
    requires
        w > 0,
        0 <= y < h,
    ensures
        0 <= y * w <= (y + 1) * w <= w * h,
        (y + 1) * w - y * w == w,
{
    assert(0 <= y * w <= (y + 1) * w <= w * h && (y + 1) * w - y * w == w) by (nonlinear_arith)
        requires
            w > 0,
            0 <= y < h,
    ;
}

/// Neither side of a rectangle is longer than its area.
proof fn lemma_side_fits(w: int, h: int)
    requires
        w > 0,
        h > 0,
    ensures
        w <= w * h,
        h <= w * h,
{
    assert(w <= w * h && h <= w * h) by (nonlinear_arith)
        requires
            w > 0,
            h > 0,
    ;
}

} // verus!
