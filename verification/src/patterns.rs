//! What the rule does to three small patterns, on every grid that has room
//! for them: a cell alone dies, a block of two by two stays, and a blinker
//! turns and comes back.

use vstd::prelude::*;
use vstd::arithmetic::div_mod::{lemma_fundamental_div_mod, lemma_fundamental_div_mod_converse};
use crate::model::GridModel;

verus! {

/// On a ring of at least three places, a place and the two beside it are
/// three different places.
pub proof fn lemma_three_apart(a: int, n: int)
    requires
        n >= 3,
    ensures
        0 <= (a - 1) % n < n,
        0 <= a % n < n,
        0 <= (a + 1) % n < n,
        (a - 1) % n != a % n,
        (a + 1) % n != a % n,
        (a - 1) % n != (a + 1) % n,
        (a + 1) % n == (if a % n == n - 1 {
            0
        } else {
            a % n + 1
        }),
        (a - 1) % n == (if a % n == 0 {
            n - 1
        } else {
            a % n - 1
        }),
{
    let q = a / n;
    let r = a % n;
    lemma_fundamental_div_mod(a, n);
    if r == n - 1 {
        assert(a + 1 == (q + 1) * n + 0) by (nonlinear_arith)
            requires
                a == n * q + r,
                r == n - 1,
        ;
        lemma_fundamental_div_mod_converse(a + 1, n, q + 1, 0);
    } else {
        assert(a + 1 == q * n + (r + 1)) by (nonlinear_arith)
            requires
                a == n * q + r,
        ;
        lemma_fundamental_div_mod_converse(a + 1, n, q, r + 1);
    }
    if r == 0 {
        assert(a - 1 == (q - 1) * n + (n - 1)) by (nonlinear_arith)
            requires
                a == n * q + r,
                r == 0,
        ;
        lemma_fundamental_div_mod_converse(a - 1, n, q - 1, n - 1);
    } else {
        assert(a - 1 == q * n + (r - 1)) by (nonlinear_arith)
            requires
                a == n * q + r,
        ;
        lemma_fundamental_div_mod_converse(a - 1, n, q, r - 1);
    }
}

impl GridModel {
    /// The place of a cell tells its column and its row.
    pub proof fn lemma_slot_decode(self, x: int, y: int)
        requires
            self.wf(),
        ensures
            0 <= self.slot(x, y) < self.cells.len(),
            self.slot(x, y) % self.width == x % self.width,
            self.slot(x, y) / self.width == y % self.height,
    {
        self.lemma_slot_in_range(x, y);
        self.lemma_slot_inside(x % self.width, y % self.height);
    }

    /// Two pairs of coordinates address the same cell exactly when they are
    /// congruent, column by column and row by row.
    pub proof fn lemma_same_cell(self, x1: int, y1: int, x2: int, y2: int)
        requires
            self.wf(),
        ensures
            self.slot(x1, y1) == self.slot(x2, y2) <==> (x1 % self.width == x2 % self.width && y1
                % self.height == y2 % self.height),
    {
        self.lemma_slot_decode(x1, y1);
        self.lemma_slot_decode(x2, y2);
    }

    /// Whether the cell at `(x, y)` is the only one alive.
    pub open spec fn only_cell(self, x: int, y: int) -> bool {
        forall|i: int|
            0 <= i < self.cells.len() ==> (#[trigger] self.cells[i] <==> i == self.slot(x, y))
    }

    /// Whether the cells alive are exactly the four of the block whose first
    /// corner is `(x, y)`.
    pub open spec fn only_block(self, x: int, y: int) -> bool {
        forall|i: int|
            0 <= i < self.cells.len() ==> (#[trigger] self.cells[i] <==> (i == self.slot(x, y)
                || i == self.slot(x + 1, y) || i == self.slot(x, y + 1) || i == self.slot(
                x + 1,
                y + 1,
            )))
    }

    /// A cell alone dies: where one cell is alive on a grid of at least three
    /// by three, the next generation has none.
    pub proof fn lemma_single_cell_dies(self, x: int, y: int)
        requires
            self.wf(),
            self.width >= 3,
            self.height >= 3,
            self.only_cell(x, y),
        ensures
            self.step() == GridModel::dead(self.width, self.height),
    {
        let w = self.width;
        let h = self.height;
        assert forall|i: int| 0 <= i < self.cells.len() implies !#[trigger] self.step().cells[i] by {
            let px = i % w;
            let py = i / w;
            self.lemma_slot_of_place(i);
            self.lemma_window(px, py);
            self.lemma_slot_decode(x, y);
            assert(self.neighbours(px, py) <= 1);
        }
        assert(self.step().cells =~= GridModel::dead(w, h).cells);
    }

    /// A block is a still life: where the cells alive are those of a block of
    /// two by two on a grid of at least three by three, the next generation
    /// is the same grid.
    pub proof fn lemma_block_is_stable(self, x: int, y: int)
        requires
            self.wf(),
            self.width >= 3,
            self.height >= 3,
            self.only_block(x, y),
        ensures
            self.step() == self,
    {
        let w = self.width;
        let h = self.height;
        lemma_three_apart(x, w);
        lemma_three_apart(y, h);
        self.lemma_slot_decode(x, y);
        self.lemma_slot_decode(x + 1, y);
        self.lemma_slot_decode(x, y + 1);
        self.lemma_slot_decode(x + 1, y + 1);
        assert forall|i: int| 0 <= i < self.cells.len() implies #[trigger] self.step().cells[i]
            == self.cells[i] by {
            let px = i % w;
            let py = i / w;
            self.lemma_slot_of_place(i);
            self.lemma_window(px, py);
            self.lemma_block_count(x, y, px, py);
        }
        assert(self.step().cells =~= self.cells);
    }

    /// Whether the cells alive are exactly the three in row `y` at and beside
    /// column `x`: a blinker lying flat.
    pub open spec fn only_flat_blinker(self, x: int, y: int) -> bool {
        forall|i: int|
            0 <= i < self.cells.len() ==> (#[trigger] self.cells[i] <==> (i == self.slot(x - 1, y)
                || i == self.slot(x, y) || i == self.slot(x + 1, y)))
    }

    /// Whether the cells alive are exactly the three in column `x` at, above
    /// and below row `y`: a blinker standing upright.
    pub open spec fn only_upright_blinker(self, x: int, y: int) -> bool {
        forall|i: int|
            0 <= i < self.cells.len() ==> (#[trigger] self.cells[i] <==> (i == self.slot(x, y - 1)
                || i == self.slot(x, y) || i == self.slot(x, y + 1)))
    }

    /// A blinker that lies flat stands upright in the next generation, about
    /// the same centre, on a grid at least four wide and three high.
    pub proof fn lemma_flat_blinker_stands_up(self, x: int, y: int)
        requires
            self.wf(),
            self.width >= 4,
            self.height >= 3,
            self.only_flat_blinker(x, y),
        ensures
            self.step().wf(),
            self.step().only_upright_blinker(x, y),
    {
        let w = self.width;
        let h = self.height;
        let next = self.step();
        lemma_three_apart(x, w);
        lemma_three_apart(y, h);
        self.lemma_slot_decode(x, y - 1);
        self.lemma_slot_decode(x, y);
        self.lemma_slot_decode(x, y + 1);
        assert forall|i: int| 0 <= i < next.cells.len() implies (#[trigger] next.cells[i] <==> (i
            == next.slot(x, y - 1) || i == next.slot(x, y) || i == next.slot(x, y + 1))) by {
            let px = i % w;
            let py = i / w;
            self.lemma_slot_of_place(i);
            self.lemma_window(px, py);
            self.lemma_flat_count(x, y, px, py);
            self.lemma_same_cell(px, py, x, y - 1);
            self.lemma_same_cell(px, py, x, y);
            self.lemma_same_cell(px, py, x, y + 1);
        }
    }

    /// A blinker that stands upright lies flat in the next generation, about
    /// the same centre, on a grid at least three wide and four high.
    pub proof fn lemma_upright_blinker_lies_down(self, x: int, y: int)
        requires
            self.wf(),
            self.width >= 3,
            self.height >= 4,
            self.only_upright_blinker(x, y),
        ensures
            self.step().wf(),
            self.step().only_flat_blinker(x, y),
    {
        let w = self.width;
        let h = self.height;
        let next = self.step();
        lemma_three_apart(x, w);
        lemma_three_apart(y, h);
        self.lemma_slot_decode(x - 1, y);
        self.lemma_slot_decode(x, y);
        self.lemma_slot_decode(x + 1, y);
        assert forall|i: int| 0 <= i < next.cells.len() implies (#[trigger] next.cells[i] <==> (i
            == next.slot(x - 1, y) || i == next.slot(x, y) || i == next.slot(x + 1, y))) by {
            let px = i % w;
            let py = i / w;
            self.lemma_slot_of_place(i);
            self.lemma_window(px, py);
            self.lemma_upright_count(x, y, px, py);
            self.lemma_same_cell(px, py, x - 1, y);
            self.lemma_same_cell(px, py, x, y);
            self.lemma_same_cell(px, py, x + 1, y);
        }
    }

    /// A blinker has period two: on a grid of at least four by four, two
    /// generations after a blinker lies flat the grid is what it was.
    pub proof fn lemma_blinker_comes_back(self, x: int, y: int)
        requires
            self.wf(),
            self.width >= 4,
            self.height >= 4,
            self.only_flat_blinker(x, y),
        ensures
            self.step().only_upright_blinker(x, y),
            self.step().step() == self,
    {
        self.lemma_flat_blinker_stands_up(x, y);
        self.step().lemma_upright_blinker_lies_down(x, y);
        assert(self.step().step().cells =~= self.cells);
    }

    /// Around each cell of a grid that holds a flat blinker: which cells the
    /// rule keeps or makes alive.
    proof fn lemma_flat_count(self, x: int, y: int, px: int, py: int)
        requires
            self.wf(),
            self.width >= 4,
            self.height >= 3,
            self.only_flat_blinker(x, y),
        ensures
            self.next_cell(px, py) <==> (px % self.width == x % self.width && (py % self.height
                == (y - 1) % self.height || py % self.height == y % self.height || py
                % self.height == (y + 1) % self.height)),
    {
        let w = self.width;
        let h = self.height;
        lemma_three_apart(x, w);
        lemma_three_apart(y, h);
        lemma_three_apart(px, w);
        lemma_three_apart(py, h);
        self.lemma_in_flat(x, y, px - 1, py - 1);
        self.lemma_in_flat(x, y, px - 1, py);
        self.lemma_in_flat(x, y, px - 1, py + 1);
        self.lemma_in_flat(x, y, px, py - 1);
        self.lemma_in_flat(x, y, px, py);
        self.lemma_in_flat(x, y, px, py + 1);
        self.lemma_in_flat(x, y, px + 1, py - 1);
        self.lemma_in_flat(x, y, px + 1, py);
        self.lemma_in_flat(x, y, px + 1, py + 1);
        let xa = (x - 1) % w;
        let xb = x % w;
        let xc = (x + 1) % w;
        let yb = y % h;
        // which of the three columns are the blinker's, and which row is
        let cl: int = if (px - 1) % w == xa || (px - 1) % w == xb || (px - 1) % w == xc { 1 } else { 0 };
        let cm: int = if px % w == xa || px % w == xb || px % w == xc { 1 } else { 0 };
        let cr: int = if (px + 1) % w == xa || (px + 1) % w == xb || (px + 1) % w == xc { 1 } else { 0 };
        let ru: int = if (py - 1) % h == yb { 1 } else { 0 };
        let rm: int = if py % h == yb { 1 } else { 0 };
        let rd: int = if (py + 1) % h == yb { 1 } else { 0 };
        assert(ru + rm + rd <= 1);
        assert(px % w == xb ==> cl + cm + cr == 3);
        assert(px % w != xb ==> cl + cm + cr <= 2);
        assert((px % w == xa || px % w == xc) ==> cl + cr == 1);
        assert(self.live(px - 1, py - 1) == cl * ru);
        assert(self.live(px - 1, py) == cl * rm);
        assert(self.live(px - 1, py + 1) == cl * rd);
        assert(self.live(px, py - 1) == cm * ru);
        assert(self.live(px, py) == cm * rm);
        assert(self.live(px, py + 1) == cm * rd);
        assert(self.live(px + 1, py - 1) == cr * ru);
        assert(self.live(px + 1, py) == cr * rm);
        assert(self.live(px + 1, py + 1) == cr * rd);
    }

    /// Around each cell of a grid that holds an upright blinker: which cells
    /// the rule keeps or makes alive.
    proof fn lemma_upright_count(self, x: int, y: int, px: int, py: int)
        requires
            self.wf(),
            self.width >= 3,
            self.height >= 4,
            self.only_upright_blinker(x, y),
        ensures
            self.next_cell(px, py) <==> (py % self.height == y % self.height && (px % self.width
                == (x - 1) % self.width || px % self.width == x % self.width || px % self.width
                == (x + 1) % self.width)),
    {
        let w = self.width;
        let h = self.height;
        lemma_three_apart(x, w);
        lemma_three_apart(y, h);
        lemma_three_apart(px, w);
        lemma_three_apart(py, h);
        self.lemma_in_upright(x, y, px - 1, py - 1);
        self.lemma_in_upright(x, y, px - 1, py);
        self.lemma_in_upright(x, y, px - 1, py + 1);
        self.lemma_in_upright(x, y, px, py - 1);
        self.lemma_in_upright(x, y, px, py);
        self.lemma_in_upright(x, y, px, py + 1);
        self.lemma_in_upright(x, y, px + 1, py - 1);
        self.lemma_in_upright(x, y, px + 1, py);
        self.lemma_in_upright(x, y, px + 1, py + 1);
        let ya = (y - 1) % h;
        let yb = y % h;
        let yc = (y + 1) % h;
        let xb = x % w;
        // which of the three rows are the blinker's, and which column is
        let ru: int = if (py - 1) % h == ya || (py - 1) % h == yb || (py - 1) % h == yc { 1 } else { 0 };
        let rm: int = if py % h == ya || py % h == yb || py % h == yc { 1 } else { 0 };
        let rd: int = if (py + 1) % h == ya || (py + 1) % h == yb || (py + 1) % h == yc { 1 } else { 0 };
        let cl: int = if (px - 1) % w == xb { 1 } else { 0 };
        let cm: int = if px % w == xb { 1 } else { 0 };
        let cr: int = if (px + 1) % w == xb { 1 } else { 0 };
        assert(cl + cm + cr <= 1);
        assert(py % h == yb ==> ru + rm + rd == 3);
        assert(py % h != yb ==> ru + rm + rd <= 2);
        assert((py % h == ya || py % h == yc) ==> ru + rd == 1);
        assert(self.live(px - 1, py - 1) == cl * ru);
        assert(self.live(px - 1, py) == cl * rm);
        assert(self.live(px - 1, py + 1) == cl * rd);
        assert(self.live(px, py - 1) == cm * ru);
        assert(self.live(px, py) == cm * rm);
        assert(self.live(px, py + 1) == cm * rd);
        assert(self.live(px + 1, py - 1) == cr * ru);
        assert(self.live(px + 1, py) == cr * rm);
        assert(self.live(px + 1, py + 1) == cr * rd);
    }

    /// Where a flat blinker is all that is alive, a cell is alive exactly when
    /// its row is the blinker's and its column one of the blinker's three.
    proof fn lemma_in_flat(self, x: int, y: int, a: int, b: int)
        requires
            self.wf(),
            self.only_flat_blinker(x, y),
        ensures
            self.at(a, b) <==> (b % self.height == y % self.height && (a % self.width == (x - 1)
                % self.width || a % self.width == x % self.width || a % self.width == (x + 1)
                % self.width)),
    {
        self.lemma_slot_in_range(a, b);
        self.lemma_same_cell(a, b, x - 1, y);
        self.lemma_same_cell(a, b, x, y);
        self.lemma_same_cell(a, b, x + 1, y);
    }

    /// Where an upright blinker is all that is alive, a cell is alive exactly
    /// when its column is the blinker's and its row one of the blinker's three.
    proof fn lemma_in_upright(self, x: int, y: int, a: int, b: int)
        requires
            self.wf(),
            self.only_upright_blinker(x, y),
        ensures
            self.at(a, b) <==> (a % self.width == x % self.width && (b % self.height == (y - 1)
                % self.height || b % self.height == y % self.height || b % self.height == (y
                + 1) % self.height)),
    {
        self.lemma_slot_in_range(a, b);
        self.lemma_same_cell(a, b, x, y - 1);
        self.lemma_same_cell(a, b, x, y);
        self.lemma_same_cell(a, b, x, y + 1);
    }

    /// The nine cells at and around `(x, y)` each have their own place, which
    /// tells the column and the row.
    proof fn lemma_window(self, x: int, y: int)
        requires
            self.wf(),
            self.width >= 3,
            self.height >= 3,
        ensures
            self.in_window(x, y, x - 1, y - 1),
            self.in_window(x, y, x - 1, y),
            self.in_window(x, y, x - 1, y + 1),
            self.in_window(x, y, x, y - 1),
            self.in_window(x, y, x, y),
            self.in_window(x, y, x, y + 1),
            self.in_window(x, y, x + 1, y - 1),
            self.in_window(x, y, x + 1, y),
            self.in_window(x, y, x + 1, y + 1),
            (x - 1) % self.width != x % self.width,
            (x + 1) % self.width != x % self.width,
            (x - 1) % self.width != (x + 1) % self.width,
            (y - 1) % self.height != y % self.height,
            (y + 1) % self.height != y % self.height,
            (y - 1) % self.height != (y + 1) % self.height,
    {
        lemma_three_apart(x, self.width);
        lemma_three_apart(y, self.height);
        self.lemma_slot_decode(x - 1, y - 1);
        self.lemma_slot_decode(x - 1, y);
        self.lemma_slot_decode(x - 1, y + 1);
        self.lemma_slot_decode(x, y - 1);
        self.lemma_slot_decode(x, y);
        self.lemma_slot_decode(x, y + 1);
        self.lemma_slot_decode(x + 1, y - 1);
        self.lemma_slot_decode(x + 1, y);
        self.lemma_slot_decode(x + 1, y + 1);
    }

    /// What `lemma_window` says of one of the nine cells.
    spec fn in_window(self, x: int, y: int, a: int, b: int) -> bool {
        &&& 0 <= self.slot(a, b) < self.cells.len()
        &&& self.slot(a, b) % self.width == a % self.width
        &&& self.slot(a, b) / self.width == b % self.height
    }

    /// Around a cell of the block three cells are alive; around any other
    /// cell none, one, two or four are.
    proof fn lemma_block_count(self, x: int, y: int, px: int, py: int)
        requires
            self.wf(),
            self.width >= 3,
            self.height >= 3,
            self.only_block(x, y),
        ensures
            self.at(px, py) ==> self.neighbours(px, py) == 3,
            !self.at(px, py) ==> self.neighbours(px, py) != 3,
    {
        let w = self.width;
        let h = self.height;
        lemma_three_apart(x, w);
        lemma_three_apart(y, h);
        lemma_three_apart(px, w);
        lemma_three_apart(py, h);
        self.lemma_in_block(x, y, px - 1, py - 1);
        self.lemma_in_block(x, y, px - 1, py);
        self.lemma_in_block(x, y, px - 1, py + 1);
        self.lemma_in_block(x, y, px, py - 1);
        self.lemma_in_block(x, y, px, py);
        self.lemma_in_block(x, y, px, py + 1);
        self.lemma_in_block(x, y, px + 1, py - 1);
        self.lemma_in_block(x, y, px + 1, py);
        self.lemma_in_block(x, y, px + 1, py + 1);
        let xa = x % w;
        let xb = (x + 1) % w;
        let ya = y % h;
        let yb = (y + 1) % h;
        // how many of the three columns, and of the three rows, are the block's
        let cl: int = if (px - 1) % w == xa || (px - 1) % w == xb { 1 } else { 0 };
        let cm: int = if px % w == xa || px % w == xb { 1 } else { 0 };
        let cr: int = if (px + 1) % w == xa || (px + 1) % w == xb { 1 } else { 0 };
        let ru: int = if (py - 1) % h == ya || (py - 1) % h == yb { 1 } else { 0 };
        let rm: int = if py % h == ya || py % h == yb { 1 } else { 0 };
        let rd: int = if (py + 1) % h == ya || (py + 1) % h == yb { 1 } else { 0 };
        assert(cl + cm + cr <= 2);
        assert(ru + rm + rd <= 2);
        assert(cm == 1 ==> cl + cr == 1);
        assert(rm == 1 ==> ru + rd == 1);
        assert(self.live(px - 1, py - 1) == cl * ru);
        assert(self.live(px - 1, py) == cl * rm);
        assert(self.live(px - 1, py + 1) == cl * rd);
        assert(self.live(px, py - 1) == cm * ru);
        assert(self.live(px, py) == cm * rm);
        assert(self.live(px, py + 1) == cm * rd);
        assert(self.live(px + 1, py - 1) == cr * ru);
        assert(self.live(px + 1, py) == cr * rm);
        assert(self.live(px + 1, py + 1) == cr * rd);
    }

    /// Where the block is all that is alive, a cell is alive exactly when its
    /// column is one of the block's two and its row is one of the block's two.
    proof fn lemma_in_block(self, x: int, y: int, a: int, b: int)
        requires
            self.wf(),
            self.only_block(x, y),
        ensures
            self.at(a, b) <==> ((a % self.width == x % self.width || a % self.width == (x + 1)
                % self.width) && (b % self.height == y % self.height || b % self.height == (y
                + 1) % self.height)),
    {
        self.lemma_slot_in_range(a, b);
        self.lemma_same_cell(a, b, x, y);
        self.lemma_same_cell(a, b, x + 1, y);
        self.lemma_same_cell(a, b, x, y + 1);
        self.lemma_same_cell(a, b, x + 1, y + 1);
    }
}

} // verus!
