//! Random first generations, drawn from the thread's generator of `rand`.

use rand::rngs::ThreadRng;
use rand::Rng;
use vstd::prelude::*;
use crate::grid::Grid;
use crate::model::GridModel;

verus! {

/// `rand::rngs::ThreadRng`, the handle to the random generator of the
/// current thread. Nothing of its state is visible here.
#[verifier::external_type_specification]
#[verifier::external_body]
pub struct ExThreadRng(ThreadRng);

/// `rand::thread_rng`: the handle to the generator of the current thread,
/// which the system seeds on first use. Nothing is claimed of it. It panics
/// where the system has no entropy to give, which no argument decides.
pub assume_specification[ rand::thread_rng ]() -> (rng: ThreadRng)
;

/// `rand::Rng::gen_ratio`: a draw that is `true` with probability
/// `numerator / denominator`. It panics where the denominator is zero or
/// less than the numerator, so those are left out. Of a draw that chance
/// decides nothing is claimed; as `rand` documents, a draw is `true` where
/// the numerator equals the denominator and `false` where it is zero.
#[verifier::external_body]
fn draw(rng: &mut ThreadRng, numerator: u32, denominator: u32) -> (alive: bool)
    requires
        denominator > 0,
        numerator <= denominator,
    ensures
        numerator == denominator ==> alive,
        numerator == 0 ==> !alive,
{
    rng.gen_ratio(numerator, denominator)
}

impl Grid {
    /// Set every cell's state randomly, row after row.
    /// Each cell is alive with probability `numerator / denominator`,
    /// whatever the others are.
    pub fn randomise(&mut self, numerator: u32, denominator: u32)
        requires
            denominator > 0,
            numerator <= denominator,
        ensures
            final(self)@.width == old(self)@.width,
            final(self)@.height == old(self)@.height,
            final(self)@.cells.len() == old(self)@.cells.len(),
            numerator == 0 ==> final(self)@ == GridModel::dead(
                old(self)@.width,
                old(self)@.height,
            ),
            numerator == denominator ==> forall|i: int|
                0 <= i < final(self)@.cells.len() ==> #[trigger] final(self)@.cells[i],
    {
        proof {
            use_type_invariant(&*self);
        }
        let ghost before = self@;
        let states = draw_states(self.width(), self.height(), numerator, denominator);
        self.fill(states.as_slice());
        proof {
            if numerator == 0 {
                assert(self@.cells =~= GridModel::dead(before.width, before.height).cells);
            }
        }
    }
}

/// One draw for each cell of a grid of the given dimensions, row after row.
fn draw_states(width: usize, height: usize, numerator: u32, denominator: u32) -> (states: Vec<
    bool,
>)
    requires
        denominator > 0,
        numerator <= denominator,
        width * height <= usize::MAX,
    ensures
        states.len() == width * height,
        numerator == 0 ==> forall|i: int| 0 <= i < states.len() ==> !#[trigger] states[i],
        numerator == denominator ==> forall|i: int| 0 <= i < states.len() ==> #[trigger] states[i],
{
    let mut states: Vec<bool> = Vec::new();
    let mut rng = rand::thread_rng();
    let mut y: usize = 0;
    while y < height
        invariant
            0 <= y <= height,
            denominator > 0,
            numerator <= denominator,
            width * height <= usize::MAX,
            states.len() == y * width,
            numerator == 0 ==> forall|i: int| 0 <= i < states.len() ==> !#[trigger] states[i],
            numerator == denominator ==> forall|i: int|
                0 <= i < states.len() ==> #[trigger] states[i],
        decreases height - y,
    {
        let mut x: usize = 0;
        while x < width
            invariant
                0 <= x <= width,
                0 <= y < height,
                denominator > 0,
                numerator <= denominator,
                states.len() == y * width + x,
                numerator == 0 ==> forall|i: int| 0 <= i < states.len() ==> !#[trigger] states[i],
                numerator == denominator ==> forall|i: int|
                    0 <= i < states.len() ==> #[trigger] states[i],
            decreases width - x,
        {
            let alive = draw(&mut rng, numerator, denominator);
            states.push(alive);
            x += 1;
        }
        proof {
            assert(y * width + width == (y + 1) * width) by (nonlinear_arith);
        }
        y += 1;
    }
    proof {
        assert(height * width == width * height) by (nonlinear_arith);
    }
    states
}

} // verus!
