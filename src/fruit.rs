use crate::grid::{Cell, Grid};
use crate::occupancy::Occupancy;
use vstd::prelude::*;

verus! {

/// How many uniform draws over the whole board are tried before the free
/// cells are listed and one of them is drawn.
pub const RANDOM_DRAWS: usize = 64;

/// Relies on macroquad::rand::gen_range (quad-rand's generator): with a lower
/// bound of zero the value drawn lies below the upper bound.
#[verifier::external_body]
pub(crate) fn random_below(high: usize) -> (r: usize)
    requires
        0 < high,
    ensures
        r < high,
{
    macroquad::rand::gen_range(0, high)
}

/// A cell of the board that `occupied` does not hold, drawn uniformly among
/// those cells.
///
/// Draws a cell over the whole board until one is free (rejection sampling);
/// after `RANDOM_DRAWS` misses it draws one of the listed free cells instead,
/// which keeps the choice uniform and bounds the work.
pub fn random_location(grid: &Grid, occupied: &Occupancy) -> (r: Cell)
    requires
        occupied.wf(),
        occupied.grid() == *grid,
        occupied@.len() < grid.cell_count(),
    ensures
        grid.contains(r),
        !occupied@.contains(r),
{
    proof {
        occupied.lemma_wf();
    }
    let mut draws: usize = 0;
    while draws < RANDOM_DRAWS
        invariant
            occupied.wf(),
            occupied.grid() == *grid,
            grid.valid(),
        decreases RANDOM_DRAWS - draws,
    {
        let c = Cell { row: random_below(grid.height), col: random_below(grid.width) };
        if !occupied.contains(c) {
            return c;
        }
        draws = draws + 1;
    }
    let free = occupied.free_cells();
    proof {
        let c = choose|c: Cell| grid.contains(c) && !occupied@.contains(c);
        assert(free@.contains(c));
    }
    let i = random_below(free.len());
    free[i]
}

} // verus!
