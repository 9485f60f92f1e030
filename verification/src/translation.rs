//! Moving a pattern around the grid: the rule looks the same from every
//! cell, so a pattern that is moved, edges wrapping, evolves as it did
//! where it was.

use vstd::prelude::*;
use vstd::arithmetic::div_mod::{
    lemma_fundamental_div_mod, lemma_mod_bound, lemma_mod_multiples_vanish,
};
use crate::kernel::{alive, generation_after, live_neighbors, next_cell, next_generation};
use crate::layout::{cell_index, lemma_cell_join, lemma_cell_split, num_cells};

verus! {

/// The grid `grid` moved by `dx` columns to the right and `dy` rows down,
/// around the edges: cell `(x, y)` of the result is cell `(x - dx, y - dy)`
/// of `grid`.
pub open spec fn shifted(n: int, grid: Seq<u8>, dx: int, dy: int) -> Seq<u8> {
    Seq::new(
        num_cells(n) as nat,
        |i: int| grid[cell_index(n, (i % n - dx) % n, (i / n - dy) % n)],
    )
}

/// Wrapping a coordinate before a step is taken from it changes nothing.
proof fn lemma_mod_shift(n: int, a: int, d: int)
    requires
        n > 0,
    ensures
        ((a % n) + d) % n == (a + d) % n,
        0 <= a % n < n,
{
    lemma_fundamental_div_mod(a, n);
    lemma_mod_multiples_vanish(a / n, (a % n) + d, n);
    lemma_mod_bound(a, n);
}

/// A cell of the moved grid is alive exactly if the cell it came from is.
proof fn lemma_alive_shifted(n: int, grid: Seq<u8>, dx: int, dy: int, a: int, b: int)
    requires
        n > 0,
    ensures
        alive(n, shifted(n, grid, dx, dy), a, b) == alive(n, grid, a - dx, b - dy),
{
    lemma_mod_shift(n, a, -dx);
    lemma_mod_shift(n, b, -dy);
    lemma_cell_join(n, a % n, b % n);
}

/// The next state of a cell of the moved grid is that of the cell it came
/// from.
proof fn lemma_next_cell_shifted(n: int, grid: Seq<u8>, dx: int, dy: int, x: int, y: int)
    requires
        n > 0,
    ensures
        next_cell(n, shifted(n, grid, dx, dy), x, y) == next_cell(n, grid, x - dx, y - dy),
{
    let moved = shifted(n, grid, dx, dy);
    lemma_alive_shifted(n, grid, dx, dy, x - 1, y - 1);
    lemma_alive_shifted(n, grid, dx, dy, x, y - 1);
    lemma_alive_shifted(n, grid, dx, dy, x + 1, y - 1);
    lemma_alive_shifted(n, grid, dx, dy, x - 1, y);
    lemma_alive_shifted(n, grid, dx, dy, x, y);
    lemma_alive_shifted(n, grid, dx, dy, x + 1, y);
    lemma_alive_shifted(n, grid, dx, dy, x - 1, y + 1);
    lemma_alive_shifted(n, grid, dx, dy, x, y + 1);
    lemma_alive_shifted(n, grid, dx, dy, x + 1, y + 1);
    assert(live_neighbors(n, moved, x, y) == live_neighbors(n, grid, x - dx, y - dy));
}

/// The next state of a cell is the same at coordinates that wrap to the
/// same cell.
proof fn lemma_next_cell_wraps(n: int, grid: Seq<u8>, x: int, y: int)
    requires
        n > 0,
    ensures
        next_cell(n, grid, x % n, y % n) == next_cell(n, grid, x, y),
{
    lemma_mod_shift(n, x, -1);
    lemma_mod_shift(n, x, 0);
    lemma_mod_shift(n, x, 1);
    lemma_mod_shift(n, y, -1);
    lemma_mod_shift(n, y, 0);
    lemma_mod_shift(n, y, 1);
    assert(live_neighbors(n, grid, x % n, y % n) == live_neighbors(n, grid, x, y));
}

/// Moving a grid and then taking a step gives the same as taking the step
/// and then moving the result: where on the grid a pattern lies, and whether
/// it lies across an edge, makes no difference to how it evolves.
pub proof fn lemma_step_commutes_with_shift(n: int, grid: Seq<u8>, dx: int, dy: int)
    requires
        n > 0,
    ensures
        next_generation(n, shifted(n, grid, dx, dy)) == shifted(
            n,
            next_generation(n, grid),
            dx,
            dy,
        ),
{
    let moved = shifted(n, grid, dx, dy);
    let next = next_generation(n, grid);
    assert(n * n >= 0) by (nonlinear_arith);
    assert forall|i: int| 0 <= i < num_cells(n) implies next_generation(n, moved)[i] == shifted(
        n,
        next,
        dx,
        dy,
    )[i] by {
        lemma_cell_split(n, i);
        let x = i % n;
        let y = i / n;
        lemma_next_cell_shifted(n, grid, dx, dy, x, y);
        lemma_mod_bound(x - dx, n);
        lemma_mod_bound(y - dy, n);
        lemma_cell_join(n, (x - dx) % n, (y - dy) % n);
        lemma_next_cell_wraps(n, grid, x - dx, y - dy);
    }
    assert(next_generation(n, moved) =~= shifted(n, next, dx, dy));
}

/// Over any number of steps a moved grid evolves as the grid itself does,
/// moved.
pub proof fn lemma_generations_commute_with_shift(
    n: int,
    grid: Seq<u8>,
    dx: int,
    dy: int,
    steps: nat,
)
    requires
        n > 0,
    ensures
        generation_after(n, shifted(n, grid, dx, dy), steps) == shifted(
            n,
            generation_after(n, grid, steps),
            dx,
            dy,
        ),
    decreases steps,
{
    if steps > 0 {
        let before = (steps - 1) as nat;
        lemma_generations_commute_with_shift(n, grid, dx, dy, before);
        lemma_step_commutes_with_shift(n, generation_after(n, grid, before), dx, dy);
    }
}

} // verus!
