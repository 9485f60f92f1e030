//! The contract of the update kernel: what one generation of the Game of
//! Life is, on a grid whose edges wrap around. The kernel itself runs on the
//! device; the host side is proved against this statement of it.

use vstd::prelude::*;
use vstd::arithmetic::div_mod::lemma_fundamental_div_mod_converse;
use crate::layout::{cell_index, lemma_cell_join, num_cells};

verus! {

/// Whether cell `(x, y)` is alive. The coordinates wrap: the cell left of
/// column 0 is the one in column `n - 1`, and so on in all four directions.
pub open spec fn alive(n: int, grid: Seq<u8>, x: int, y: int) -> bool {
    grid[cell_index(n, x % n, y % n)] == 1
}

/// 1 for a live cell, 0 for a dead one.
pub open spec fn population(n: int, grid: Seq<u8>, x: int, y: int) -> int {
    if alive(n, grid, x, y) {
        1
    } else {
        0
    }
}

/// How many of the eight neighbors of cell `(x, y)` are alive.
pub open spec fn live_neighbors(n: int, grid: Seq<u8>, x: int, y: int) -> int {
    population(n, grid, x - 1, y - 1) + population(n, grid, x, y - 1) + population(
        n,
        grid,
        x + 1,
        y - 1,
    ) + population(n, grid, x - 1, y) + population(n, grid, x + 1, y) + population(
        n,
        grid,
        x - 1,
        y + 1,
    ) + population(n, grid, x, y + 1) + population(n, grid, x + 1, y + 1)
}

/// The rule: a cell with three live neighbors is alive in the next
/// generation, a live cell with two stays alive, every other cell is dead.
pub open spec fn lives_on(is_alive: bool, neighbors: int) -> bool {
    neighbors == 3 || (is_alive && neighbors == 2)
}

/// The state of cell `(x, y)` in the next generation.
pub open spec fn next_cell(n: int, grid: Seq<u8>, x: int, y: int) -> u8 {
    if lives_on(alive(n, grid, x, y), live_neighbors(n, grid, x, y)) {
        1u8
    } else {
        0u8
    }
}

/// The generation that follows `grid`.
pub open spec fn next_generation(n: int, grid: Seq<u8>) -> Seq<u8> {
    Seq::new(num_cells(n) as nat, |i: int| next_cell(n, grid, i % n, i / n))
}

/// The generation that `grid` has become after `steps` generations.
pub open spec fn generation_after(n: int, grid: Seq<u8>, steps: nat) -> Seq<u8>
    decreases steps,
{
    if steps == 0 {
        grid
    } else {
        next_generation(n, generation_after(n, grid, (steps - 1) as nat))
    }
}

/// A grid that the rule leaves as it is.
pub open spec fn is_still_life(n: int, grid: Seq<u8>) -> bool {
    next_generation(n, grid) == grid
}

/// A still life stays as it is for any number of generations.
pub proof fn lemma_still_life_forever(n: int, grid: Seq<u8>, steps: nat)
    requires
        is_still_life(n, grid),
    ensures
        generation_after(n, grid, steps) == grid,
    decreases steps,
{
    if steps > 0 {
        lemma_still_life_forever(n, grid, (steps - 1) as nat);
    }
}

/// A coordinate one step off the grid wraps to the other edge; one on the
/// grid stays.
pub proof fn lemma_wrap(n: int, c: int)
    requires
        n > 0,
        -n <= c < 2 * n,
    ensures
        c % n == if c < 0 {
            c + n
        } else if c >= n {
            c - n
        } else {
            c
        },
{
    if c < 0 {
        lemma_fundamental_div_mod_converse(c, n, -1, c + n);
    } else if c >= n {
        lemma_fundamental_div_mod_converse(c, n, 1, c - n);
    } else {
        lemma_fundamental_div_mod_converse(c, n, 0, c);
    }
}

/// 1 if cell `(x, y)` of `grid` is alive, else 0.
fn population_at(grid_size: u32, grid: &[u8], x: u32, y: u32) -> (count: u8)
    requires
        grid_size * grid_size <= u32::MAX,
        grid@.len() == grid_size * grid_size,
        x < grid_size,
        y < grid_size,
    ensures
        count == population(grid_size as int, grid@, x as int, y as int),
        count <= 1,
{
    proof {
        lemma_cell_join(grid_size as int, x as int, y as int);
        lemma_wrap(grid_size as int, x as int);
        lemma_wrap(grid_size as int, y as int);
    }
    let index: u32 = y * grid_size + x;
    if grid[index as usize] == 1 {
        1
    } else {
        0
    }
}

/// How many of the eight neighbors of cell `(x, y)` of `grid` are alive.
fn live_neighbors_at(grid_size: u32, grid: &[u8], x: u32, y: u32) -> (count: u8)
    requires
        grid_size * grid_size <= u32::MAX,
        grid@.len() == grid_size * grid_size,
        x < grid_size,
        y < grid_size,
    ensures
        count == live_neighbors(grid_size as int, grid@, x as int, y as int),
        count <= 8,
{
    let ghost n: int = grid_size as int;
    let left: u32 = if x == 0 {
        grid_size - 1
    } else {
        x - 1
    };
    let right: u32 = if x == grid_size - 1 {
        0
    } else {
        x + 1
    };
    let up: u32 = if y == 0 {
        grid_size - 1
    } else {
        y - 1
    };
    let down: u32 = if y == grid_size - 1 {
        0
    } else {
        y + 1
    };
    proof {
        lemma_wrap(n, x - 1);
        lemma_wrap(n, x as int);
        lemma_wrap(n, x + 1);
        lemma_wrap(n, y - 1);
        lemma_wrap(n, y as int);
        lemma_wrap(n, y + 1);
        lemma_wrap(n, left as int);
        lemma_wrap(n, right as int);
        lemma_wrap(n, up as int);
        lemma_wrap(n, down as int);
        assert(population(n, grid@, left as int, up as int) == population(n, grid@, x - 1, y - 1));
        assert(population(n, grid@, x as int, up as int) == population(n, grid@, x as int, y - 1));
        assert(population(n, grid@, right as int, up as int) == population(n, grid@, x + 1, y - 1));
        assert(population(n, grid@, left as int, y as int) == population(n, grid@, x - 1, y as int));
        assert(population(n, grid@, right as int, y as int) == population(
            n,
            grid@,
            x + 1,
            y as int,
        ));
        assert(population(n, grid@, left as int, down as int) == population(
            n,
            grid@,
            x - 1,
            y + 1,
        ));
        assert(population(n, grid@, x as int, down as int) == population(n, grid@, x as int, y + 1));
        assert(population(n, grid@, right as int, down as int) == population(
            n,
            grid@,
            x + 1,
            y + 1,
        ));
    }
    let above: u8 = population_at(grid_size, grid, left, up) + population_at(
        grid_size,
        grid,
        x,
        up,
    ) + population_at(grid_size, grid, right, up);
    let beside: u8 = population_at(grid_size, grid, left, y) + population_at(
        grid_size,
        grid,
        right,
        y,
    );
    let below: u8 = population_at(grid_size, grid, left, down) + population_at(
        grid_size,
        grid,
        x,
        down,
    ) + population_at(grid_size, grid, right, down);
    above + beside + below
}

/// The generation that follows `grid`, computed on the host: the kernel's
/// contract in executable form, to hold what a device returns against.
pub fn reference_step(grid_size: u32, grid: &[u8]) -> (next: Vec<u8>)
    requires
        grid_size * grid_size <= u32::MAX,
        grid@.len() == grid_size * grid_size,
    ensures
        next@ == next_generation(grid_size as int, grid@),
{
    let ghost n: int = grid_size as int;
    let mut next: Vec<u8> = Vec::new();
    let mut y: u32 = 0;
    while y < grid_size
        invariant
            n == grid_size,
            n * n <= u32::MAX,
            grid@.len() == n * n,
            y <= grid_size,
            next@.len() == y * n,
            forall|i: int|
                0 <= i < next@.len() ==> #[trigger] next@[i] == next_cell(n, grid@, i % n, i / n),
        decreases grid_size - y,
    {
        let mut x: u32 = 0;
        while x < grid_size
            invariant
                n == grid_size,
                n * n <= u32::MAX,
                grid@.len() == n * n,
                y < grid_size,
                x <= grid_size,
                next@.len() == y * n + x,
                forall|i: int|
                    0 <= i < next@.len() ==> #[trigger] next@[i] == next_cell(
                        n,
                        grid@,
                        i % n,
                        i / n,
                    ),
            decreases grid_size - x,
        {
            let neighbors: u8 = live_neighbors_at(grid_size, grid, x, y);
            let is_alive: bool = population_at(grid_size, grid, x, y) == 1;
            let cell: u8 = if neighbors == 3 || (is_alive && neighbors == 2) {
                1
            } else {
                0
            };
            assert(cell == next_cell(n, grid@, x as int, y as int));
            let ghost before: Seq<u8> = next@;
            next.push(cell);
            proof {
                lemma_cell_join(n, x as int, y as int);
                assert forall|i: int| 0 <= i < next@.len() implies #[trigger] next@[i]
                    == next_cell(n, grid@, i % n, i / n) by {
                    if i < before.len() {
                        assert(next@[i] == before[i]);
                    } else {
                        assert(i == cell_index(n, x as int, y as int));
                    }
                }
            }
            x += 1;
        }
        proof {
            assert(y * n + n == (y + 1) * n) by (nonlinear_arith);
        }
        y += 1;
    }
    proof {
        assert(next@ =~= next_generation(n, grid@));
    }
    next
}

} // verus!
