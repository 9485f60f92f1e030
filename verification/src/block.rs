//! The smallest still life: a block of two by two live cells, alone on the
//! grid. Where it lies makes no difference, not even across an edge.

use vstd::prelude::*;
use crate::kernel::{alive, is_still_life, lemma_wrap, live_neighbors, next_cell, next_generation};
use crate::layout::{cell_index, lemma_cell_join, lemma_cell_split, num_cells};

verus! {

/// Whether cell `(x, y)` is one of the four cells of the block whose first
/// cell is `(bx, by)`. The block wraps around the edges as the grid does.
pub open spec fn in_block(n: int, bx: int, by: int, x: int, y: int) -> bool {
    (x - bx) % n < 2 && (y - by) % n < 2
}

/// The grid of `n` cells per side whose only live cells are those of the
/// block at `(bx, by)`.
pub open spec fn block_grid(n: int, bx: int, by: int) -> Seq<u8> {
    Seq::new(
        num_cells(n) as nat,
        |i: int|
            if in_block(n, bx, by, i % n, i / n) {
                1u8
            } else {
                0u8
            },
    )
}

/// Whether the coordinate `d` steps from `c`, wrapped, is one of the two
/// coordinates that a block starting at `b` covers.
spec fn covers(n: int, b: int, c: int, d: int) -> bool {
    (((c + d) % n) - b) % n < 2
}

/// Of the coordinates `c - 1`, `c`, `c + 1`, which ones a block starting at
/// `b` covers depends on how far `c` lies beyond `b` only.
proof fn lemma_covers(n: int, b: int, c: int)
    requires
        n >= 4,
        0 <= b < n,
        0 <= c < n,
    ensures
        covers(n, b, c, 0) == ((c - b) % n < 2),
        covers(n, b, c, 1) == ((c - b) % n == 0 || (c - b) % n == n - 1),
        covers(n, b, c, -1) == ((c - b) % n == 1 || (c - b) % n == 2),
        0 <= (c - b) % n < n,
{
    lemma_wrap(n, c - b);
    lemma_wrap(n, c);
    lemma_wrap(n, c + 1);
    lemma_wrap(n, c - 1);
    lemma_wrap(n, ((c + 0) % n) - b);
    lemma_wrap(n, ((c + 1) % n) - b);
    lemma_wrap(n, ((c + -1) % n) - b);
}

/// A neighbor of a cell is alive in the block grid exactly if the block
/// covers both of its coordinates.
proof fn lemma_block_alive(n: int, bx: int, by: int, x: int, y: int, dx: int, dy: int)
    requires
        n >= 4,
        0 <= x < n,
        0 <= y < n,
        -1 <= dx <= 1,
        -1 <= dy <= 1,
    ensures
        alive(n, block_grid(n, bx, by), x + dx, y + dy) == (covers(n, bx, x, dx) && covers(
            n,
            by,
            y,
            dy,
        )),
{
    lemma_wrap(n, x + dx);
    lemma_wrap(n, y + dy);
    lemma_cell_join(n, (x + dx) % n, (y + dy) % n);
}

/// A block alone on a grid of at least four cells per side is a still life:
/// each of its cells has the three others as its only live neighbors, and no
/// cell outside it has more than two of them.
pub proof fn lemma_block_is_still_life(n: int, bx: int, by: int)
    requires
        n >= 4,
        0 <= bx < n,
        0 <= by < n,
    ensures
        is_still_life(n, block_grid(n, bx, by)),
{
    let grid = block_grid(n, bx, by);
    assert(n * n >= 0) by (nonlinear_arith);
    assert forall|i: int| 0 <= i < num_cells(n) implies next_generation(n, grid)[i] == grid[i] by {
        lemma_cell_split(n, i);
        let x = i % n;
        let y = i / n;
        lemma_covers(n, bx, x);
        lemma_covers(n, by, y);
        lemma_block_alive(n, bx, by, x, y, -1, -1);
        lemma_block_alive(n, bx, by, x, y, 0, -1);
        lemma_block_alive(n, bx, by, x, y, 1, -1);
        lemma_block_alive(n, bx, by, x, y, -1, 0);
        lemma_block_alive(n, bx, by, x, y, 0, 0);
        lemma_block_alive(n, bx, by, x, y, 1, 0);
        lemma_block_alive(n, bx, by, x, y, -1, 1);
        lemma_block_alive(n, bx, by, x, y, 0, 1);
        lemma_block_alive(n, bx, by, x, y, 1, 1);
        assert(grid[i] == 1 <==> ((x - bx) % n < 2 && (y - by) % n < 2));
        assert(alive(n, grid, x, y) == (grid[i] == 1));
        assert(next_cell(n, grid, x, y) == grid[i]);
    }
    assert(next_generation(n, grid) =~= grid);
}

} // verus!
