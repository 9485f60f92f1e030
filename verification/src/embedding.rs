//! A small grid set into a large one: as long as the pattern keeps clear of
//! the border of the small grid, it evolves in the large grid as it does in
//! the small one, and the wrapping of either grid plays no part.

use vstd::prelude::*;
use crate::kernel::{
    alive, generation_after, live_neighbors, lemma_wrap, next_cell, next_generation,
};
use crate::layout::{cell_index, lemma_cell_join, lemma_cell_split, num_cells};
use crate::pattern::placed_cell;

verus! {

/// Whether cell `(x, y)` of the large grid lies in the window of `m` by `m`
/// cells whose first cell is `(ox, oy)`.
pub open spec fn in_window(m: int, ox: int, oy: int, x: int, y: int) -> bool {
    ox <= x < ox + m && oy <= y < oy + m
}

/// The grid of `n` cells per side that holds the grid `small` of `m` cells
/// per side in the window at `(ox, oy)` and dead cells around it.
pub open spec fn embedded(m: int, n: int, small: Seq<u8>, ox: int, oy: int) -> Seq<u8> {
    Seq::new(
        num_cells(n) as nat,
        |i: int|
            if in_window(m, ox, oy, i % n, i / n) {
                small[cell_index(m, i % n - ox, i / n - oy)]
            } else {
                0u8
            },
    )
}

/// The first and last row and the first and last column of `small` are dead.
pub open spec fn border_is_dead(m: int, small: Seq<u8>) -> bool {
    forall|x: int, y: int|
        0 <= x < m && 0 <= y < m && (x == 0 || x == m - 1 || y == 0 || y == m - 1) ==> small[#[trigger] cell_index(
            m,
            x,
            y,
        )] != 1
}

/// Where the window fits into the large grid with at least one column and
/// one row to spare.
pub open spec fn window_fits(m: int, n: int, ox: int, oy: int) -> bool {
    &&& 0 < m < n
    &&& 0 <= ox <= n - m
    &&& 0 <= oy <= n - m
}

/// A cell of the large grid is alive exactly if it lies in the window and
/// the cell of the small grid that it stands for is alive.
proof fn lemma_alive_in_large(m: int, n: int, small: Seq<u8>, ox: int, oy: int, x: int, y: int)
    requires
        window_fits(m, n, ox, oy),
        0 <= x < n,
        0 <= y < n,
    ensures
        alive(n, embedded(m, n, small, ox, oy), x, y) == (in_window(m, ox, oy, x, y) && small[cell_index(
            m,
            x - ox,
            y - oy,
        )] == 1),
{
    lemma_wrap(n, x);
    lemma_wrap(n, y);
    lemma_cell_join(n, x, y);
}

/// Seen from a cell of the window, a neighbor is alive in the large grid
/// exactly if it is alive in the small one: inside the window they are the
/// same cell, and beyond its edge both are dead, the one because nothing
/// lives outside the window and the other because it wraps to the border.
proof fn lemma_neighbor_in_window(
    m: int,
    n: int,
    small: Seq<u8>,
    ox: int,
    oy: int,
    x: int,
    y: int,
    dx: int,
    dy: int,
)
    requires
        window_fits(m, n, ox, oy),
        border_is_dead(m, small),
        0 <= x < m,
        0 <= y < m,
        -1 <= dx <= 1,
        -1 <= dy <= 1,
    ensures
        alive(n, embedded(m, n, small, ox, oy), ox + x + dx, oy + y + dy) == alive(
            m,
            small,
            x + dx,
            y + dy,
        ),
{
    lemma_wrap(n, ox + x + dx);
    lemma_wrap(n, oy + y + dy);
    lemma_wrap(m, x + dx);
    lemma_wrap(m, y + dy);
    let large_x = (ox + x + dx) % n;
    let large_y = (oy + y + dy) % n;
    let small_x = (x + dx) % m;
    let small_y = (y + dy) % m;
    lemma_alive_in_large(m, n, small, ox, oy, large_x, large_y);
    lemma_wrap(n, large_x);
    lemma_wrap(n, large_y);
    if 0 <= x + dx < m && 0 <= y + dy < m {
        assert(large_x == ox + x + dx);
        assert(large_y == oy + y + dy);
    } else {
        assert(small_x == 0 || small_x == m - 1 || small_y == 0 || small_y == m - 1);
        assert(small[cell_index(m, small_x, small_y)] != 1);
        assert(!in_window(m, ox, oy, large_x, large_y));
    }
}

/// Seen from a cell outside the window, no neighbor is alive: a live cell
/// of the window lies off its border, so all its neighbors lie in the
/// window.
proof fn lemma_neighbor_outside_window(
    m: int,
    n: int,
    small: Seq<u8>,
    ox: int,
    oy: int,
    x: int,
    y: int,
    dx: int,
    dy: int,
)
    requires
        window_fits(m, n, ox, oy),
        border_is_dead(m, small),
        0 <= x < n,
        0 <= y < n,
        !in_window(m, ox, oy, x, y),
        -1 <= dx <= 1,
        -1 <= dy <= 1,
    ensures
        !alive(n, embedded(m, n, small, ox, oy), x + dx, y + dy),
{
    lemma_wrap(n, x + dx);
    lemma_wrap(n, y + dy);
    let large_x = (x + dx) % n;
    let large_y = (y + dy) % n;
    lemma_alive_in_large(m, n, small, ox, oy, large_x, large_y);
    lemma_wrap(n, large_x);
    lemma_wrap(n, large_y);
    if in_window(m, ox, oy, large_x, large_y) {
        let small_x = large_x - ox;
        let small_y = large_y - oy;
        if small_x == 0 || small_x == m - 1 || small_y == 0 || small_y == m - 1 {
            assert(small[cell_index(m, small_x, small_y)] != 1);
        } else {
            assert(ox <= x < ox + m);
            assert(oy <= y < oy + m);
        }
    }
}

/// Setting a grid into a larger one and then taking a step gives the same
/// as taking the step in the small grid and setting the result into the
/// larger one, if the border of the small grid is dead: the same pattern
/// evolves alike at either scale.
pub proof fn lemma_step_commutes_with_embedding(
    m: int,
    n: int,
    small: Seq<u8>,
    ox: int,
    oy: int,
)
    requires
        window_fits(m, n, ox, oy),
        small.len() == num_cells(m),
        border_is_dead(m, small),
    ensures
        next_generation(n, embedded(m, n, small, ox, oy)) == embedded(
            m,
            n,
            next_generation(m, small),
            ox,
            oy,
        ),
{
    let large = embedded(m, n, small, ox, oy);
    let next_small = next_generation(m, small);
    assert(n * n >= 0) by (nonlinear_arith);
    assert(m * m >= 0) by (nonlinear_arith);
    assert forall|i: int| 0 <= i < num_cells(n) implies next_generation(n, large)[i] == embedded(
        m,
        n,
        next_small,
        ox,
        oy,
    )[i] by {
        lemma_cell_split(n, i);
        let x = i % n;
        let y = i / n;
        if in_window(m, ox, oy, x, y) {
            let sx = x - ox;
            let sy = y - oy;
            lemma_neighbor_in_window(m, n, small, ox, oy, sx, sy, -1, -1);
            lemma_neighbor_in_window(m, n, small, ox, oy, sx, sy, 0, -1);
            lemma_neighbor_in_window(m, n, small, ox, oy, sx, sy, 1, -1);
            lemma_neighbor_in_window(m, n, small, ox, oy, sx, sy, -1, 0);
            lemma_neighbor_in_window(m, n, small, ox, oy, sx, sy, 0, 0);
            lemma_neighbor_in_window(m, n, small, ox, oy, sx, sy, 1, 0);
            lemma_neighbor_in_window(m, n, small, ox, oy, sx, sy, -1, 1);
            lemma_neighbor_in_window(m, n, small, ox, oy, sx, sy, 0, 1);
            lemma_neighbor_in_window(m, n, small, ox, oy, sx, sy, 1, 1);
            assert(live_neighbors(n, large, x, y) == live_neighbors(m, small, sx, sy));
            assert(next_cell(n, large, x, y) == next_cell(m, small, sx, sy));
            lemma_cell_join(m, sx, sy);
        } else {
            lemma_neighbor_outside_window(m, n, small, ox, oy, x, y, -1, -1);
            lemma_neighbor_outside_window(m, n, small, ox, oy, x, y, 0, -1);
            lemma_neighbor_outside_window(m, n, small, ox, oy, x, y, 1, -1);
            lemma_neighbor_outside_window(m, n, small, ox, oy, x, y, -1, 0);
            lemma_neighbor_outside_window(m, n, small, ox, oy, x, y, 0, 0);
            lemma_neighbor_outside_window(m, n, small, ox, oy, x, y, 1, 0);
            lemma_neighbor_outside_window(m, n, small, ox, oy, x, y, -1, 1);
            lemma_neighbor_outside_window(m, n, small, ox, oy, x, y, 0, 1);
            lemma_neighbor_outside_window(m, n, small, ox, oy, x, y, 1, 1);
            assert(live_neighbors(n, large, x, y) == 0);
        }
    }
    assert(next_generation(n, large) =~= embedded(m, n, next_small, ox, oy));
}

/// Over any number of steps the pattern evolves alike at either scale, as
/// long as it keeps clear of the border of the small grid: the border is
/// dead in every generation before the last.
pub proof fn lemma_generations_commute_with_embedding(
    m: int,
    n: int,
    small: Seq<u8>,
    ox: int,
    oy: int,
    steps: nat,
)
    requires
        window_fits(m, n, ox, oy),
        small.len() == num_cells(m),
        forall|earlier: nat|
            earlier < steps ==> border_is_dead(m, #[trigger] generation_after(m, small, earlier)),
    ensures
        generation_after(n, embedded(m, n, small, ox, oy), steps) == embedded(
            m,
            n,
            generation_after(m, small, steps),
            ox,
            oy,
        ),
        generation_after(m, small, steps).len() == num_cells(m),
    decreases steps,
{
    if steps > 0 {
        let before = (steps - 1) as nat;
        lemma_generations_commute_with_embedding(m, n, small, ox, oy, before);
        assert(border_is_dead(m, generation_after(m, small, before)));
        lemma_step_commutes_with_embedding(m, n, generation_after(m, small, before), ox, oy);
        assert(m * m >= 0) by (nonlinear_arith);
    }
}

/// A pattern of 8 by 8 cells copied onto an empty grid of 64 by 64 cells,
/// all of it within the rows it starts in, is the pattern set into that grid.
pub proof fn lemma_placed_on_empty_is_embedded(
    src: Seq<u8>,
    dst: Seq<u8>,
    x_offset: int,
    y_offset: int,
)
    requires
        src.len() == 64,
        dst.len() == 4096,
        forall|i: int| 0 <= i < 4096 ==> dst[i] == 0,
        0 <= x_offset <= 56,
        0 <= y_offset <= 56,
    ensures
        forall|i: int|
            0 <= i < 4096 ==> #[trigger] embedded(8, 64, src, x_offset, y_offset)[i]
                == placed_cell(src, dst, x_offset, y_offset, i),
{
}

} // verus!
