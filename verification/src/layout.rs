//! Geometry of the grid: how a square grid of cells maps onto rows of 32-bit
//! words and onto square work-groups.

use vstd::prelude::*;
use vstd::arithmetic::div_mod::{lemma_fundamental_div_mod, lemma_fundamental_div_mod_converse};

verus! {

/// Cells per side of one work-group of the update kernel.
pub const WORKGROUP_SIZE: u32 = 8;

/// Largest grid size whose cell count still fits in a `u32`.
pub const MAX_GRID_SIZE: u32 = 65535;

/// Words needed for one row of `n` cells: `n / 32`, rounded up.
pub open spec fn block_width(n: int) -> int {
    (n + 31) / 32
}

/// Words in a packed grid of `n` by `n` cells.
pub open spec fn num_blocks(n: int) -> int {
    block_width(n) * n
}

/// Cells in a grid of `n` by `n` cells.
pub open spec fn num_cells(n: int) -> int {
    n * n
}

/// Row-major index of cell `(x, y)` in a grid of `n` cells per side.
pub open spec fn cell_index(n: int, x: int, y: int) -> int {
    y * n + x
}

/// Index of the word that holds cell `(x, y)`.
pub open spec fn block_index(n: int, x: int, y: int) -> int {
    block_width(n) * y + x / 32
}

/// How many cells the word in block column `bx` of a row really holds: 32,
/// but for the last word of a row whose length is no multiple of 32.
pub open spec fn block_cells(n: int, bx: int) -> int {
    if n - 32 * bx >= 32 {
        32
    } else if n - 32 * bx <= 0 {
        0
    } else {
        n - 32 * bx
    }
}

/// A grid size that a simulation can be built on: a positive multiple of the
/// work-group size, small enough for the cell count to fit in a `u32`.
pub open spec fn valid_grid_size(n: int) -> bool {
    &&& 0 < n <= MAX_GRID_SIZE
    &&& n % (WORKGROUP_SIZE as int) == 0
}

/// The coordinate, along one axis, of the cell that invocation `local` of
/// work-group `group` updates.
pub open spec fn invocation_cell(group: int, local: int) -> int {
    group * (WORKGROUP_SIZE as int) + local
}

/// Number of words per row of a grid of `grid_size` cells per side.
pub fn words_per_row(grid_size: u32) -> (width: u32)
    ensures
        width == block_width(grid_size as int),
        width <= grid_size,
        grid_size > 0 ==> width > 0,
        width * 32 >= grid_size,
        width * 32 < grid_size + 32,
{
    let whole: u32 = grid_size / 32;
    if grid_size % 32 == 0 {
        whole
    } else {
        whole + 1
    }
}

/// The cell count of a grid is the square of its side; up to
/// `MAX_GRID_SIZE` it fits in a `u32`, and so does the word count.
pub proof fn lemma_counts_fit(n: int)
    requires
        0 <= n <= MAX_GRID_SIZE,
    ensures
        0 <= num_blocks(n) <= num_cells(n) <= u32::MAX,
        n > 0 ==> num_blocks(n) >= block_width(n) > 0,
{
    let bw = block_width(n);
    assert(0 <= bw <= n);
    assert(0 <= bw * n <= n * n <= 0xffff_ffff) by (nonlinear_arith)
        requires
            0 <= bw <= n,
            n <= 65535,
    ;
    if n > 0 {
        assert(bw * n >= bw) by (nonlinear_arith)
            requires
                bw >= 0,
                n >= 1,
        ;
    }
}

/// A packed grid has a bit for every cell.
pub proof fn lemma_bits_suffice(n: int)
    requires
        n >= 0,
    ensures
        32 * num_blocks(n) >= num_cells(n),
{
    let bw = block_width(n);
    assert(32 * bw >= n);
    assert(32 * (bw * n) >= n * n) by (nonlinear_arith)
        requires
            32 * bw >= n,
            n >= 0,
    ;
}

/// Work-groups of 8 cells per side, `n / 8` of them along an axis, tile a
/// grid of a valid size exactly: every invocation updates a cell of the
/// grid, and every cell is updated by one invocation and no other.
pub proof fn lemma_workgroups_tile(n: int, groups: int)
    requires
        valid_grid_size(n),
        groups * WORKGROUP_SIZE == n,
    ensures
        forall|group: int, local: int|
            0 <= group < groups && 0 <= local < WORKGROUP_SIZE ==> 0 <= #[trigger] invocation_cell(
                group,
                local,
            ) < n,
        forall|c: int|
            0 <= c < n ==> 0 <= c / 8 < groups && #[trigger] invocation_cell(c / 8, c % 8) == c,
        forall|group: int, local: int|
            0 <= local < WORKGROUP_SIZE ==> group == #[trigger] invocation_cell(group, local) / 8
                && local == invocation_cell(group, local) % 8,
{
}

/// A packed grid is at most 512 MiB: its size in bytes fits in a `u32`.
pub proof fn lemma_bytes_fit(n: int)
    requires
        0 <= n <= MAX_GRID_SIZE,
    ensures
        0 <= 4 * num_blocks(n) <= u32::MAX,
{
    let bw = block_width(n);
    assert(0 <= bw <= 2048);
    assert(0 <= bw * n <= 2048 * 65535) by (nonlinear_arith)
        requires
            0 <= bw <= 2048,
            0 <= n <= 65535,
    ;
}

/// A word index splits into its row and its block column.
pub proof fn lemma_block_split(n: int, i: int)
    requires
        n > 0,
        0 <= i < num_blocks(n),
    ensures
        0 <= i / block_width(n) < n,
        0 <= i % block_width(n) < block_width(n),
        i == block_width(n) * (i / block_width(n)) + i % block_width(n),
{
    let bw = block_width(n);
    lemma_fundamental_div_mod(i, bw);
    let q = i / bw;
    let r = i % bw;
    assert(0 <= r < bw);
    assert(0 <= q < n) by (nonlinear_arith)
        requires
            i == bw * q + r,
            0 <= r < bw,
            0 <= i < bw * n,
    ;
}

/// Row `y` and block column `bx` are recovered from the word index
/// `block_width * y + bx`.
pub proof fn lemma_block_join(n: int, y: int, bx: int)
    requires
        n > 0,
        0 <= y < n,
        0 <= bx < block_width(n),
    ensures
        0 <= block_width(n) * y + bx < num_blocks(n),
        (block_width(n) * y + bx) / block_width(n) == y,
        (block_width(n) * y + bx) % block_width(n) == bx,
{
    let bw = block_width(n);
    assert(bw * y == y * bw) by (nonlinear_arith);
    lemma_fundamental_div_mod_converse(bw * y + bx, bw, y, bx);
    assert(0 <= bw * y + bx < bw * n) by (nonlinear_arith)
        requires
            0 <= y < n,
            0 <= bx < bw,
    ;
}

/// A cell index splits into its row and its column.
pub proof fn lemma_cell_split(n: int, i: int)
    requires
        n > 0,
        0 <= i < num_cells(n),
    ensures
        0 <= i / n < n,
        0 <= i % n < n,
        i == cell_index(n, i % n, i / n),
{
    lemma_fundamental_div_mod(i, n);
    let q = i / n;
    let r = i % n;
    assert(0 <= q < n) by (nonlinear_arith)
        requires
            i == n * q + r,
            0 <= r < n,
            0 <= i < n * n,
    ;
    assert(n * q == q * n) by (nonlinear_arith);
}

/// Column `x` and row `y` are recovered from the cell index `y * n + x`.
pub proof fn lemma_cell_join(n: int, x: int, y: int)
    requires
        n > 0,
        0 <= x < n,
        0 <= y < n,
    ensures
        0 <= cell_index(n, x, y) < num_cells(n),
        cell_index(n, x, y) / n == y,
        cell_index(n, x, y) % n == x,
{
    lemma_fundamental_div_mod_converse(y * n + x, n, y, x);
    assert(0 <= y * n + x < n * n) by (nonlinear_arith)
        requires
            0 <= x < n,
            0 <= y < n,
    ;
}

} // verus!
