//! The bit-packed grid codec: one byte per cell on the host side, one bit per
//! cell in rows of 32-bit words on the device side.

use vstd::prelude::*;
use crate::layout;
use crate::layout::{
    block_cells, lemma_block_join, lemma_block_split, lemma_cell_join, lemma_cell_split,
    lemma_counts_fit, words_per_row,
};

verus! {

/// Whether bit `bit` of `word` is set.
pub open spec fn word_bit(word: u32, bit: int) -> bool {
    word & (1u32 << (bit as u32)) != 0
}

/// What one cell contributes to its word: its byte, shifted to the cell's
/// bit. For a cell that holds 0 or 1 that is the cell's own bit or nothing.
pub open spec fn cell_mask(state: u8, bit: int) -> u32 {
    (state as u32) << (bit as u32)
}

/// The word of row `y`, block column `bx`, after the first `k` cells of that
/// block have been or-ed in.
pub open spec fn packed_prefix(n: int, grid: Seq<u8>, y: int, bx: int, k: int) -> u32
    decreases k,
{
    if k <= 0 {
        0u32
    } else {
        packed_prefix(n, grid, y, bx, k - 1) | cell_mask(
            grid[layout::cell_index(n, 32 * bx + k - 1, y)],
            k - 1,
        )
    }
}

/// The packed word of row `y`, block column `bx`.
pub open spec fn packed_word(n: int, grid: Seq<u8>, y: int, bx: int) -> u32 {
    packed_prefix(n, grid, y, bx, block_cells(n, bx))
}

/// The packed form of the grid `grid` of `n` cells per side.
pub open spec fn pack_spec(n: int, grid: Seq<u8>) -> Seq<u32> {
    Seq::new(
        layout::num_blocks(n) as nat,
        |i: int| packed_word(n, grid, i / layout::block_width(n), i % layout::block_width(n)),
    )
}

/// The state of cell `(x, y)` as the packed words hold it.
pub open spec fn unpacked_cell(n: int, packed: Seq<u32>, x: int, y: int) -> u8 {
    if word_bit(packed[layout::block_index(n, x, y)], x % 32) {
        1u8
    } else {
        0u8
    }
}

/// The grid of `n` cells per side that the words `packed` hold.
pub open spec fn unpack_spec(n: int, packed: Seq<u32>) -> Seq<u8> {
    Seq::new(layout::num_cells(n) as nat, |i: int| unpacked_cell(n, packed, i % n, i / n))
}

/// A grid in which every cell is 0 (dead) or 1 (alive).
pub open spec fn is_binary(grid: Seq<u8>) -> bool {
    forall|i: int| 0 <= i < grid.len() ==> grid[i] == 0 || grid[i] == 1
}

/// How many of the cells of block column `bx` lie in the columns before `x`.
spec fn cells_before(x: int, bx: int) -> int {
    if x <= 32 * bx {
        0
    } else if x - 32 * bx >= 32 {
        32
    } else {
        x - 32 * bx
    }
}

/// Packs a grid of one byte per cell into rows of 32-bit words and returns
/// the words with the size of the packed grid in words, width first.
///
/// Cell `(x, y)` goes to bit `x % 32` of word `block_width * y + x / 32`.
pub fn pack_grid(grid_size: u32, initial_state: &[u8]) -> (packed: (Vec<u32>, [u32; 2]))
    requires
        grid_size * grid_size <= u32::MAX,
        initial_state@.len() == grid_size * grid_size,
    ensures
        packed.0@ == pack_spec(grid_size as int, initial_state@),
        packed.1[0] == layout::block_width(grid_size as int),
        packed.1[1] == grid_size,
{
    let ghost n: int = grid_size as int;
    let ghost bw: int = layout::block_width(n);
    let ghost grid: Seq<u8> = initial_state@;
    proof {
        assert(n <= 65535) by (nonlinear_arith)
            requires
                n * n <= 0xffff_ffff,
                n >= 0,
        ;
        lemma_counts_fit(n);
    }

    // Calculate the width and height in blocks.
    let block_width: u32 = words_per_row(grid_size);
    let block_height: u32 = grid_size;
    let num_blocks: u32 = block_width * block_height;

    let mut packed_state: Vec<u32> = vec![0u32; num_blocks as usize];
    let mut x: u32 = 0;
    while x < grid_size
        invariant
            n == grid_size,
            bw == layout::block_width(n),
            bw == block_width,
            grid == initial_state@,
            0 < n <= 65535 || n == 0,
            x <= grid_size,
            grid.len() == n * n,
            packed_state@.len() == layout::num_blocks(n),
            forall|i: int|
                0 <= i < layout::num_blocks(n) ==> #[trigger] packed_state@[i] == packed_prefix(
                    n,
                    grid,
                    i / bw,
                    i % bw,
                    cells_before(x as int, i % bw),
                ),
        decreases grid_size - x,
    {
        let mut y: u32 = 0;
        while y < grid_size
            invariant
                n == grid_size,
                bw == layout::block_width(n),
                bw == block_width,
                grid == initial_state@,
                0 < n <= 65535,
                x < grid_size,
                y <= grid_size,
                grid.len() == n * n,
                packed_state@.len() == layout::num_blocks(n),
                forall|i: int|
                    0 <= i < layout::num_blocks(n) ==> #[trigger] packed_state@[i] == packed_prefix(
                        n,
                        grid,
                        i / bw,
                        i % bw,
                        cells_before(
                            if i / bw < y {
                                x + 1
                            } else {
                                x as int
                            },
                            i % bw,
                        ),
                    ),
            decreases grid_size - y,
        {
            proof {
                lemma_counts_fit(n);
                lemma_cell_join(n, x as int, y as int);
                lemma_block_join(n, y as int, x as int / 32);
            }
            let cell_index: u32 = y * grid_size + x;
            let state: u32 = initial_state[cell_index as usize] as u32;

            let block_index: u32 = block_width * y + x / 32;
            let bit_index: u32 = x % 32;
            let mask: u32 = state << bit_index;

            let ghost before: Seq<u32> = packed_state@;
            let block = &mut packed_state[block_index as usize];
            *block |= mask;

            proof {
                assert forall|i: int| 0 <= i < layout::num_blocks(n) implies #[trigger] packed_state@[i]
                    == packed_prefix(
                    n,
                    grid,
                    i / bw,
                    i % bw,
                    cells_before(
                        if i / bw < y + 1 {
                            x + 1
                        } else {
                            x as int
                        },
                        i % bw,
                    ),
                ) by {
                    lemma_block_split(n, i);
                    if i == block_index as int {
                        assert(cells_before(x as int, i % bw) == bit_index);
                        assert(cells_before(x + 1, i % bw) == bit_index + 1);
                        assert(32 * (i % bw) + (bit_index + 1) - 1 == x);
                    } else {
                        assert(packed_state@[i] == before[i]);
                        if i / bw == y {
                            assert(cells_before(x as int, i % bw) == cells_before(x + 1, i % bw));
                        }
                    }
                }
            }
            y += 1;
        }
        proof {
            assert forall|i: int| 0 <= i < layout::num_blocks(n) implies #[trigger] packed_state@[i]
                == packed_prefix(n, grid, i / bw, i % bw, cells_before(x + 1, i % bw)) by {
                lemma_block_split(n, i);
            }
        }
        x += 1;
    }

    proof {
        assert forall|i: int| 0 <= i < layout::num_blocks(n) implies packed_state@[i] == pack_spec(
            n,
            grid,
        )[i] by {
            lemma_block_split(n, i);
            assert(cells_before(n, i % bw) == block_cells(n, i % bw));
        }
        assert(packed_state@ =~= pack_spec(n, grid));
    }

    (packed_state, [block_width, block_height])
}

/// Unpacks rows of 32-bit words into a grid of one byte per cell, each byte
/// 0 or 1: the inverse of [`pack_grid`].
///
/// Cell `(x, y)` is read from bit `x % 32` of word `block_width * y + x / 32`.
/// Words beyond the packed grid are ignored.
pub fn unpack_grid(grid_size: u32, packed_state: &[u32]) -> (unpacked: Vec<u8>)
    requires
        grid_size * grid_size <= u32::MAX,
        packed_state@.len() >= layout::num_blocks(grid_size as int),
    ensures
        unpacked@ == unpack_spec(grid_size as int, packed_state@),
{
    let ghost n: int = grid_size as int;
    let ghost packed: Seq<u32> = packed_state@;
    proof {
        assert(n <= 65535) by (nonlinear_arith)
            requires
                n * n <= 0xffff_ffff,
                n >= 0,
        ;
        lemma_counts_fit(n);
    }

    let mut unpacked_state: Vec<u8> = vec![0u8; (grid_size * grid_size) as usize];

    let block_width: u32 = words_per_row(grid_size);

    let mut x: u32 = 0;
    while x < grid_size
        invariant
            n == grid_size,
            block_width == layout::block_width(n),
            packed == packed_state@,
            0 <= n <= 65535,
            x <= grid_size,
            packed.len() >= layout::num_blocks(n),
            unpacked_state@.len() == layout::num_cells(n),
            forall|i: int|
                0 <= i < layout::num_cells(n) && i % n < x ==> #[trigger] unpacked_state@[i]
                    == unpacked_cell(n, packed, i % n, i / n),
        decreases grid_size - x,
    {
        let mut y: u32 = 0;
        while y < grid_size
            invariant
                n == grid_size,
                block_width == layout::block_width(n),
                packed == packed_state@,
                0 < n <= 65535,
                x < grid_size,
                y <= grid_size,
                packed.len() >= layout::num_blocks(n),
                unpacked_state@.len() == layout::num_cells(n),
                forall|i: int|
                    0 <= i < layout::num_cells(n) && (i % n < x || (i % n == x && i / n < y))
                        ==> #[trigger] unpacked_state@[i] == unpacked_cell(
                        n,
                        packed,
                        i % n,
                        i / n,
                    ),
            decreases grid_size - y,
        {
            proof {
                lemma_counts_fit(n);
                lemma_cell_join(n, x as int, y as int);
                lemma_block_join(n, y as int, x as int / 32);
            }
            let cell_index: u32 = y * grid_size + x;

            let block_index: u32 = block_width * y + x / 32;
            let bit_index: u32 = x % 32;
            let mask: u32 = 1u32 << bit_index;
            let state: bool = (packed_state[block_index as usize] & mask) != 0;

            let ghost before: Seq<u8> = unpacked_state@;
            unpacked_state[cell_index as usize] = state as u8;

            proof {
                assert forall|i: int|
                    0 <= i < layout::num_cells(n) && (i % n < x || (i % n == x && i / n < y + 1))
                    implies #[trigger] unpacked_state@[i] == unpacked_cell(
                    n,
                    packed,
                    i % n,
                    i / n,
                ) by {
                    lemma_cell_split(n, i);
                    if i != cell_index as int {
                        assert(unpacked_state@[i] == before[i]);
                    }
                }
            }
            y += 1;
        }
        proof {
            assert forall|i: int|
                0 <= i < layout::num_cells(n) && i % n < x + 1 implies #[trigger] unpacked_state@[i]
                == unpacked_cell(n, packed, i % n, i / n) by {
                lemma_cell_split(n, i);
            }
        }
        x += 1;
    }

    proof {
        assert forall|i: int| 0 <= i < layout::num_cells(n) implies unpacked_state@[i]
            == unpack_spec(n, packed)[i] by {
            lemma_cell_split(n, i);
        }
        assert(unpacked_state@ =~= unpack_spec(n, packed));
    }

    unpacked_state
}

/// The word whose lowest `k` bits are set and no others, for `k` from 0 to
/// 32.
pub open spec fn low_ones(k: int) -> u32 {
    if k >= 32 {
        0xffff_ffffu32
    } else {
        ((1u32 << (k as u32)) - 1) as u32
    }
}

/// Over cells that hold 0 or 1, the word built from the first `k` cells of a
/// block has bit `b` set exactly if `b` is one of those cells and it is
/// alive. The bits from `k` on are clear.
pub proof fn lemma_prefix_bits(n: int, grid: Seq<u8>, y: int, bx: int, k: int, b: int)
    requires
        0 <= k <= 32,
        0 <= b < 32,
        forall|j: int| 0 <= j < k ==> grid[#[trigger] layout::cell_index(n, 32 * bx + j, y)] <= 1,
    ensures
        word_bit(packed_prefix(n, grid, y, bx, k), b) == (b < k && grid[layout::cell_index(
            n,
            32 * bx + b,
            y,
        )] == 1),
    decreases k,
{
    let bit: u32 = b as u32;
    if k == 0 {
        assert(0u32 & (1u32 << bit) == 0) by (bit_vector);
    } else {
        lemma_prefix_bits(n, grid, y, bx, k - 1, b);
        let before: u32 = packed_prefix(n, grid, y, bx, k - 1);
        let state: u8 = grid[layout::cell_index(n, 32 * bx + (k - 1), y)];
        let shift: u32 = (k - 1) as u32;
        let word: u32 = before | ((state as u32) << shift);
        assert(packed_prefix(n, grid, y, bx, k) == word);
        assert(state <= 1);
        assert((word & (1u32 << bit) != 0) == ((before & (1u32 << bit) != 0) || (shift == bit
            && state == 1))) by (bit_vector)
            requires
                word == before | ((state as u32) << shift),
                state <= 1,
                shift < 32,
                bit < 32,
        ;
        assert(shift == bit <==> k - 1 == b);
    }
}

/// In the packed form of a grid of 0 and 1, the bit of cell `(x, y)`, which
/// is bit `x % 32` of word `block_width * y + x / 32`, is set exactly if the
/// cell is alive.
pub proof fn lemma_packed_bit(n: int, grid: Seq<u8>, x: int, y: int)
    requires
        grid.len() == layout::num_cells(n),
        is_binary(grid),
        0 <= x < n,
        0 <= y < n,
    ensures
        0 <= layout::block_index(n, x, y) < layout::num_blocks(n),
        word_bit(pack_spec(n, grid)[layout::block_index(n, x, y)], x % 32) == (grid[layout::cell_index(
            n,
            x,
            y,
        )] == 1),
{
    let bx = x / 32;
    lemma_block_join(n, y, bx);
    assert forall|j: int| 0 <= j < block_cells(n, bx) implies grid[#[trigger] layout::cell_index(
        n,
        32 * bx + j,
        y,
    )] <= 1 by {
        lemma_cell_join(n, 32 * bx + j, y);
    }
    lemma_prefix_bits(n, grid, y, bx, block_cells(n, bx), x % 32);
    assert(32 * bx + x % 32 == x);
}

/// Unpacking what was packed gives the grid back, cell for cell, for every
/// grid of 0 and 1 of the right length.
pub proof fn lemma_unpack_pack(n: int, grid: Seq<u8>)
    requires
        n >= 0,
        grid.len() == layout::num_cells(n),
        is_binary(grid),
    ensures
        unpack_spec(n, pack_spec(n, grid)) == grid,
{
    let packed = pack_spec(n, grid);
    assert(n * n >= 0) by (nonlinear_arith)
        requires
            n >= 0,
    ;
    assert forall|i: int| 0 <= i < layout::num_cells(n) implies unpack_spec(n, packed)[i]
        == grid[i] by {
        lemma_cell_split(n, i);
        lemma_packed_bit(n, grid, i % n, i / n);
    }
    assert(unpack_spec(n, packed) =~= grid);
}

/// In the packed form of a grid of 0 and 1, the bits that stand for no cell
/// (the end of the last word of a row whose length is no multiple of 32) are
/// clear.
pub proof fn lemma_padding_clear(n: int, grid: Seq<u8>, i: int, b: int)
    requires
        n > 0,
        grid.len() == layout::num_cells(n),
        is_binary(grid),
        0 <= i < layout::num_blocks(n),
        block_cells(n, i % layout::block_width(n)) <= b < 32,
    ensures
        !word_bit(pack_spec(n, grid)[i], b),
{
    lemma_block_split(n, i);
    let y = i / layout::block_width(n);
    let bx = i % layout::block_width(n);
    assert forall|j: int| 0 <= j < block_cells(n, bx) implies grid[#[trigger] layout::cell_index(
        n,
        32 * bx + j,
        y,
    )] <= 1 by {
        lemma_cell_join(n, 32 * bx + j, y);
    }
    lemma_prefix_bits(n, grid, y, bx, block_cells(n, bx), b);
}

/// Over dead cells only, the word built from the first `k` cells is zero.
proof fn lemma_prefix_of_zeros(n: int, grid: Seq<u8>, y: int, bx: int, k: int)
    requires
        0 <= k <= 32,
        forall|j: int| 0 <= j < k ==> grid[#[trigger] layout::cell_index(n, 32 * bx + j, y)] == 0,
    ensures
        packed_prefix(n, grid, y, bx, k) == 0,
    decreases k,
{
    if k > 0 {
        lemma_prefix_of_zeros(n, grid, y, bx, k - 1);
        let before: u32 = packed_prefix(n, grid, y, bx, k - 1);
        let state: u8 = grid[layout::cell_index(n, 32 * bx + (k - 1), y)];
        let shift: u32 = (k - 1) as u32;
        let word: u32 = before | ((state as u32) << shift);
        assert(packed_prefix(n, grid, y, bx, k) == word);
        assert(state == 0);
        assert(word == 0) by (bit_vector)
            requires
                word == before | ((state as u32) << shift),
                before == 0,
                state == 0,
        ;
    }
}

/// Over live cells only, the word built from the first `k` cells has its
/// lowest `k` bits set.
proof fn lemma_prefix_of_ones(n: int, grid: Seq<u8>, y: int, bx: int, k: int)
    requires
        0 <= k <= 32,
        forall|j: int| 0 <= j < k ==> grid[#[trigger] layout::cell_index(n, 32 * bx + j, y)] == 1,
    ensures
        packed_prefix(n, grid, y, bx, k) == low_ones(k),
    decreases k,
{
    if k == 0 {
        assert(((1u32 << 0u32) - 1) as u32 == 0u32) by (bit_vector);
    } else {
        lemma_prefix_of_ones(n, grid, y, bx, k - 1);
        let before: u32 = packed_prefix(n, grid, y, bx, k - 1);
        let state: u8 = grid[layout::cell_index(n, 32 * bx + (k - 1), y)];
        let shift: u32 = (k - 1) as u32;
        let word: u32 = before | ((state as u32) << shift);
        assert(packed_prefix(n, grid, y, bx, k) == word);
        assert(state == 1);
        assert(before == ((1u32 << shift) - 1) as u32);
        if k < 32 {
            let next: u32 = k as u32;
            assert(word == ((1u32 << next) - 1) as u32) by (bit_vector)
                requires
                    word == before | ((state as u32) << shift),
                    before == ((1u32 << shift) - 1) as u32,
                    state == 1,
                    shift < 31,
                    next == shift + 1,
            ;
        } else {
            assert(word == 0xffff_ffffu32) by (bit_vector)
                requires
                    word == before | ((state as u32) << shift),
                    before == ((1u32 << shift) - 1) as u32,
                    state == 1,
                    shift == 31,
            ;
        }
    }
}

/// Packing a grid of dead cells gives words that are all zero.
pub proof fn lemma_pack_all_dead(n: int, grid: Seq<u8>)
    requires
        n >= 0,
        grid.len() == layout::num_cells(n),
        forall|i: int| 0 <= i < grid.len() ==> grid[i] == 0,
    ensures
        pack_spec(n, grid).len() == layout::num_blocks(n),
        forall|i: int| 0 <= i < layout::num_blocks(n) ==> pack_spec(n, grid)[i] == 0,
{
    assert(layout::block_width(n) * n >= 0) by (nonlinear_arith)
        requires
            layout::block_width(n) >= 0,
            n >= 0,
    ;
    assert forall|i: int| 0 <= i < layout::num_blocks(n) implies pack_spec(n, grid)[i] == 0 by {
        assert(n > 0) by (nonlinear_arith)
            requires
                0 <= i < layout::block_width(n) * n,
                n >= 0,
        ;
        lemma_block_split(n, i);
        let y = i / layout::block_width(n);
        let bx = i % layout::block_width(n);
        assert forall|j: int| 0 <= j < block_cells(n, bx) implies grid[#[trigger] layout::cell_index(
            n,
            32 * bx + j,
            y,
        )] == 0 by {
            lemma_cell_join(n, 32 * bx + j, y);
        }
        lemma_prefix_of_zeros(n, grid, y, bx, block_cells(n, bx));
    }
}

/// Packing a grid of live cells gives words in which the bit of every cell
/// is set and no other: all 32 bits, but in the last word of a row whose
/// length is no multiple of 32, where only the lowest `n % 32` are.
pub proof fn lemma_pack_all_alive(n: int, grid: Seq<u8>)
    requires
        n >= 0,
        grid.len() == layout::num_cells(n),
        forall|i: int| 0 <= i < grid.len() ==> grid[i] == 1,
    ensures
        pack_spec(n, grid).len() == layout::num_blocks(n),
        forall|i: int|
            0 <= i < layout::num_blocks(n) ==> pack_spec(n, grid)[i] == low_ones(
                block_cells(n, i % layout::block_width(n)),
            ),
{
    assert(layout::block_width(n) * n >= 0) by (nonlinear_arith)
        requires
            layout::block_width(n) >= 0,
            n >= 0,
    ;
    assert forall|i: int| 0 <= i < layout::num_blocks(n) implies pack_spec(n, grid)[i] == low_ones(
        block_cells(n, i % layout::block_width(n)),
    ) by {
        assert(n > 0) by (nonlinear_arith)
            requires
                0 <= i < layout::block_width(n) * n,
                n >= 0,
        ;
        lemma_block_split(n, i);
        let y = i / layout::block_width(n);
        let bx = i % layout::block_width(n);
        assert forall|j: int| 0 <= j < block_cells(n, bx) implies grid[#[trigger] layout::cell_index(
            n,
            32 * bx + j,
            y,
        )] == 1 by {
            lemma_cell_join(n, 32 * bx + j, y);
        }
        lemma_prefix_of_ones(n, grid, y, bx, block_cells(n, bx));
    }
}

} // verus!
