//! Placing a small pattern into a larger grid.

use vstd::prelude::*;

verus! {

/// The cell at index `i` of a 64 by 64 grid after an 8 by 8 pattern has been
/// copied over it with its first cell at column `x_offset`, row `y_offset`:
/// rows of 8 pattern cells, one every 64 cells.
pub open spec fn placed_cell(
    src: Seq<u8>,
    dst: Seq<u8>,
    x_offset: int,
    y_offset: int,
    i: int,
) -> u8 {
    let from_start = i - (y_offset * 64 + x_offset);
    if 0 <= from_start && from_start / 64 < 8 && from_start % 64 < 8 {
        src[(from_start / 64) * 8 + from_start % 64]
    } else {
        dst[i]
    }
}

/// Copies a smaller 8x8 grid into a larger 64x64 grid at the specified offset.
pub fn copy_to_grid(src: &[u8], dst: &mut [u8], offset: [usize; 2])
    requires
        src@.len() == 8 * 8,
        old(dst)@.len() == 64 * 64,
        (offset[1] + 7) * 64 + offset[0] + 8 <= 64 * 64,
    ensures
        final(dst)@.len() == 64 * 64,
        forall|i: int|
            0 <= i < 64 * 64 ==> #[trigger] final(dst)@[i] == placed_cell(
                src@,
                old(dst)@,
                offset[0] as int,
                offset[1] as int,
                i,
            ),
{
    let x_offset: usize = offset[0];
    let y_offset: usize = offset[1];

    let mut row: usize = 0;
    while row < 8
        invariant
            src@.len() == 64,
            dst@.len() == 4096,
            x_offset == offset[0],
            y_offset == offset[1],
            (y_offset + 7) * 64 + x_offset + 8 <= 4096,
            row <= 8,
            forall|i: int|
                0 <= i < 4096 ==> #[trigger] dst@[i] == (if i < (y_offset + row) * 64 + x_offset {
                    placed_cell(src@, old(dst)@, x_offset as int, y_offset as int, i)
                } else {
                    old(dst)@[i]
                }),
        decreases 8 - row,
    {
        let dst_row: usize = row + y_offset;
        let mut col: usize = 0;
        while col < 8
            invariant
                src@.len() == 64,
                dst@.len() == 4096,
                x_offset == offset[0],
                y_offset == offset[1],
                (y_offset + 7) * 64 + x_offset + 8 <= 4096,
                row < 8,
                col <= 8,
                dst_row == row + y_offset,
                forall|i: int|
                    0 <= i < 4096 ==> #[trigger] dst@[i] == (if i < dst_row * 64 + x_offset + col {
                        placed_cell(src@, old(dst)@, x_offset as int, y_offset as int, i)
                    } else {
                        old(dst)@[i]
                    }),
            decreases 8 - col,
        {
            dst[dst_row * 64 + x_offset + col] = src[row * 8 + col];
            col += 1;
        }
        row += 1;
    }
}

} // verus!
