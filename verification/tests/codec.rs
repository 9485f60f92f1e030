use wgpu_gol::codec::{pack_grid, unpack_grid};

const GLIDER: [u8; 64] = [
    0, 0, 1, 0, 0, 0, 0, 0, //
    1, 0, 1, 0, 0, 0, 0, 0, //
    0, 1, 1, 0, 0, 0, 0, 0, //
    0, 0, 0, 0, 0, 0, 0, 0, //
    0, 0, 0, 0, 0, 0, 0, 0, //
    0, 0, 0, 0, 0, 0, 0, 0, //
    0, 0, 0, 0, 0, 0, 0, 0, //
    0, 0, 0, 0, 0, 0, 0, 0, //
];

/// A grid that is neither empty nor full nor regular: cell `i` lives if a
/// small multiplicative hash of `i` is odd.
fn speckled(grid_size: usize) -> Vec<u8> {
    (0..grid_size * grid_size)
        .map(|i| ((i.wrapping_mul(2654435761) >> 7) & 1) as u8)
        .collect()
}

#[test]
fn pack_places_each_cell_on_its_bit() {
    let (words, dims) = pack_grid(8, &GLIDER);
    assert_eq!(dims, [1, 8]);
    assert_eq!(words, vec![0b100, 0b101, 0b110, 0, 0, 0, 0, 0]);
}

#[test]
fn pack_uses_the_second_word_of_a_row_from_column_32() {
    let mut grid = vec![0u8; 64 * 64];
    grid[2 * 64 + 33] = 1;
    grid[63 * 64 + 31] = 1;
    grid[63 * 64 + 63] = 1;
    let (words, dims) = pack_grid(64, &grid);
    assert_eq!(dims, [2, 64]);
    assert_eq!(words.len(), 128);
    for (i, word) in words.iter().enumerate() {
        let expected = match i {
            5 => 1u32 << 1,
            126 => 1u32 << 31,
            127 => 1u32 << 31,
            _ => 0,
        };
        assert_eq!(*word, expected, "word {i}");
    }
}

#[test]
fn pack_of_an_empty_grid_is_all_zero() {
    for grid_size in [8u32, 32, 40, 64] {
        let cells = (grid_size * grid_size) as usize;
        let (words, dims) = pack_grid(grid_size, &vec![0u8; cells]);
        assert_eq!(dims, [grid_size.div_ceil(32), grid_size]);
        assert_eq!(words, vec![0u32; (dims[0] * dims[1]) as usize]);
    }
}

#[test]
fn pack_of_a_full_grid_sets_every_cell_bit() {
    let (words, _) = pack_grid(8, &[1u8; 64]);
    assert_eq!(words, vec![0xffu32; 8]);

    let (words, _) = pack_grid(32, &vec![1u8; 32 * 32]);
    assert_eq!(words, vec![0xffff_ffffu32; 32]);

    let (words, _) = pack_grid(64, &vec![1u8; 64 * 64]);
    assert_eq!(words, vec![0xffff_ffffu32; 128]);
}

#[test]
fn pack_of_a_full_grid_leaves_padding_bits_clear() {
    // 40 cells per row: one full word and one word with 8 cells.
    let (words, dims) = pack_grid(40, &vec![1u8; 40 * 40]);
    assert_eq!(dims, [2, 40]);
    assert_eq!(words.len(), 80);
    for row in 0..40 {
        assert_eq!(words[2 * row], 0xffff_ffff);
        assert_eq!(words[2 * row + 1], 0x0000_00ff);
    }
}

#[test]
fn pack_of_the_empty_grid_size() {
    let (words, dims) = pack_grid(0, &[]);
    assert_eq!(dims, [0, 0]);
    assert!(words.is_empty());
    assert!(unpack_grid(0, &[]).is_empty());
}

#[test]
fn pack_ors_in_whatever_a_cell_holds() {
    // A cell that holds 3 spills into the bit of its right neighbor, and a
    // cell in the last column of a word loses what does not fit.
    let mut grid = vec![0u8; 32 * 32];
    grid[4] = 3;
    grid[32 + 31] = 3;
    let (words, _) = pack_grid(32, &grid);
    assert_eq!(words[0], 0b11 << 4);
    assert_eq!(words[1], 1 << 31);
}

#[test]
fn unpack_reads_each_cell_from_its_bit() {
    let words = [0b100u32, 0b101, 0b110, 0, 0, 0, 0, 0];
    assert_eq!(unpack_grid(8, &words), GLIDER.to_vec());
}

#[test]
fn unpack_ignores_padding_bits_and_extra_words() {
    let mut words = vec![0xffff_ff00u32; 8];
    words.push(0xdead_beef);
    assert_eq!(unpack_grid(8, &words), vec![0u8; 64]);
}

#[test]
fn unpack_inverts_pack() {
    for grid_size in [8u32, 16, 24, 32, 40, 64, 72] {
        let grid = speckled(grid_size as usize);
        let (words, _) = pack_grid(grid_size, &grid);
        assert_eq!(unpack_grid(grid_size, &words), grid, "grid size {grid_size}");
    }
}

#[test]
fn pack_has_no_hidden_state() {
    let grid = speckled(40);
    let first = pack_grid(40, &grid);
    let _ = pack_grid(8, &[1u8; 64]);
    let second = pack_grid(40, &grid);
    assert_eq!(first, second);
    assert_eq!(unpack_grid(40, &first.0), unpack_grid(40, &second.0));
}

#[test]
fn pack_and_unpack_are_exported_at_the_root() {
    let (words, _) = wgpu_gol::pack_grid(8, &GLIDER);
    assert_eq!(wgpu_gol::unpack_grid(8, &words), GLIDER.to_vec());
}
