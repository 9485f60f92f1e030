use wgpu_gol::layout::{words_per_row, MAX_GRID_SIZE, WORKGROUP_SIZE};

#[test]
fn words_per_row_rounds_up_to_whole_words() {
    for (grid_size, width) in [
        (0u32, 0u32),
        (1, 1),
        (8, 1),
        (31, 1),
        (32, 1),
        (33, 2),
        (40, 2),
        (64, 2),
        (65, 3),
        (512, 16),
        (65528, 2048),
        (65535, 2048),
        (u32::MAX, 1 << 27),
    ] {
        assert_eq!(words_per_row(grid_size), width, "grid size {grid_size}");
        assert_eq!(words_per_row(grid_size), grid_size.div_ceil(32));
    }
}

#[test]
fn largest_grid_has_as_many_cells_as_fit_in_32_bits() {
    let size = MAX_GRID_SIZE as u64;
    assert!(size * size <= u32::MAX as u64);
    assert!((size + 1) * (size + 1) > u32::MAX as u64);
}

#[test]
fn work_groups_are_eight_cells_wide() {
    assert_eq!(WORKGROUP_SIZE, 8);
}
