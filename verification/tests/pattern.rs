use wgpu_gol::pattern::copy_to_grid;

fn numbered() -> Vec<u8> {
    (1..=64).collect()
}

#[test]
fn copy_to_grid_places_the_rows_sixty_four_cells_apart() {
    let src = numbered();
    let mut dst = vec![0u8; 64 * 64];
    copy_to_grid(&src, &mut dst, [5, 3]);
    for i in 0..64 * 64 {
        let (x, y) = (i % 64, i / 64);
        let expected = if (5..13).contains(&x) && (3..11).contains(&y) {
            src[(y - 3) * 8 + (x - 5)]
        } else {
            0
        };
        assert_eq!(dst[i], expected, "cell ({x}, {y})");
    }
}

#[test]
fn copy_to_grid_keeps_the_cells_around_the_pattern() {
    let src = [0u8; 64];
    let mut dst = vec![9u8; 64 * 64];
    copy_to_grid(&src, &mut dst, [0, 0]);
    assert_eq!(dst.iter().filter(|cell| **cell == 0).count(), 64);
    assert_eq!(dst[8], 9);
    assert_eq!(dst[7 * 64 + 7], 0);
    assert_eq!(dst[8 * 64], 9);
}

#[test]
fn copy_to_grid_reaches_the_last_corner() {
    let src = numbered();
    let mut dst = vec![0u8; 64 * 64];
    copy_to_grid(&src, &mut dst, [56, 56]);
    assert_eq!(dst[56 * 64 + 56], 1);
    assert_eq!(dst[63 * 64 + 63], 64);
    assert_eq!(dst.iter().filter(|cell| **cell != 0).count(), 64);
}

#[test]
fn copy_to_grid_runs_on_into_the_next_row() {
    // With the pattern starting in column 60, the last four cells of each of
    // its rows land at the start of the next grid row.
    let src = numbered();
    let mut dst = vec![0u8; 64 * 64];
    copy_to_grid(&src, &mut dst, [60, 0]);
    assert_eq!(&dst[60..68], &src[0..8]);
    assert_eq!(&dst[64 + 60..64 + 68], &src[8..16]);
    assert_eq!(&dst[7 * 64 + 60..7 * 64 + 68], &src[56..64]);
}
