use wgpu_gol::kernel::reference_step;

fn grid(grid_size: usize, alive: &[(usize, usize)]) -> Vec<u8> {
    let mut cells = vec![0u8; grid_size * grid_size];
    for (x, y) in alive {
        cells[y * grid_size + x] = 1;
    }
    cells
}

/// The eight neighbors of cell (3, 3), in reading order.
const AROUND: [(usize, usize); 8] = [
    (2, 2),
    (3, 2),
    (4, 2),
    (2, 3),
    (4, 3),
    (2, 4),
    (3, 4),
    (4, 4),
];

#[test]
fn dead_cell_comes_alive_with_exactly_three_neighbors() {
    for count in 0..=8 {
        let cells = grid(8, &AROUND[..count]);
        let next = reference_step(8, &cells);
        assert_eq!(next[3 * 8 + 3], (count == 3) as u8, "{count} neighbors");
    }
}

#[test]
fn live_cell_stays_alive_with_two_or_three_neighbors() {
    for count in 0..=8 {
        let mut alive = AROUND[..count].to_vec();
        alive.push((3, 3));
        let next = reference_step(8, &grid(8, &alive));
        assert_eq!(
            next[3 * 8 + 3],
            (count == 2 || count == 3) as u8,
            "{count} neighbors"
        );
    }
}

#[test]
fn blinker_turns() {
    let upright = grid(8, &[(3, 2), (3, 3), (3, 4)]);
    let flat = grid(8, &[(2, 3), (3, 3), (4, 3)]);
    assert_eq!(reference_step(8, &upright), flat);
    assert_eq!(reference_step(8, &flat), upright);
}

#[test]
fn blinker_turns_across_the_left_and_right_edge() {
    let flat = grid(8, &[(7, 3), (0, 3), (1, 3)]);
    let upright = grid(8, &[(0, 2), (0, 3), (0, 4)]);
    assert_eq!(reference_step(8, &flat), upright);
    assert_eq!(reference_step(8, &upright), flat);
}

#[test]
fn blinker_turns_across_the_top_and_bottom_edge() {
    let upright = grid(8, &[(5, 7), (5, 0), (5, 1)]);
    let flat = grid(8, &[(4, 0), (5, 0), (6, 0)]);
    assert_eq!(reference_step(8, &upright), flat);
    assert_eq!(reference_step(8, &flat), upright);
}

#[test]
fn corner_cell_has_the_three_other_corners_as_neighbors() {
    // Three corners alive: the fourth is born, and each of the three has the
    // other two as neighbors and stays.
    let three = grid(8, &[(0, 0), (7, 0), (0, 7)]);
    let four = grid(8, &[(0, 0), (7, 0), (0, 7), (7, 7)]);
    assert_eq!(reference_step(8, &three), four);
    assert_eq!(reference_step(8, &four), four);
}

#[test]
fn empty_grid_stays_empty() {
    assert_eq!(reference_step(16, &vec![0u8; 256]), vec![0u8; 256]);
}

#[test]
fn full_grid_dies_of_crowding() {
    assert_eq!(reference_step(16, &vec![1u8; 256]), vec![0u8; 256]);
}

#[test]
fn lone_cell_dies() {
    assert_eq!(reference_step(8, &grid(8, &[(4, 4)])), vec![0u8; 64]);
}

#[test]
fn grid_of_no_cells_has_a_next_generation_of_no_cells() {
    assert!(reference_step(0, &[]).is_empty());
}

#[test]
fn only_a_cell_that_holds_one_counts_as_alive() {
    let mut cells = grid(8, &[(2, 3), (4, 3)]);
    cells[3 * 8 + 3] = 2;
    // The two live cells have no live neighbor, and the cells above and
    // below the middle have two.
    assert_eq!(reference_step(8, &cells), vec![0u8; 64]);
}
