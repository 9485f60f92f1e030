use wgpu_gol::seed::{cell_of, random_state};
use wgpu_gol::LifeSimulation;

#[test]
fn cell_of_a_sample_is_its_lowest_bit() {
    assert_eq!(cell_of(0), 0);
    assert_eq!(cell_of(1), 1);
    assert_eq!(cell_of(2), 0);
    assert_eq!(cell_of(0xffff_ffff), 1);
    assert_eq!(cell_of(0xffff_fffe), 0);
    assert_eq!(cell_of(0x8000_0001), 1);
}

#[test]
fn random_state_has_one_binary_cell_for_each_cell() {
    for num_cells in [0usize, 1, 64, 4096] {
        let state = random_state(num_cells);
        assert_eq!(state.len(), num_cells);
        assert!(state.iter().all(|cell| *cell <= 1));
    }
}

#[test]
fn random_state_is_not_constant() {
    // 4096 fair coins all landing on one side: once in 2^4095 runs.
    let state = random_state(4096);
    assert!(state.iter().any(|cell| *cell == 0));
    assert!(state.iter().any(|cell| *cell == 1));
}

#[test]
fn random_state_starts_a_simulation() {
    let state = random_state(64 * 64);
    assert!(LifeSimulation::new(64, &state).is_ok());
}
