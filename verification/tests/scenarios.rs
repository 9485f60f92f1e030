//! Whole runs of a simulation against a device that lives in host memory:
//! it carries out the commands as a real device would and runs the
//! library's reference step in place of the kernel.

use wgpu_gol::codec::{pack_grid, unpack_grid};
use wgpu_gol::device::{BindGroupPlan, BufferCopy, BufferWrite, ComputePass, DeviceSetup};
use wgpu_gol::kernel::reference_step;
use wgpu_gol::pattern::copy_to_grid;
use wgpu_gol::LifeSimulation;

const GLIDER_1: [u8; 64] = [
    0, 0, 1, 0, 0, 0, 0, 0, //
    1, 0, 1, 0, 0, 0, 0, 0, //
    0, 1, 1, 0, 0, 0, 0, 0, //
    0, 0, 0, 0, 0, 0, 0, 0, //
    0, 0, 0, 0, 0, 0, 0, 0, //
    0, 0, 0, 0, 0, 0, 0, 0, //
    0, 0, 0, 0, 0, 0, 0, 0, //
    0, 0, 0, 0, 0, 0, 0, 0, //
];

const GLIDER_2: [u8; 64] = [
    0, 1, 0, 0, 0, 0, 0, 0, //
    0, 0, 1, 1, 0, 0, 0, 0, //
    0, 1, 1, 0, 0, 0, 0, 0, //
    0, 0, 0, 0, 0, 0, 0, 0, //
    0, 0, 0, 0, 0, 0, 0, 0, //
    0, 0, 0, 0, 0, 0, 0, 0, //
    0, 0, 0, 0, 0, 0, 0, 0, //
    0, 0, 0, 0, 0, 0, 0, 0, //
];

const GLIDER_3: [u8; 64] = [
    0, 0, 1, 0, 0, 0, 0, 0, //
    0, 0, 0, 1, 0, 0, 0, 0, //
    0, 1, 1, 1, 0, 0, 0, 0, //
    0, 0, 0, 0, 0, 0, 0, 0, //
    0, 0, 0, 0, 0, 0, 0, 0, //
    0, 0, 0, 0, 0, 0, 0, 0, //
    0, 0, 0, 0, 0, 0, 0, 0, //
    0, 0, 0, 0, 0, 0, 0, 0, //
];

struct SoftwareDevice {
    grid_size: u32,
    bind_groups: [BindGroupPlan; 2],
    state_bufs: [Vec<u32>; 2],
    read_buf: Vec<u32>,
}

/// The words that `bytes` are in host memory.
fn words_of(bytes: &[u8]) -> Vec<u32> {
    assert_eq!(bytes.len() % 4, 0);
    bytes
        .chunks_exact(4)
        .map(|word| u32::from_ne_bytes([word[0], word[1], word[2], word[3]]))
        .collect()
}

impl SoftwareDevice {
    fn create(setup: &DeviceSetup) -> SoftwareDevice {
        SoftwareDevice {
            grid_size: setup.grid_size,
            bind_groups: setup.bind_groups,
            state_bufs: [words_of(&setup.state_a), words_of(&setup.empty_state)],
            read_buf: words_of(&setup.empty_state),
        }
    }

    fn write(&mut self, write: &BufferWrite) {
        assert_eq!(write.offset % 4, 0);
        let start = (write.offset / 4) as usize;
        let words = words_of(&write.data);
        self.state_bufs[write.target][start..][..words.len()].copy_from_slice(&words);
    }

    fn run(&mut self, pass: &ComputePass) {
        assert_eq!(
            pass.workgroups,
            [self.grid_size / 8, self.grid_size / 8, 1]
        );
        let BindGroupPlan { source, target } = self.bind_groups[pass.bind_group];
        assert_ne!(source, target);
        let current = unpack_grid(self.grid_size, &self.state_bufs[source]);
        let next = reference_step(self.grid_size, &current);
        self.state_bufs[target] = pack_grid(self.grid_size, &next).0;
    }

    fn copy(&mut self, copy: &BufferCopy) {
        assert_eq!(copy.source_offset % 4, 0);
        assert_eq!(copy.destination_offset % 4, 0);
        assert_eq!(copy.size % 4, 0);
        let from = (copy.source_offset / 4) as usize;
        let to = (copy.destination_offset / 4) as usize;
        let len = (copy.size / 4) as usize;
        let words = self.state_bufs[copy.source][from..][..len].to_vec();
        self.read_buf[to..][..len].copy_from_slice(&words);
    }

    fn mapped(&self) -> &[u8] {
        bytemuck::cast_slice(&self.read_buf)
    }
}

fn start(grid_size: u32, initial_state: &[u8]) -> (LifeSimulation, SoftwareDevice) {
    let (sim, setup) = LifeSimulation::new(grid_size, initial_state).unwrap();
    let device = SoftwareDevice::create(&setup);
    (sim, device)
}

fn do_step(sim: &mut LifeSimulation, device: &mut SoftwareDevice) {
    let pass = sim.encode_compute_pass();
    device.run(&pass);
}

fn reset_state(sim: &mut LifeSimulation, device: &mut SoftwareDevice, state: &[u8]) {
    let write = sim.reset_state(state).unwrap();
    device.write(&write);
}

fn read_state(sim: &LifeSimulation, device: &mut SoftwareDevice) -> Vec<u8> {
    let copy = sim.encode_read();
    device.copy(&copy);
    sim.read_state(device.mapped()).unwrap()
}

fn assert_grid_eq(grid_size: usize, expected: &[u8], actual: &[u8]) {
    assert_eq!(expected.len(), grid_size * grid_size);
    assert_eq!(actual.len(), grid_size * grid_size);

    if expected != actual {
        println!("Grids do not match!");
        println!("Expected grid: [");
        for row in expected.chunks(grid_size) {
            println!("{:?}", row);
        }
        println!("]");

        println!("Actual grid: [");
        for row in actual.chunks(grid_size) {
            println!("{:?}", row);
        }
        println!("]");

        panic!("assert_grid_eq failed: grids do not match");
    }
}

/// The glider test of the large grid, for the pattern offsets whose column
/// lies in `columns`.
fn big_grid(columns: std::ops::Range<usize>) {
    const GRID_SIZE: usize = 64;

    let (mut sim, mut device) = start(64, &[0; GRID_SIZE * GRID_SIZE]);

    for x_off in columns {
        for y_off in 0..GRID_SIZE - 8 {
            // Initialize the full grid states by copying the smaller glider
            // patterns into the full buffer.

            let mut big_state_1 = [0u8; GRID_SIZE * GRID_SIZE];
            copy_to_grid(&GLIDER_1, &mut big_state_1, [x_off, y_off]);

            let mut big_state_2 = [0u8; GRID_SIZE * GRID_SIZE];
            copy_to_grid(&GLIDER_2, &mut big_state_2, [x_off, y_off]);

            let mut big_state_3 = [0u8; GRID_SIZE * GRID_SIZE];
            copy_to_grid(&GLIDER_3, &mut big_state_3, [x_off, y_off]);

            // Run the actual test.
            reset_state(&mut sim, &mut device, &big_state_1);

            do_step(&mut sim, &mut device);

            let state = read_state(&sim, &mut device);
            assert_grid_eq(GRID_SIZE, &big_state_2, &state);

            do_step(&mut sim, &mut device);

            let state = read_state(&sim, &mut device);
            assert_grid_eq(GRID_SIZE, &big_state_3, &state);
        }
    }
}

#[test]
fn zero_steps() {
    const GRID_SIZE: usize = 8;

    let all_on = [1; GRID_SIZE * GRID_SIZE];

    let (mut sim, mut device) = start(GRID_SIZE as u32, &all_on);

    let state = read_state(&sim, &mut device);
    assert_grid_eq(GRID_SIZE, &state, &all_on);

    let all_off = [0; GRID_SIZE * GRID_SIZE];
    reset_state(&mut sim, &mut device, &all_off);

    let state = read_state(&sim, &mut device);
    assert_grid_eq(GRID_SIZE, &state, &all_off);
}

#[test]
fn still_life() {
    const GRID_SIZE: usize = 8;

    let init_state = [
        0, 0, 0, 0, 0, 0, 0, 0, //
        0, 1, 1, 0, 0, 0, 0, 0, //
        0, 1, 1, 0, 0, 0, 0, 0, //
        0, 0, 0, 0, 0, 0, 0, 0, //
        0, 0, 0, 0, 0, 0, 0, 0, //
        0, 0, 0, 0, 0, 1, 1, 0, //
        0, 0, 0, 0, 1, 0, 1, 0, //
        0, 0, 0, 0, 1, 1, 0, 0, //
    ];

    let (mut sim, mut device) = start(GRID_SIZE as u32, &init_state);

    do_step(&mut sim, &mut device);

    let state = read_state(&sim, &mut device);
    assert_grid_eq(GRID_SIZE, &init_state, &state);

    do_step(&mut sim, &mut device);

    let state = read_state(&sim, &mut device);
    assert_grid_eq(GRID_SIZE, &init_state, &state);
}

#[test]
fn glider() {
    const GRID_SIZE: usize = 8;

    let (mut sim, mut device) = start(GRID_SIZE as u32, &GLIDER_1);

    do_step(&mut sim, &mut device);
    let state = read_state(&sim, &mut device);
    assert_grid_eq(GRID_SIZE, &state, &GLIDER_2);

    do_step(&mut sim, &mut device);
    let state = read_state(&sim, &mut device);
    assert_grid_eq(GRID_SIZE, &state, &GLIDER_3);
}

#[test]
fn big_grid_columns_0_to_13() {
    big_grid(0..14);
}

#[test]
fn big_grid_columns_14_to_27() {
    big_grid(14..28);
}

#[test]
fn big_grid_columns_28_to_41() {
    big_grid(28..42);
}

#[test]
fn big_grid_columns_42_to_55() {
    big_grid(42..56);
}

#[test]
fn block_survives_many_steps() {
    let mut init_state = vec![0u8; 32 * 32];
    for (x, y) in [(30, 9), (31, 9), (30, 10), (31, 10)] {
        init_state[y * 32 + x] = 1;
    }
    let (mut sim, mut device) = start(32, &init_state);
    for _ in 0..9 {
        do_step(&mut sim, &mut device);
        assert_grid_eq(32, &init_state, &read_state(&sim, &mut device));
    }
}

#[test]
fn block_across_the_corner_is_a_still_life() {
    // One block, its four cells in the four corners of the grid.
    let mut init_state = vec![0u8; 64];
    for i in [0, 7, 56, 63] {
        init_state[i] = 1;
    }
    let (mut sim, mut device) = start(8, &init_state);
    for _ in 0..3 {
        do_step(&mut sim, &mut device);
        assert_grid_eq(8, &init_state, &read_state(&sim, &mut device));
    }
}

#[test]
fn reset_after_steps_reads_back_the_new_state_only() {
    for steps in 0..5 {
        let (mut sim, mut device) = start(8, &GLIDER_1);
        for _ in 0..steps {
            do_step(&mut sim, &mut device);
        }

        reset_state(&mut sim, &mut device, &GLIDER_3);
        let state = read_state(&sim, &mut device);
        assert_grid_eq(8, &GLIDER_3, &state);

        // And the next step starts from the new state.
        reset_state(&mut sim, &mut device, &GLIDER_1);
        do_step(&mut sim, &mut device);
        let state = read_state(&sim, &mut device);
        assert_grid_eq(8, &GLIDER_2, &state);
    }
}

#[test]
fn reading_twice_gives_the_same_state() {
    let (mut sim, mut device) = start(8, &GLIDER_1);
    do_step(&mut sim, &mut device);
    let first = read_state(&sim, &mut device);
    let second = read_state(&sim, &mut device);
    assert_grid_eq(8, &first, &second);
    assert_grid_eq(8, &first, &GLIDER_2);
}

#[test]
fn pattern_evolves_alike_in_a_small_and_a_large_grid() {
    let (mut small_sim, mut small_device) = start(8, &GLIDER_1);

    let mut embedded = vec![0u8; 64 * 64];
    copy_to_grid(&GLIDER_1, &mut embedded, [24, 32]);
    let (mut large_sim, mut large_device) = start(64, &embedded);

    for _ in 0..8 {
        do_step(&mut small_sim, &mut small_device);
        do_step(&mut large_sim, &mut large_device);

        let small = read_state(&small_sim, &mut small_device);
        let large = read_state(&large_sim, &mut large_device);

        let mut expected = vec![0u8; 64 * 64];
        copy_to_grid(&small, &mut expected, [24, 32]);
        assert_grid_eq(64, &expected, &large);
    }
}

#[test]
fn steps_batched_without_reading_end_in_the_same_state() {
    let (mut sim, mut device) = start(8, &GLIDER_1);
    let passes = [sim.encode_compute_pass(), sim.encode_compute_pass()];
    let copy = sim.encode_read();
    for pass in &passes {
        device.run(pass);
    }
    device.copy(&copy);
    assert_grid_eq(8, &GLIDER_3, &sim.read_state(device.mapped()).unwrap());
}
