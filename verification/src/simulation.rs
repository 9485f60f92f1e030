//! The host side of the simulation: which buffer holds the current
//! generation, what to ask of the device for a step, a reset or a readback,
//! and how to read what comes back.
//!
//! Nothing here touches the device. Each operation updates the host's
//! bookkeeping and returns the command for the caller to carry out.

use vstd::prelude::*;
use crate::bytes::{bytes_as_words, native_bytes, words_to_bytes};
use crate::codec::{pack_grid, pack_spec, unpack_grid, unpack_spec};
use crate::device::{
    held_grid, BindGroupPlan, BufferCopy, BufferWrite, ComputePass, DeviceSetup,
};
use crate::layout;
use crate::layout::{
    lemma_bytes_fit, lemma_counts_fit, valid_grid_size, MAX_GRID_SIZE, WORKGROUP_SIZE,
};

verus! {

/// Why a simulation cannot be built on, or reset to, a given state.
#[derive(Debug, Clone, Copy, PartialEq, Eq)]
pub enum ConstructionError {
    /// The grid size is zero or no multiple of the work-group size.
    GridSize { grid_size: u32 },
    /// The grid has more cells than a `u32` can count.
    GridTooLarge { grid_size: u32 },
    /// The state does not have one byte for each cell.
    StateLength { expected: usize, actual: usize },
}

/// Why what the device handed back cannot be read as a grid.
#[derive(Debug, Clone, Copy, PartialEq, Eq)]
pub enum DeviceError {
    /// The mapped range cannot be read as 32-bit words.
    MappedLayout,
    /// The range holds fewer words than a packed grid has.
    MappedLength { expected: usize, actual: usize },
}

/// The host's record of a simulation: the sizes of the grid, fixed when it
/// is built, and the step counter.
#[derive(Debug, Clone, Copy, PartialEq, Eq)]
pub struct LifeSimulation {
    /// Steps encoded since the state was last set. Its parity tells which
    /// buffer holds the current generation.
    pub step: u64,
    /// The size in **cells** of the grid. This will be different from the
    /// number of blocks in the grid.
    pub logical_grid_size: u32,
    /// The total number of cells in the grid.
    ///
    /// Always `logical_grid_size` squared.
    pub num_cells: usize,
    /// The size in **blocks** of the grid. This will not be square because the
    /// individual blocks represent rectangular chunks of the grid.
    pub physical_grid_size: [u32; 2],
    /// The total number of `u32` blocks in state buffers.
    ///
    /// Always `physical_grid_size[0] * physical_grid_size[1]`.
    pub num_blocks: u32,
}

/// `len` zero words.
pub open spec fn zero_words(len: int) -> Seq<u32> {
    Seq::new(len as nat, |i: int| 0u32)
}

/// The error that building a simulation of `grid_size` cells per side on a
/// state of `len` bytes ends in, if any. The grid size is looked at first.
pub open spec fn construction_error(grid_size: u32, len: usize) -> Option<ConstructionError> {
    if grid_size == 0 || grid_size % WORKGROUP_SIZE != 0 {
        Some(ConstructionError::GridSize { grid_size })
    } else if grid_size > MAX_GRID_SIZE {
        Some(ConstructionError::GridTooLarge { grid_size })
    } else if len != grid_size * grid_size {
        Some(
            ConstructionError::StateLength {
                expected: (grid_size * grid_size) as usize,
                actual: len,
            },
        )
    } else {
        None
    }
}

/// The generation buffer that a set of kernel bindings reads: its own number.
pub open spec fn bind_group_source(bind_group: int) -> int {
    bind_group
}

/// The generation buffer that a set of kernel bindings writes: the other one.
pub open spec fn bind_group_target(bind_group: int) -> int {
    1 - bind_group
}

impl LifeSimulation {
    /// The sizes agree with each other and the grid size is one that a
    /// simulation can have.
    pub open spec fn wf(&self) -> bool {
        let n = self.logical_grid_size as int;
        &&& valid_grid_size(n)
        &&& self.num_cells == layout::num_cells(n)
        &&& self.physical_grid_size[0] == layout::block_width(n)
        &&& self.physical_grid_size[1] == n
        &&& self.num_blocks == layout::num_blocks(n)
    }

    /// Cells per side, as an `int`.
    pub open spec fn size(&self) -> int {
        self.logical_grid_size as int
    }

    /// The number of the buffer that holds the current generation: A (0)
    /// after an even number of steps, B (1) after an odd number.
    pub open spec fn current_spec(&self) -> int {
        (self.step % 2) as int
    }

    /// The number of the buffer that the next step writes: the other one.
    pub open spec fn next_spec(&self) -> int {
        1 - self.current_spec()
    }

    /// Whether `self` is `before` with the step counter set to `step` and
    /// nothing else changed.
    pub open spec fn is_at_step(&self, before: &LifeSimulation, step: int) -> bool {
        &&& self.step == step
        &&& self.logical_grid_size == before.logical_grid_size
        &&& self.num_cells == before.num_cells
        &&& self.physical_grid_size == before.physical_grid_size
        &&& self.num_blocks == before.num_blocks
    }

    /// Checks the grid size and the length of the initial state, packs the
    /// state and says what to create on the device: generation buffer A with
    /// the packed state, buffer B and the staging buffer with zeros, and the
    /// two sets of kernel bindings. Buffer contents are given as the bytes
    /// that the words are in host memory. The step counter starts at 0.
    pub fn new(grid_size: u32, initial_state: &[u8]) -> (built: Result<
        (LifeSimulation, DeviceSetup),
        ConstructionError,
    >)
        ensures
            match built {
                Ok((sim, setup)) => {
                    &&& construction_error(grid_size, initial_state.len()) is None
                    &&& sim.wf()
                    &&& sim.step == 0
                    &&& sim.logical_grid_size == grid_size
                    &&& setup.grid_size == grid_size
                    &&& setup.physical_grid_size@ == native_bytes(sim.physical_grid_size@)
                    &&& setup.state_a@ == native_bytes(pack_spec(grid_size as int, initial_state@))
                    &&& setup.empty_state@ == native_bytes(
                        zero_words(layout::num_blocks(grid_size as int)),
                    )
                    &&& forall|i: int|
                        0 <= i < 2 ==> {
                            &&& (#[trigger] setup.bind_groups[i]).source == bind_group_source(i)
                            &&& setup.bind_groups[i].target == bind_group_target(i)
                        }
                },
                Err(error) => construction_error(grid_size, initial_state.len()) == Some(error),
            },
    {
        // Make sure the grid size is a multiple of the workgroup size so that
        // the simulation can be broken up cleanly into workgroups.
        if grid_size == 0 || grid_size % WORKGROUP_SIZE != 0 {
            return Err(ConstructionError::GridSize { grid_size });
        }
        if grid_size > MAX_GRID_SIZE {
            return Err(ConstructionError::GridTooLarge { grid_size });
        }
        proof {
            lemma_counts_fit(grid_size as int);
        }

        let num_cells: usize = (grid_size * grid_size) as usize;

        // Make sure the initial state is the right size.
        if initial_state.len() != num_cells {
            return Err(
                ConstructionError::StateLength { expected: num_cells, actual: initial_state.len() },
            );
        }

        // Convert the list of bytes to a list of u32s.
        let (packed_state, physical_grid_size) = pack_grid(grid_size, initial_state);
        let num_blocks: u32 = physical_grid_size[0] * physical_grid_size[1];

        let empty_state: Vec<u32> = vec![0u32; num_blocks as usize];
        assert(empty_state@ =~= zero_words(layout::num_blocks(grid_size as int)));

        let bind_group_a = BindGroupPlan { source: 0, target: 1 };
        let bind_group_b = BindGroupPlan { source: 1, target: 0 };

        let setup = DeviceSetup {
            grid_size,
            physical_grid_size: words_to_bytes(physical_grid_size.as_slice()),
            state_a: words_to_bytes(packed_state.as_slice()),
            empty_state: words_to_bytes(empty_state.as_slice()),
            bind_groups: [bind_group_a, bind_group_b],
        };
        let sim = LifeSimulation {
            step: 0,
            logical_grid_size: grid_size,
            num_cells,
            physical_grid_size,
            num_blocks,
        };
        Ok((sim, setup))
    }

    /// Whether the sizes agree with each other, as every other operation
    /// asks.
    pub fn is_well_formed(&self) -> (ok: bool)
        ensures
            ok == self.wf(),
    {
        let n: u32 = self.logical_grid_size;
        if n == 0 || n % WORKGROUP_SIZE != 0 || n > MAX_GRID_SIZE {
            return false;
        }
        proof {
            lemma_counts_fit(n as int);
        }
        let width: u32 = layout::words_per_row(n);
        self.num_cells == (n * n) as usize && self.physical_grid_size[0] == width
            && self.physical_grid_size[1] == n && self.num_blocks == width * n
    }

    /// The number of the buffer that holds the current generation.
    pub fn current(&self) -> (index: usize)
        ensures
            index == self.current_spec(),
            index < 2,
    {
        (self.step % 2) as usize
    }

    /// The number of the buffer that the next step writes.
    pub fn next(&self) -> (index: usize)
        ensures
            index == self.next_spec(),
            index < 2,
            index != self.current_spec(),
    {
        1 - (self.step % 2) as usize
    }

    /// Restarts the simulation from `state`: the packed state is to be
    /// written over all of buffer A, and the step counter goes back to 0, so
    /// that buffer A is the input of the next step whatever the parity was.
    /// A state of the wrong length changes nothing.
    pub fn reset_state(&mut self, state: &[u8]) -> (write: Result<BufferWrite, ConstructionError>)
        requires
            old(self).wf(),
        ensures
            match write {
                Ok(write) => {
                    &&& state.len() == old(self).num_cells
                    &&& final(self).is_at_step(old(self), 0)
                    &&& write.target == 0
                    &&& write.offset == 0
                    &&& write.data@ == native_bytes(pack_spec(old(self).size(), state@))
                },
                Err(error) => {
                    &&& state.len() != old(self).num_cells
                    &&& error == (ConstructionError::StateLength {
                        expected: old(self).num_cells,
                        actual: state.len(),
                    })
                    &&& *final(self) == *old(self)
                },
            },
    {
        if state.len() != self.num_cells {
            return Err(
                ConstructionError::StateLength { expected: self.num_cells, actual: state.len() },
            );
        }
        proof {
            lemma_counts_fit(self.size());
        }

        // Reset the step counter so that we're always writing to the first
        // buffer and that buffer will be the input for the next tick.
        self.step = 0;

        // Convert the list of bytes to a list of u32s.
        let in_state: Vec<u32> = pack_grid(self.logical_grid_size, state).0;

        Ok(BufferWrite { target: 0, offset: 0, data: words_to_bytes(in_state.as_slice()) })
    }

    /// Encodes one step: a kernel pass with the bindings that read the
    /// current buffer and write the other one, over as many work-groups of 8
    /// by 8 cells as cover the grid exactly. The step counter goes up by one,
    /// which makes the buffer just written the current one.
    pub fn encode_compute_pass(&mut self) -> (pass: ComputePass)
        requires
            old(self).wf(),
            old(self).step < u64::MAX,
        ensures
            final(self).is_at_step(old(self), old(self).step + 1),
            pass.bind_group == old(self).current_spec(),
            bind_group_source(pass.bind_group as int) == old(self).current_spec(),
            bind_group_target(pass.bind_group as int) == old(self).next_spec(),
            bind_group_target(pass.bind_group as int) == final(self).current_spec(),
            pass.workgroups[0] * WORKGROUP_SIZE == old(self).logical_grid_size,
            pass.workgroups[1] * WORKGROUP_SIZE == old(self).logical_grid_size,
            pass.workgroups[2] == 1,
    {
        let pass = ComputePass {
            bind_group: (self.step % 2) as usize,
            workgroups: [
                self.logical_grid_size / WORKGROUP_SIZE,
                self.logical_grid_size / WORKGROUP_SIZE,
                1,
            ],
        };

        self.step += 1;

        pass
    }

    /// Tells the GPU to copy the current state of the simulation to the read
    /// buffer: all of the buffer that holds the current generation, as the
    /// step counter stands at the time of the call.
    ///
    /// This must be carried out before reading from the read buffer. Trying
    /// to read the state without it will yield old state data.
    pub fn encode_read(&self) -> (copy: BufferCopy)
        requires
            self.wf(),
        ensures
            copy.source == self.current_spec(),
            copy.source_offset == 0,
            copy.destination_offset == 0,
            copy.size == 4 * self.num_blocks,
    {
        broadcast use vstd::layout::layout_of_primitives;

        proof {
            lemma_bytes_fit(self.size());
        }
        let word_size: usize = core::mem::size_of::<u32>();
        BufferCopy {
            source: (self.step % 2) as usize,
            source_offset: 0,
            destination_offset: 0,
            size: (self.num_blocks as usize * word_size) as u64,
        }
    }

    /// Unpacks the words that the staging buffer held after a copy: the grid
    /// state, one byte per cell. Fails where there are fewer words than a
    /// packed grid has; words beyond that are ignored.
    pub fn read_words(&self, words: &[u32]) -> (grid: Result<Vec<u8>, DeviceError>)
        requires
            self.wf(),
        ensures
            match grid {
                Ok(cells) => {
                    &&& words.len() >= self.num_blocks
                    &&& cells@ == unpack_spec(self.size(), words@)
                },
                Err(error) => {
                    &&& words.len() < self.num_blocks
                    &&& error == (DeviceError::MappedLength {
                        expected: self.num_blocks as usize,
                        actual: words.len(),
                    })
                },
            },
    {
        if words.len() < self.num_blocks as usize {
            return Err(
                DeviceError::MappedLength {
                    expected: self.num_blocks as usize,
                    actual: words.len(),
                },
            );
        }
        proof {
            lemma_counts_fit(self.size());
        }
        Ok(unpack_grid(self.logical_grid_size, words))
    }

    /// Reads the grid state out of the mapped staging buffer, once the copy
    /// of [`LifeSimulation::encode_read`] has completed and the buffer is
    /// mapped.
    ///
    /// The result is the grid that the bytes hold: they are read as the
    /// words that they are in host memory, and the words are unpacked.
    /// Whether the bytes can be read as words depends on their length, which
    /// must be a multiple of four, and on the address they start at; a range
    /// mapped from a device buffer starts at a fitting one.
    pub fn read_state(&self, mapped: &[u8]) -> (grid: Result<Vec<u8>, DeviceError>)
        requires
            self.wf(),
        ensures
            match grid {
                Ok(cells) => {
                    &&& mapped.len() % 4 == 0
                    &&& mapped.len() / 4 >= self.num_blocks
                    &&& cells@ == held_grid(self.size(), mapped@)
                },
                Err(DeviceError::MappedLength { expected, actual }) => {
                    &&& mapped.len() % 4 == 0
                    &&& mapped.len() / 4 < self.num_blocks
                    &&& expected == self.num_blocks
                    &&& actual == mapped.len() / 4
                },
                Err(DeviceError::MappedLayout) => true,
            },
            mapped.len() % 4 != 0 ==> grid == Err::<Vec<u8>, DeviceError>(DeviceError::MappedLayout),
            mapped.len() % 4 == 0 && mapped.len() / 4 < self.num_blocks ==> grid is Err,
    {
        // Convert the raw data to a byte array.
        match bytes_as_words(mapped) {
            Ok(raw_data) => self.read_words(raw_data),
            Err(_) => Err(DeviceError::MappedLayout),
        }
    }
}

} // verus!
