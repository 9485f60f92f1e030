//! What the simulation asks of the device, as plain values that the caller
//! carries out, and a model of the device memory to state what carrying them
//! out leads to.
//!
//! The device holds two generation buffers, numbered 0 (A) and 1 (B), and one
//! staging buffer that the host can map and read. Buffers hold bytes; sizes
//! and offsets are in bytes.

use vstd::prelude::*;
use crate::bytes::{lemma_words_of_bytes, native_bytes, native_words};
use crate::codec::{is_binary, lemma_unpack_pack, pack_spec, unpack_spec};
use crate::kernel::next_generation;
use crate::layout::{num_blocks, num_cells};

verus! {

/// Binding of the uniform that holds the grid size in cells.
pub const GRID_SIZE_BINDING: u32 = 0;

/// Binding of the generation buffer that the kernel reads.
pub const SOURCE_BINDING: u32 = 1;

/// Binding of the generation buffer that the kernel writes.
pub const TARGET_BINDING: u32 = 2;

/// Binding of the uniform that holds the size of the packed grid in words.
pub const PHYSICAL_GRID_SIZE_BINDING: u32 = 3;

/// The two generation buffers that one set of kernel bindings names: the
/// kernel reads buffer `source`, bound at [`SOURCE_BINDING`], and writes
/// buffer `target`, bound at [`TARGET_BINDING`].
#[derive(Debug, Clone, Copy, PartialEq, Eq)]
pub struct BindGroupPlan {
    pub source: usize,
    pub target: usize,
}

/// What to create on the device for a new simulation.
#[derive(Debug, PartialEq, Eq)]
pub struct DeviceSetup {
    /// Cells per side, for the kernel's grid-size uniform.
    pub grid_size: u32,
    /// The contents of the kernel's packed-size uniform: words per row, then
    /// rows.
    pub physical_grid_size: Vec<u8>,
    /// The contents of generation buffer A: the packed initial state.
    pub state_a: Vec<u8>,
    /// The contents of generation buffer B and of the staging buffer: as
    /// many zero words as a packed grid has.
    pub empty_state: Vec<u8>,
    /// The two sets of kernel bindings, one for each parity of the step
    /// counter.
    pub bind_groups: [BindGroupPlan; 2],
}

/// One kernel invocation: which set of bindings to use and how many
/// work-groups to start along each axis.
#[derive(Debug, Clone, Copy, PartialEq, Eq)]
pub struct ComputePass {
    pub bind_group: usize,
    pub workgroups: [u32; 3],
}

/// A copy of `size` bytes from a generation buffer into the staging buffer.
#[derive(Debug, Clone, Copy, PartialEq, Eq)]
pub struct BufferCopy {
    pub source: usize,
    pub source_offset: u64,
    pub destination_offset: u64,
    pub size: u64,
}

/// A write of `data` into a generation buffer, `offset` bytes from its start.
#[derive(Debug, PartialEq, Eq)]
pub struct BufferWrite {
    pub target: usize,
    pub offset: u64,
    pub data: Vec<u8>,
}

/// `base` with the bytes of `data` laid over it from index `at` on.
pub open spec fn overlay(base: Seq<u8>, at: int, data: Seq<u8>) -> Seq<u8> {
    Seq::new(
        base.len(),
        |i: int|
            if at <= i < at + data.len() {
                data[i - at]
            } else {
                base[i]
            },
    )
}

/// The grid of `n` cells per side that a buffer with the contents `bytes`
/// holds.
pub open spec fn held_grid(n: int, bytes: Seq<u8>) -> Seq<u8> {
    unpack_spec(n, native_words(bytes))
}

/// What one kernel pass owes: the buffer it wrote, `target`, holds the
/// generation that follows the one held by the buffer it read, `source`.
/// Bits of `target` that stand for no cell are left open.
pub open spec fn is_kernel_output(n: int, source: Seq<u8>, target: Seq<u8>) -> bool {
    &&& target.len() == source.len()
    &&& held_grid(n, target) == next_generation(n, held_grid(n, source))
}

/// The bytes that the device buffers hold.
pub struct DeviceMemory {
    /// The two generation buffers.
    pub state: Seq<Seq<u8>>,
    /// The staging buffer.
    pub staging: Seq<u8>,
}

impl DeviceMemory {
    /// Buffers of the right number and size for a grid of `n` cells per side.
    pub open spec fn wf(self, n: int) -> bool {
        &&& self.state.len() == 2
        &&& self.state[0].len() == 4 * num_blocks(n)
        &&& self.state[1].len() == 4 * num_blocks(n)
        &&& self.staging.len() == 4 * num_blocks(n)
    }

    /// The memory after buffers were created with the given contents.
    pub open spec fn created(state_a: Seq<u8>, empty_state: Seq<u8>) -> DeviceMemory {
        DeviceMemory { state: seq![state_a, empty_state], staging: empty_state }
    }

    /// The memory after `data` was written into generation buffer `target`,
    /// `offset` bytes from its start.
    pub open spec fn written(self, target: int, offset: int, data: Seq<u8>) -> DeviceMemory {
        DeviceMemory {
            state: self.state.update(target, overlay(self.state[target], offset, data)),
            staging: self.staging,
        }
    }

    /// The memory after `size` bytes were copied from generation buffer
    /// `source` into the staging buffer.
    pub open spec fn copied(
        self,
        source: int,
        source_offset: int,
        destination_offset: int,
        size: int,
    ) -> DeviceMemory {
        DeviceMemory {
            state: self.state,
            staging: overlay(
                self.staging,
                destination_offset,
                self.state[source].subrange(source_offset, source_offset + size),
            ),
        }
    }

    /// Whether `after` can be the memory once a kernel pass that reads
    /// buffer `source` and writes buffer `target` has run on `self`: the
    /// target holds the next generation, and nothing else has changed.
    pub open spec fn passed(self, n: int, source: int, target: int, after: DeviceMemory) -> bool {
        &&& after.state.len() == self.state.len()
        &&& after.staging == self.staging
        &&& after.state[source] == self.state[source]
        &&& is_kernel_output(n, self.state[source], after.state[target])
    }
}

/// A buffer filled with the bytes of a packed grid of dead and live cells
/// holds that grid.
pub proof fn lemma_held_grid_of_packed(n: int, grid: Seq<u8>)
    requires
        n >= 0,
        grid.len() == num_cells(n),
        is_binary(grid),
    ensures
        held_grid(n, native_bytes(pack_spec(n, grid))) == grid,
        native_bytes(pack_spec(n, grid)).len() == 4 * num_blocks(n),
{
    lemma_words_of_bytes(pack_spec(n, grid));
    lemma_unpack_pack(n, grid);
    assert(num_blocks(n) >= 0) by (nonlinear_arith)
        requires
            n >= 0,
            num_blocks(n) == ((n + 31) / 32) * n,
    ;
}

/// The contract can be kept: whatever a buffer of the right size holds, the
/// bytes of the packed next generation are a kernel output for it.
pub proof fn lemma_kernel_output_exists(n: int, source: Seq<u8>)
    requires
        n >= 0,
        source.len() == 4 * num_blocks(n),
    ensures
        is_kernel_output(
            n,
            source,
            native_bytes(pack_spec(n, next_generation(n, held_grid(n, source)))),
        ),
{
    let next = next_generation(n, held_grid(n, source));
    assert(n * n >= 0) by (nonlinear_arith)
        requires
            n >= 0,
    ;
    assert(is_binary(next));
    lemma_held_grid_of_packed(n, next);
}

} // verus!
