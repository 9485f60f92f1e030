//! What the double-buffered protocol achieves: carried out on a device whose
//! kernel keeps its contract, the commands of a simulation make a readback
//! return the generation that the caller expects.

use vstd::prelude::*;
use crate::block::{block_grid, lemma_block_is_still_life};
use crate::bytes::native_bytes;
use crate::codec::{is_binary, pack_spec};
use crate::device::{held_grid, lemma_held_grid_of_packed, DeviceMemory};
use crate::kernel::{generation_after, is_still_life, lemma_still_life_forever};
use crate::layout::{num_blocks, num_cells, valid_grid_size};
use crate::simulation::{bind_group_source, bind_group_target, zero_words, LifeSimulation};

verus! {

/// The run of device memories that `steps` kernel passes lead through, from
/// `trace[0]` on: pass number `k`, counted from 0, uses the bindings that a
/// simulation picks when its step counter stands at `k`.
pub open spec fn is_run(n: int, trace: Seq<DeviceMemory>, steps: int) -> bool {
    &&& trace.len() == steps + 1
    &&& forall|k: int|
        0 <= k < steps ==> (#[trigger] trace[k]).passed(
            n,
            bind_group_source(k % 2),
            bind_group_target(k % 2),
            trace[k + 1],
        )
}

/// The staging buffer after the readback that a simulation encodes when its
/// step counter stands at `step`.
pub open spec fn read_back(n: int, memory: DeviceMemory, step: int) -> Seq<u8> {
    memory.copied(step % 2, 0, 0, 4 * num_blocks(n)).staging
}

/// A copy of a whole generation buffer leaves the staging buffer equal to it.
pub proof fn lemma_read_back_is_current(n: int, memory: DeviceMemory, step: int)
    requires
        memory.wf(n),
        step >= 0,
    ensures
        read_back(n, memory, step) == memory.state[step % 2],
{
    let source = memory.state[step % 2];
    assert(source.subrange(0, 4 * num_blocks(n)) =~= source);
    assert(read_back(n, memory, step) =~= source);
}

/// A step never reads the buffer that it writes, and it reads the buffer that
/// the step before it wrote.
pub proof fn lemma_buffers_alternate(sim: LifeSimulation, next: LifeSimulation)
    requires
        next.is_at_step(&sim, sim.step + 1),
    ensures
        bind_group_source(sim.current_spec()) != bind_group_target(sim.current_spec()),
        bind_group_target(sim.current_spec()) == next.current_spec(),
        bind_group_source(next.current_spec()) == bind_group_target(sim.current_spec()),
        bind_group_target(next.current_spec()) == bind_group_source(sim.current_spec()),
{
}

/// From a device whose buffer A holds `state`, after `steps` steps a readback
/// leaves the staging buffer holding the generation `steps` after `state`,
/// if every kernel pass kept its contract.
pub proof fn lemma_read_after_steps(n: int, state: Seq<u8>, trace: Seq<DeviceMemory>, steps: int)
    requires
        valid_grid_size(n),
        steps >= 0,
        is_run(n, trace, steps),
        trace[0].wf(n),
        held_grid(n, trace[0].state[0]) == state,
    ensures
        trace[steps].wf(n),
        held_grid(n, read_back(n, trace[steps], steps)) == generation_after(
            n,
            state,
            steps as nat,
        ),
    decreases steps,
{
    if steps > 0 {
        let shorter = trace.subrange(0, steps);
        assert(is_run(n, shorter, steps - 1)) by {
            assert forall|k: int| 0 <= k < steps - 1 implies (#[trigger] shorter[k]).passed(
                n,
                bind_group_source(k % 2),
                bind_group_target(k % 2),
                shorter[k + 1],
            ) by {
                assert(trace[k].passed(
                    n,
                    bind_group_source(k % 2),
                    bind_group_target(k % 2),
                    trace[k + 1],
                ));
            }
        }
        lemma_read_after_steps(n, state, shorter, steps - 1);
        let before = trace[steps - 1];
        let after = trace[steps];
        assert(before == shorter[steps - 1]);
        lemma_read_back_is_current(n, before, steps - 1);
        assert(before.passed(
            n,
            bind_group_source((steps - 1) % 2),
            bind_group_target((steps - 1) % 2),
            after,
        ));
        assert(bind_group_target((steps - 1) % 2) == steps % 2);
        assert(after.wf(n));
    }
    lemma_read_back_is_current(n, trace[steps], steps);
}

/// The device memory once the buffers of a simulation built on `state` have
/// been created.
pub open spec fn memory_after_new(n: int, state: Seq<u8>) -> DeviceMemory {
    DeviceMemory::created(
        native_bytes(pack_spec(n, state)),
        native_bytes(zero_words(num_blocks(n))),
    )
}

/// The device memory once the write of a reset to `state` has been carried
/// out on `memory`.
pub open spec fn memory_after_reset(n: int, memory: DeviceMemory, state: Seq<u8>) -> DeviceMemory {
    memory.written(0, 0, native_bytes(pack_spec(n, state)))
}

/// A new simulation read at once returns the state that it was built on.
pub proof fn lemma_read_after_new(n: int, state: Seq<u8>, sim: LifeSimulation)
    requires
        sim.wf(),
        sim.size() == n,
        sim.step == 0,
        state.len() == num_cells(n),
        is_binary(state),
    ensures
        memory_after_new(n, state).wf(n),
        held_grid(n, read_back(n, memory_after_new(n, state), sim.step as int)) == state,
{
    let memory = memory_after_new(n, state);
    lemma_held_grid_of_packed(n, state);
    assert(memory.wf(n));
    lemma_read_back_is_current(n, memory, 0);
}

/// A reset followed at once by a read returns the new state, whatever the
/// step counter and the buffers held before: no cell of an older generation
/// shows.
pub proof fn lemma_read_after_reset(
    sim: LifeSimulation,
    reset: LifeSimulation,
    memory: DeviceMemory,
    state: Seq<u8>,
)
    requires
        sim.wf(),
        memory.wf(sim.size()),
        reset.is_at_step(&sim, 0),
        state.len() == sim.num_cells,
        is_binary(state),
    ensures
        memory_after_reset(sim.size(), memory, state).wf(sim.size()),
        held_grid(
            sim.size(),
            read_back(sim.size(), memory_after_reset(sim.size(), memory, state), reset.step as int),
        ) == state,
{
    let n = sim.size();
    let bytes = native_bytes(pack_spec(n, state));
    let written = memory_after_reset(n, memory, state);
    lemma_held_grid_of_packed(n, state);
    assert(written.state[0] =~= bytes);
    assert(written.wf(n));
    lemma_read_back_is_current(n, written, 0);
}

/// A still life reads back unchanged after any number of steps.
pub proof fn lemma_still_life_reads_back(
    n: int,
    state: Seq<u8>,
    trace: Seq<DeviceMemory>,
    steps: int,
)
    requires
        valid_grid_size(n),
        steps >= 0,
        is_run(n, trace, steps),
        trace[0].wf(n),
        held_grid(n, trace[0].state[0]) == state,
        is_still_life(n, state),
    ensures
        held_grid(n, read_back(n, trace[steps], steps)) == state,
{
    lemma_read_after_steps(n, state, trace, steps);
    lemma_still_life_forever(n, state, steps as nat);
}

/// A block of two by two cells, alone on the grid at any place, reads back
/// unchanged after any number of steps.
pub proof fn lemma_block_reads_back(
    n: int,
    bx: int,
    by: int,
    trace: Seq<DeviceMemory>,
    steps: int,
)
    requires
        valid_grid_size(n),
        0 <= bx < n,
        0 <= by < n,
        steps >= 0,
        is_run(n, trace, steps),
        trace[0].wf(n),
        held_grid(n, trace[0].state[0]) == block_grid(n, bx, by),
    ensures
        held_grid(n, read_back(n, trace[steps], steps)) == block_grid(n, bx, by),
{
    lemma_block_is_still_life(n, bx, by);
    lemma_still_life_reads_back(n, block_grid(n, bx, by), trace, steps);
}

} // verus!
