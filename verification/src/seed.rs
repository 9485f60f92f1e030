//! Random initial states.

use vstd::prelude::*;
use crate::codec::is_binary;

verus! {

/// `rand::random::<u32>()`: a word from the thread-local generator. Which
/// word comes back differs from call to call, so nothing is said of it.
#[verifier::external_body]
fn random_word() -> (word: u32) {
    rand::random::<u32>()
}

/// The cell that a random word stands for: alive if the word is odd.
pub fn cell_of(sample: u32) -> (cell: u8)
    ensures
        cell == sample % 2,
{
    (sample % 2) as u8
}

/// A random state of `num_cells` cells, each dead or alive.
pub fn random_state(num_cells: usize) -> (state: Vec<u8>)
    ensures
        state@.len() == num_cells,
        is_binary(state@),
{
    let mut init_state: Vec<u8> = vec![0u8; num_cells];
    let mut i: usize = 0;
    while i < num_cells
        invariant
            i <= num_cells,
            init_state@.len() == num_cells,
            is_binary(init_state@),
        decreases num_cells - i,
    {
        init_state[i] = cell_of(random_word());
        i += 1;
    }
    init_state
}

} // verus!
