//! Verified core of a Game of Life simulation that runs its cell updates on a
//! GPU.
//!
//! The library is the host side: it packs grids into the words that the
//! device works on ([`codec`]), keeps the step counter whose parity says
//! which of two buffers holds the current generation, and turns each
//! operation into a plain command for the caller to carry out
//! ([`simulation`], [`device`]). Nothing in it touches a device.
//!
//! What the update kernel computes is stated in [`kernel`], and [`protocol`]
//! proves that on a device that keeps to it the commands lead to the
//! generations that the caller expects. [`block`], [`translation`] and
//! [`embedding`] prove properties of the rule itself.

pub mod block;
pub mod bytes;
pub mod codec;
pub mod device;
pub mod embedding;
pub mod kernel;
pub mod layout;
pub mod pattern;
pub mod protocol;
pub mod seed;
pub mod simulation;
pub mod translation;

pub use codec::{pack_grid, unpack_grid};
pub use simulation::LifeSimulation;
