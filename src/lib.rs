//! A ring of integer neurons evaluated in synchronous ticks, with a
//! seed-driven noise mutation for gradient-free evolution of its parameters.

pub mod network;
mod random;
pub mod train;

pub use network::{Effect, Error, Network, NeuronValue};
