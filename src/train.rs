//! Gradient-free training: deterministic noise on the parameters of a [Network](crate::Network).

pub mod evolve;

pub use evolve::{apply_parameter_noise, build_network_from_noise, NoisePassParams};
