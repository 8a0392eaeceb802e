//! Tunable parameters.

pub mod generator;
