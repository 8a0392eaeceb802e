//! Surface-nets terrain: layered-noise density volumes and the triangle
//! surface drawn from them, in fixed-point arithmetic.
//!
//! Every density, height and coordinate is an integer that counts millionths
//! (see [`fixed::UNIT`]).

pub mod config;
pub mod fixed;
pub mod pong;
pub mod systems;
pub mod terrain;
pub mod util;
