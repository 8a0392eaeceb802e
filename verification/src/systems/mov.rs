//! The flight of the ball.

use crate::fixed::{clamp, clamp_exec, fixed_mul, fixed_mul_exec};
use crate::pong::Ball;
use vstd::prelude::*;

verus! {

/// Moves the ball along its velocity.
pub struct MoveSystem;

/// Where a thing at `at` with velocity `velocity` is after `delta_seconds`.
pub open spec fn moved(at: i64, velocity: i64, delta_seconds: i64) -> i64 {
    clamp(at + fixed_mul(velocity, delta_seconds))
}

impl MoveSystem {
    /// Where the ball at `(x, y)` is after `delta_seconds`.
    pub fn run(&mut self, x: i64, y: i64, ball: &Ball, delta_seconds: i64) -> (to: (i64, i64))
        ensures
            to.0 == moved(x, ball.velocity_x, delta_seconds),
            to.1 == moved(y, ball.velocity_y, delta_seconds),
    {
        let dx = fixed_mul_exec(ball.velocity_x, delta_seconds);
        let dy = fixed_mul_exec(ball.velocity_y, delta_seconds);
        (clamp_exec(x as i128 + dx as i128), clamp_exec(y as i128 + dy as i128))
    }
}

} // verus!
