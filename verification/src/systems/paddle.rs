//! The movement of the paddles.

use crate::fixed::{clamp, clamp_exec, fixed_mul, fixed_mul_exec};
use crate::pong::{ARENA_HEIGHT, MOVE_SCALE, PADDLE_HEIGHT};
use vstd::prelude::*;

verus! {

/// Moves a paddle as its player asks, within the arena.
pub struct PaddleSystem;

/// The lowest place of a paddle's centre.
pub open spec fn lowest() -> i64 {
    (PADDLE_HEIGHT / 2) as i64
}

/// The highest place of a paddle's centre.
pub open spec fn highest() -> i64 {
    (ARENA_HEIGHT - PADDLE_HEIGHT / 2) as i64
}

/// Where a paddle at height `paddle_y` goes when its player deflects the
/// stick by `movement` for `delta_seconds`: it stays where it is without a
/// deflection, else it moves and stops at the arena's edges.
pub open spec fn paddle_moved(paddle_y: i64, movement: Option<i64>, delta_seconds: i64) -> i64 {
    match movement {
        Some(amount) if amount != 0 => {
            let to = clamp(paddle_y + fixed_mul(fixed_mul(amount, MOVE_SCALE), delta_seconds));
            if to > highest() {
                highest()
            } else if to < lowest() {
                lowest()
            } else {
                to
            }
        },
        _ => paddle_y,
    }
}

impl PaddleSystem {
    /// Where the paddle is after this step.
    pub fn run(&mut self, paddle_y: i64, movement: Option<i64>, delta_seconds: i64) -> (to: i64)
        ensures
            to == paddle_moved(paddle_y, movement, delta_seconds),
            movement matches Some(amount) && amount != 0 ==> lowest() <= to <= highest(),
    {
        if let Some(move_amount) = movement {
            if move_amount != 0 {
                let scaled_amount = fixed_mul_exec(
                    fixed_mul_exec(move_amount, MOVE_SCALE),
                    delta_seconds,
                );
                let to = clamp_exec(scaled_amount as i128 + paddle_y as i128);
                let top = ARENA_HEIGHT - PADDLE_HEIGHT / 2;
                let bottom = PADDLE_HEIGHT / 2;
                return if to > top {
                    top
                } else if to < bottom {
                    bottom
                } else {
                    to
                };
            }
        }
        paddle_y
    }
}

} // verus!
