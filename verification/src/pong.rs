//! The arena, the paddles, the ball and the score of the paddle game.

use crate::fixed::{clamp, clamp_exec};
use vstd::prelude::*;

verus! {

pub const ARENA_HEIGHT: i64 = 100_000_000;

pub const ARENA_WIDTH: i64 = 100_000_000;

pub const PADDLE_HEIGHT: i64 = 16_000_000;

pub const PADDLE_WIDTH: i64 = 4_000_000;

pub const BALL_VELOCITY_X: i64 = 50_000_000;

pub const BALL_VELOCITY_Y: i64 = 50_000_000;

pub const BALL_SIZE: i64 = 2_000_000;

/// How far a paddle moves in a second at full deflection.
pub const MOVE_SCALE: i64 = 60_000_000;

/// The highest score that the board shows.
pub const MAX_SCORE: u32 = 999;

/// A side of the arena.
#[derive(Clone, Copy, Debug, PartialEq, Eq, Structural)]
pub enum Side {
    Left,
    Right,
}

#[derive(Clone, Copy, Debug, PartialEq, Eq, Structural)]
pub struct Paddle {
    pub height: i64,
    pub width: i64,
    pub side: Side,
}

impl Paddle {
    /// A paddle of the usual size on the given side.
    pub fn new(side: Side) -> (paddle: Paddle)
        ensures
            paddle == (Paddle { height: PADDLE_HEIGHT, width: PADDLE_WIDTH, side }),
    {
        Paddle { height: PADDLE_HEIGHT, width: PADDLE_WIDTH, side }
    }
}

#[derive(Clone, Copy, Debug, PartialEq, Eq, Structural)]
pub struct Ball {
    pub velocity_x: i64,
    pub velocity_y: i64,
    pub size: i64,
}

impl Ball {
    /// A ball of the usual size that flies up and to the right.
    pub fn new() -> (ball: Ball)
        ensures
            ball == (Ball {
                velocity_x: BALL_VELOCITY_X,
                velocity_y: BALL_VELOCITY_Y,
                size: BALL_SIZE,
            }),
    {
        Ball { velocity_x: BALL_VELOCITY_X, velocity_y: BALL_VELOCITY_Y, size: BALL_SIZE }
    }
}

#[derive(Clone, Copy, Debug, PartialEq, Eq, Structural)]
pub struct ScoreBoard {
    pub score_left: u32,
    pub score_right: u32,
}

impl Default for ScoreBoard {
    fn default() -> (board: ScoreBoard)
        ensures
            board == (ScoreBoard { score_left: 0, score_right: 0 }),
    {
        ScoreBoard { score_left: 0, score_right: 0 }
    }
}

/// The velocity `v` turned around. The one velocity without an opposite turns
/// into the largest.
pub open spec fn reversed(v: i64) -> i64 {
    clamp(-v)
}

/// Turns a velocity around.
pub fn reverse(v: i64) -> (r: i64)
    ensures
        r == reversed(v),
{
    clamp_exec(-(v as i128))
}

} // verus!
