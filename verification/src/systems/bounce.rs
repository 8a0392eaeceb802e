//! The ball's bounces off the paddles and off the arena's top and bottom.

use crate::pong::{reverse, reversed, Ball, Paddle, Side, ARENA_HEIGHT};
use vstd::prelude::*;

verus! {

/// Turns the ball around where it hits something.
pub struct BounceSystem;

/// A paddle and the place of its centre.
#[derive(Clone, Copy, Debug, PartialEq, Eq, Structural)]
pub struct PlacedPaddle {
    pub paddle: Paddle,
    pub x: i64,
    pub y: i64,
}

/// Whether the point lies within the tolerances of the rectangle's centre.
pub open spec fn point_in_rect_spec(
    p_x: i64,
    p_y: i64,
    paddle_x: i64,
    paddle_y: i64,
    h_tolerance: int,
    v_tolerance: int,
) -> bool {
    -h_tolerance <= p_x - paddle_x <= h_tolerance && -v_tolerance <= p_y - paddle_y <= v_tolerance
}

/// Half of `v`, rounded towards zero.
pub open spec fn half(v: i64) -> int {
    if v >= 0 {
        v as int / 2
    } else {
        -((-v) / 2)
    }
}

/// Half of `v`, rounded towards zero.
pub fn half_exec(v: i64) -> (r: i128)
    ensures
        r == half(v),
{
    if v >= 0 {
        (v / 2) as i128
    } else {
        -((-(v as i128)) / 2)
    }
}

/// Whether the ball at `(x, y)` bounces off the paddle: it touches the
/// paddle and flies towards the paddle's side.
pub open spec fn hits(ball: Ball, x: i64, y: i64, at: PlacedPaddle) -> bool {
    &&& point_in_rect_spec(
        x,
        y,
        at.x,
        at.y,
        half(at.paddle.width) + ball.size,
        half(at.paddle.height) + ball.size,
    )
    &&& (ball.velocity_x > 0 && at.paddle.side == Side::Right || ball.velocity_x < 0
        && at.paddle.side == Side::Left)
}

/// The ball after the first `n` paddles had their turn, and the number of
/// bounces so far.
pub open spec fn after_paddles(ball: Ball, x: i64, y: i64, paddles: Seq<PlacedPaddle>, n: int) -> (
    Ball,
    int,
)
    decreases n,
{
    if n <= 0 {
        (ball, 0)
    } else {
        let (before, bounces) = after_paddles(ball, x, y, paddles, n - 1);
        if hits(before, x, y, paddles[n - 1]) {
            (Ball { velocity_x: reversed(before.velocity_x), ..before }, bounces + 1)
        } else {
            (before, bounces)
        }
    }
}

/// Whether the ball at height `y` bounces off the arena's bottom or top.
pub open spec fn hits_wall(ball: Ball, y: i64) -> bool {
    (y < ball.size && ball.velocity_y < 0) || (y > ARENA_HEIGHT - ball.size && ball.velocity_y > 0)
}

/// Whether the point lies within the tolerances of the rectangle's centre.
pub fn point_in_rect(
    p_x: i64,
    p_y: i64,
    paddle_x: i64,
    paddle_y: i64,
    h_tolerance: i128,
    v_tolerance: i128,
) -> (r: bool)
    requires
        -0x1_0000_0000_0000_0000 <= h_tolerance <= 0x1_0000_0000_0000_0000,
        -0x1_0000_0000_0000_0000 <= v_tolerance <= 0x1_0000_0000_0000_0000,
    ensures
        r == point_in_rect_spec(p_x, p_y, paddle_x, paddle_y, h_tolerance as int, v_tolerance as int),
{
    let dx = p_x as i128 - paddle_x as i128;
    let dy = p_y as i128 - paddle_y as i128;
    -h_tolerance <= dx && dx <= h_tolerance && -v_tolerance <= dy && dy <= v_tolerance
}

impl BounceSystem {
    /// Lets the ball at `(ball_x, ball_y)` bounce: off each paddle in turn,
    /// then off the arena's bottom or top. Returns the number of bounces off
    /// paddles and whether the ball bounced off a wall: one sound each.
    pub fn run(&mut self, ball: &mut Ball, ball_x: i64, ball_y: i64, paddles: &[PlacedPaddle]) -> (bounces: (usize, bool))
        ensures
            ({
                let (turned, count) = after_paddles(
                    *old(ball),
                    ball_x,
                    ball_y,
                    paddles@,
                    paddles@.len() as int,
                );
                &&& bounces.0 == count
                &&& bounces.1 == hits_wall(turned, ball_y)
                &&& *final(ball) == (if hits_wall(turned, ball_y) {
                    Ball { velocity_y: reversed(turned.velocity_y), ..turned }
                } else {
                    turned
                })
            }),
    {
        let mut bounces: usize = 0;
        let mut i: usize = 0;
        while i < paddles.len()
            invariant
                i <= paddles@.len(),
                bounces <= i,
                *ball == after_paddles(*old(ball), ball_x, ball_y, paddles@, i as int).0,
                bounces == after_paddles(*old(ball), ball_x, ball_y, paddles@, i as int).1,
            decreases paddles@.len() - i,
        {
            let at = paddles[i];
            let touches = point_in_rect(
                ball_x,
                ball_y,
                at.x,
                at.y,
                half_exec(at.paddle.width) + ball.size as i128,
                half_exec(at.paddle.height) + ball.size as i128,
            );
            let right = match at.paddle.side {
                Side::Right => true,
                Side::Left => false,
            };
            if touches && (ball.velocity_x > 0 && right || ball.velocity_x < 0 && !right) {
                ball.velocity_x = reverse(ball.velocity_x);
                bounces += 1;
            }
            i += 1;
        }
        let low = ball_y < ball.size && ball.velocity_y < 0;
        let high = ball_y as i128 > ARENA_HEIGHT as i128 - ball.size as i128 && ball.velocity_y > 0;
        if low || high {
            ball.velocity_y = reverse(ball.velocity_y);
        }
        (bounces, low || high)
    }
}

} // verus!
