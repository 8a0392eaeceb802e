//! The score.

use crate::pong::{reverse, reversed, Ball, ScoreBoard, Side, ARENA_WIDTH, MAX_SCORE};
use vstd::prelude::*;

verus! {

/// Counts a point when the ball leaves the arena, and serves again.
pub struct WinnerSystem;

/// The score after one more point: it stops at `MAX_SCORE`.
pub open spec fn one_more(score: u32) -> u32 {
    if score >= MAX_SCORE {
        MAX_SCORE
    } else {
        (score + 1) as u32
    }
}

/// Who wins the point when the ball is at `x`: the left player where the
/// ball has left the arena on the right, the right player where it has left
/// on the left.
pub open spec fn winner_at(x: i64) -> Option<Side> {
    if x > ARENA_WIDTH {
        Some(Side::Left)
    } else if x < 0 {
        Some(Side::Right)
    } else {
        None
    }
}

impl WinnerSystem {
    /// Looks where the ball is. Where it has left the arena, the winner
    /// gets a point, and the ball turns around and goes back to the middle:
    /// the result names the winner and the ball's new place. Else nothing
    /// changes.
    pub fn run(&mut self, ball: &mut Ball, x: i64, score_board: &mut ScoreBoard) -> (r: Option<
        (Side, i64),
    >)
        ensures
            match winner_at(x) {
                Some(Side::Left) => {
                    &&& r == Some((Side::Left, (ARENA_WIDTH / 2) as i64))
                    &&& *final(score_board) == (ScoreBoard {
                        score_left: one_more(old(score_board).score_left),
                        ..*old(score_board)
                    })
                    &&& *final(ball) == (Ball {
                        velocity_x: reversed(old(ball).velocity_x),
                        ..*old(ball)
                    })
                },
                Some(Side::Right) => {
                    &&& r == Some((Side::Right, (ARENA_WIDTH / 2) as i64))
                    &&& *final(score_board) == (ScoreBoard {
                        score_right: one_more(old(score_board).score_right),
                        ..*old(score_board)
                    })
                    &&& *final(ball) == (Ball {
                        velocity_x: reversed(old(ball).velocity_x),
                        ..*old(ball)
                    })
                },
                None => {
                    &&& r is None
                    &&& *final(score_board) == *old(score_board)
                    &&& *final(ball) == *old(ball)
                },
            },
    {
        let winner = if x > ARENA_WIDTH {
            score_board.score_left = if score_board.score_left >= MAX_SCORE {
                MAX_SCORE
            } else {
                score_board.score_left + 1
            };
            Some(Side::Left)
        } else if x < 0 {
            score_board.score_right = if score_board.score_right >= MAX_SCORE {
                MAX_SCORE
            } else {
                score_board.score_right + 1
            };
            Some(Side::Right)
        } else {
            None
        };
        match winner {
            Some(side) => {
                ball.velocity_x = reverse(ball.velocity_x);
                Some((side, ARENA_WIDTH / 2))
            },
            None => None,
        }
    }
}

} // verus!
