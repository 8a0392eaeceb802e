use voxel_terrain::fixed::UNIT;
use voxel_terrain::pong::{
    reverse, Ball, Paddle, ScoreBoard, Side, ARENA_HEIGHT, ARENA_WIDTH, BALL_SIZE,
    BALL_VELOCITY_X, BALL_VELOCITY_Y, MAX_SCORE, MOVE_SCALE, PADDLE_HEIGHT, PADDLE_WIDTH,
};
use voxel_terrain::systems::bounce::{half_exec, point_in_rect, PlacedPaddle};
use voxel_terrain::systems::{BounceSystem, MoveSystem, PaddleSystem, WinnerSystem};

#[test]
fn new_ball_and_paddle_have_the_usual_sizes() {
    assert_eq!(
        Ball::new(),
        Ball { velocity_x: BALL_VELOCITY_X, velocity_y: BALL_VELOCITY_Y, size: BALL_SIZE }
    );
    assert_eq!(
        Paddle::new(Side::Left),
        Paddle { height: PADDLE_HEIGHT, width: PADDLE_WIDTH, side: Side::Left }
    );
    assert_eq!(ScoreBoard::default(), ScoreBoard { score_left: 0, score_right: 0 });
    assert_eq!((ARENA_WIDTH, ARENA_HEIGHT, MOVE_SCALE), (100 * UNIT, 100 * UNIT, 60 * UNIT));
}

#[test]
fn reverse_turns_a_velocity_around() {
    assert_eq!(reverse(5), -5);
    assert_eq!(reverse(-5), 5);
    assert_eq!(reverse(0), 0);
    assert_eq!(reverse(i64::MIN), i64::MAX);
}

#[test]
fn ball_moves_along_its_velocity() {
    let ball = Ball { velocity_x: 50 * UNIT, velocity_y: -20 * UNIT, size: BALL_SIZE };
    // A tenth of a second.
    let to = MoveSystem.run(10 * UNIT, 10 * UNIT, &ball, UNIT / 10);
    assert_eq!(to, (15 * UNIT, 8 * UNIT));
    let to = MoveSystem.run(i64::MAX, i64::MIN, &ball, UNIT);
    assert_eq!(to, (i64::MAX, i64::MIN));
}

#[test]
fn paddle_moves_within_the_arena() {
    // Full deflection for a tenth of a second: six units.
    assert_eq!(PaddleSystem.run(50 * UNIT, Some(UNIT), UNIT / 10), 56 * UNIT);
    assert_eq!(PaddleSystem.run(50 * UNIT, Some(-UNIT / 2), UNIT / 10), 47 * UNIT);
    assert_eq!(PaddleSystem.run(90 * UNIT, Some(UNIT), UNIT / 10), 92 * UNIT);
    assert_eq!(PaddleSystem.run(10 * UNIT, Some(-UNIT), UNIT / 10), 8 * UNIT);
    // Without a deflection the paddle stays, even outside the arena.
    assert_eq!(PaddleSystem.run(200 * UNIT, Some(0), UNIT), 200 * UNIT);
    assert_eq!(PaddleSystem.run(200 * UNIT, None, UNIT), 200 * UNIT);
    assert_eq!(PaddleSystem.run(200 * UNIT, Some(1), 0), 92 * UNIT);
}

#[test]
fn point_in_rect_counts_the_border() {
    assert!(point_in_rect(5, 5, 0, 0, 5, 5));
    assert!(point_in_rect(-5, -5, 0, 0, 5, 5));
    assert!(!point_in_rect(6, 0, 0, 0, 5, 5));
    assert!(!point_in_rect(0, -6, 0, 0, 5, 5));
    assert!(!point_in_rect(0, 0, 0, 0, -1, 5));
    assert!(point_in_rect(i64::MAX, i64::MIN, i64::MIN, i64::MAX, 1 << 64, 1 << 64));
    assert_eq!(half_exec(7), 3);
    assert_eq!(half_exec(-7), -3);
}

#[test]
fn ball_bounces_off_the_paddle_it_flies_towards() {
    let left = PlacedPaddle { paddle: Paddle::new(Side::Left), x: 2 * UNIT, y: 50 * UNIT };
    let right = PlacedPaddle { paddle: Paddle::new(Side::Right), x: 98 * UNIT, y: 50 * UNIT };
    let paddles = [left, right];
    // At the right paddle, flying right.
    let mut ball = Ball::new();
    let bounces = BounceSystem.run(&mut ball, 95 * UNIT, 45 * UNIT, &paddles);
    assert_eq!(bounces, (1, false));
    assert_eq!(ball.velocity_x, -BALL_VELOCITY_X);
    assert_eq!(ball.velocity_y, BALL_VELOCITY_Y);
    // At the right paddle, flying left already.
    let bounces = BounceSystem.run(&mut ball, 95 * UNIT, 45 * UNIT, &paddles);
    assert_eq!(bounces, (0, false));
    assert_eq!(ball.velocity_x, -BALL_VELOCITY_X);
    // At the left paddle, flying left.
    let bounces = BounceSystem.run(&mut ball, 5 * UNIT, 60 * UNIT, &paddles);
    assert_eq!(bounces, (1, false));
    assert_eq!(ball.velocity_x, BALL_VELOCITY_X);
    // Past the paddle's end.
    let mut ball = Ball::new();
    assert_eq!(BounceSystem.run(&mut ball, 95 * UNIT, 61 * UNIT, &paddles), (0, false));
    assert_eq!(ball, Ball::new());
}

#[test]
fn ball_bounces_off_each_paddle_in_turn() {
    // Two paddles at the same place on opposite sides turn the ball twice.
    let a = PlacedPaddle { paddle: Paddle::new(Side::Right), x: 50 * UNIT, y: 50 * UNIT };
    let b = PlacedPaddle { paddle: Paddle::new(Side::Left), x: 50 * UNIT, y: 50 * UNIT };
    let mut ball = Ball::new();
    assert_eq!(BounceSystem.run(&mut ball, 50 * UNIT, 50 * UNIT, &[a, b]), (2, false));
    assert_eq!(ball, Ball::new());
    let mut ball = Ball::new();
    assert_eq!(BounceSystem.run(&mut ball, 50 * UNIT, 50 * UNIT, &[b, a]), (1, false));
    assert_eq!(ball.velocity_x, -BALL_VELOCITY_X);
}

#[test]
fn ball_bounces_off_the_walls() {
    let mut ball = Ball::new();
    assert_eq!(BounceSystem.run(&mut ball, 50 * UNIT, 99 * UNIT, &[]), (0, true));
    assert_eq!(ball.velocity_y, -BALL_VELOCITY_Y);
    assert_eq!(BounceSystem.run(&mut ball, 50 * UNIT, 99 * UNIT, &[]), (0, false));
    assert_eq!(BounceSystem.run(&mut ball, 50 * UNIT, UNIT, &[]), (0, true));
    assert_eq!(ball.velocity_y, BALL_VELOCITY_Y);
    assert_eq!(BounceSystem.run(&mut ball, 50 * UNIT, 2 * UNIT, &[]), (0, false));
    assert_eq!(BounceSystem.run(&mut ball, 50 * UNIT, 98 * UNIT, &[]), (0, false));
}

#[test]
fn point_goes_to_the_other_side() {
    let mut ball = Ball::new();
    let mut board = ScoreBoard::default();
    assert_eq!(WinnerSystem.run(&mut ball, 50 * UNIT, &mut board), None);
    assert_eq!(WinnerSystem.run(&mut ball, 0, &mut board), None);
    assert_eq!(WinnerSystem.run(&mut ball, ARENA_WIDTH, &mut board), None);
    assert_eq!(board, ScoreBoard::default());
    assert_eq!(ball, Ball::new());
    assert_eq!(
        WinnerSystem.run(&mut ball, ARENA_WIDTH + 1, &mut board),
        Some((Side::Left, 50 * UNIT))
    );
    assert_eq!(board, ScoreBoard { score_left: 1, score_right: 0 });
    assert_eq!(ball.velocity_x, -BALL_VELOCITY_X);
    assert_eq!(WinnerSystem.run(&mut ball, -1, &mut board), Some((Side::Right, 50 * UNIT)));
    assert_eq!(board, ScoreBoard { score_left: 1, score_right: 1 });
    assert_eq!(ball.velocity_x, BALL_VELOCITY_X);
}

#[test]
fn score_stops_at_the_highest() {
    let mut ball = Ball::new();
    let mut board = ScoreBoard { score_left: MAX_SCORE - 1, score_right: MAX_SCORE };
    WinnerSystem.run(&mut ball, ARENA_WIDTH + 1, &mut board);
    assert_eq!(board.score_left, MAX_SCORE);
    WinnerSystem.run(&mut ball, ARENA_WIDTH + 1, &mut board);
    assert_eq!(board.score_left, MAX_SCORE);
    WinnerSystem.run(&mut ball, -1, &mut board);
    assert_eq!(board.score_right, MAX_SCORE);
    let mut board = ScoreBoard { score_left: u32::MAX, score_right: 0 };
    WinnerSystem.run(&mut ball, ARENA_WIDTH + 1, &mut board);
    assert_eq!(board.score_left, MAX_SCORE);
}
