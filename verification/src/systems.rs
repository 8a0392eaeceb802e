//! The rules of the paddle game, one step of one thing at a time.

pub mod bounce;
pub mod mov;
pub mod paddle;
pub mod winner;

pub use self::bounce::BounceSystem;
pub use self::mov::MoveSystem;
pub use self::paddle::PaddleSystem;
pub use self::winner::WinnerSystem;
