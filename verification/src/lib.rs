//! Simulation core of a grid-based snake game.
//!
//! [`snake::SnakeGame`] owns the board state, the snake's body, the movement
//! and collision rules, and the food placement; [`random::Rng`] supplies the
//! index used to pick a fresh food cell. Rendering and event plumbing are
//! left to the surrounding driver, which calls [`snake::SnakeGame::tick`] on
//! a fixed cadence and [`snake::SnakeGame::change_direction`] on input.

pub mod random;
pub mod snake;
