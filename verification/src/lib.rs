//! Simulation core of a tile-grid snake game.
//!
//! The snake lives on a fixed arena of grid cells. Once per fixed tick the
//! head advances one cell in the facing direction, collisions with the walls
//! and with the snake's own body are detected, the body follows the head, food
//! under the head is eaten, and the snake grows into the cell its last segment
//! has just left. A collision ends the episode and restarts it at once.
//!
//! Every function carries a contract over the mathematical model of the game
//! state, [`model::WorldModel`], and is proved against it.

pub mod grid;
pub mod snake;
pub mod food;
pub mod model;
pub mod world;
pub mod schedule;
pub mod laws;
