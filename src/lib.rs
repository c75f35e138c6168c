//! The rules of a snake game on a wrap-around grid: a segmented snake that
//! moves one cell per step, each step eased over time, growing on apples
//! and ending when its head runs into its body.
//!
//! - `geometry`: cell boxes, their vertices and the shrunk overlap test.
//! - `field`: the wrap-around field, relocation across edges, and the
//!   slivers drawn while a box straddles an edge.
//! - `animation`: a step eased over time, with pause and resume.
//! - `snake`: headings, the follow movement, self-collision and eating.
//! - `spawner`: picking a free cell for the apple.
//! - `game`: the game state and its per-tick transitions.
//! - `frame`: the vertices and paints of one frame.
pub mod animation;
pub mod field;
pub mod frame;
pub mod game;
pub mod geometry;
pub mod snake;
pub mod spawner;
