//! A sliding-tile puzzle engine on a 4 x 4 grid.
//!
//! The `row` module holds the slide-and-merge transform for a single row,
//! `tile` the board that applies it in all four directions and spawns new
//! tiles, `game` the session that tracks a board and a step counter,
//! `render` the fixed-width textual view of a grid, and `controller` a
//! numeric-code front door for embedding hosts.

pub mod controller;
pub mod game;
pub mod render;
pub mod row;
pub mod tile;
