//! A snake game on a toroidal grid: geometry, the grid of cells, the snake
//! encoded in the grid, the step and level-generation rules, the handling of
//! player keys and the layout of a frame, and two small string helpers.

pub mod geometry;
pub mod field;
pub mod snake;
mod random;
pub mod game;
pub mod text;
pub mod driver;
