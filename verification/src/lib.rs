//! A snake game: the board geometry, the grid, the snake, the game rules,
//! the terminal frame renderer and the decisions of the interactive loop.

pub mod ansi;
pub mod cli;
pub mod game;
pub mod grid;
pub mod grid_geometry;
pub mod random;
pub mod renderer;
pub mod snake;
pub mod terminal;
pub mod web;
