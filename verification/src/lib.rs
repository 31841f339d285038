//! Game logic of a snake game whose head, apple and tail segments are
//! separate windows on the screen grid.
pub mod grid;
pub mod snake;
pub mod screen;
pub mod errors;
mod random;
pub mod game;
pub mod score;
pub mod controls;
pub mod text;
