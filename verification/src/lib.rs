//! A snake game on a bordered grid: the board, the snake that moves on it and
//! the controller that turns key presses and frames into moves.
//!
//! Every rule of the game is stated in a contract and proved. Drawing, the
//! clock and the window are left to the caller, who hands in plain values.

pub mod board;
pub mod game;
pub mod grid;
pub mod snake;
pub mod tile;
