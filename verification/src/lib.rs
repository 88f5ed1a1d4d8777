//! Tetris game logic: tetromino shapes, the playing field, the bag of
//! upcoming pieces and the per-tick game state machine.

pub mod piece;
pub mod board;
pub mod bag;
pub mod game;
pub mod screen;
