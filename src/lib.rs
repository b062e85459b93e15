//! Moving tic-tac-toe: two players take turns marking cells of a 3x3 board,
//! and once more than six cells are marked the oldest mark disappears.
pub mod board;
pub mod game;
pub mod input;
