//! A 3×3 tic-tac-toe engine: the board, the detection of wins and draws,
//! and three move-selection strategies for the computer's side.

pub mod board;
pub mod choice;
pub mod difficulty;
pub mod lines;
pub mod search;
