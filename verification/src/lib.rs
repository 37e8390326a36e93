//! A terminal multi-board tic-tac-toe engine: board state and win detection,
//! player scores, and the match controller that advances play across any
//! number of simultaneously open boards.

pub mod board;
pub mod game;
pub mod player;
pub mod text;
