//! Games.

pub mod tictactoe;
