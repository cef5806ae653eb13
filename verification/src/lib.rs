//! A small desktop-like operating system model: a virtual filesystem with a
//! compact binary image format, a shell with pipelines and redirections,
//! the built-in command set, and a tic-tac-toe game.

pub mod bins;
pub mod consts;
pub mod desk;
pub mod enums;
pub mod fs;
pub mod games;
pub mod order;
pub mod shell;
pub mod text;
pub mod wm;
