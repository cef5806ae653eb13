//! The shell: its command language and the line editor around it.

pub mod completion;
pub mod editor;
pub mod execution;
pub mod history;
pub mod laws;
pub mod lexer;
pub mod model;
pub mod parser;
pub mod redirect;

pub use self::editor::{CompletionState, Shell};
