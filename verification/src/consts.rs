//! Terminal escape sequences shared by the shell and its commands.
use vstd::prelude::*;

verus! {

/// Red foreground.
pub const ANSI_RED: &'static str = "\x1b[31m";

/// Bright red foreground.
pub const ANSI_BRIGHT_RED: &'static str = "\x1b[91m";

/// Cyan foreground.
pub const ANSI_CYAN: &'static str = "\x1b[36m";

/// Bright cyan foreground.
pub const ANSI_BRIGHT_CYAN: &'static str = "\x1b[96m";

/// Bold text.
pub const ANSI_BOLD: &'static str = "\x1b[1m";

/// Dim text.
pub const ANSI_DIM: &'static str = "\x1b[2m";

/// Back to plain text.
pub const ANSI_RESET: &'static str = "\x1b[0m";

/// Clears the whole screen.
pub const ANSI_CLEAR_SCREEN: &'static str = "\x1b[2J";

/// Moves the cursor to the top left corner.
pub const ANSI_CURSOR_HOME: &'static str = "\x1b[H";

} // verus!
