//! `clear`: wipes the terminal.
use vstd::prelude::*;
use super::{ok_outcome, Command, CommandContext, CommandResult};
use crate::consts::{ANSI_CLEAR_SCREEN, ANSI_CURSOR_HOME, ANSI_RESET};
use crate::text::{owned, push_str};

verus! {

/// Wipes the terminal and puts the cursor at the top.
pub struct Clear;

/// The `clear` command.
pub const CLEAR: Clear = Clear;

/// What `clear` prints: clear the screen, go home, reset the colours.
pub open spec fn clear_text() -> Seq<char> {
    ANSI_CLEAR_SCREEN@ + ANSI_CURSOR_HOME@ + ANSI_RESET@
}

impl Command for Clear {
    fn name(&self) -> (res: &'static str)
        ensures
            res@ == "clear"@,
    {
        "clear"
    }

    fn aliases(&self) -> (res: &'static [&'static str])
        ensures
            res@.len() == 0,
    {
        &[]
    }

    fn run(&self, ctx: &mut CommandContext, args: &[String], stdin: Option<&str>) -> (res: CommandResult)
        ensures
            res.model() == ok_outcome(clear_text()),
            final(ctx).model() == old(ctx).model(),
    {
        let mut out = owned(ANSI_CLEAR_SCREEN);
        push_str(&mut out, ANSI_CURSOR_HOME);
        push_str(&mut out, ANSI_RESET);
        CommandResult::ok(out)
    }

    fn complete(&self, ctx: &mut CommandContext, args: &[String], cursor: usize) -> (res: Vec<String>)
        ensures
            res@.len() == 0,
            final(ctx).model() == old(ctx).model(),
    {
        Vec::new()
    }
}

} // verus!
