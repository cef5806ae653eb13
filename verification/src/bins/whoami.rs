//! `whoami`: prints the user's name.
use vstd::prelude::*;
use super::{ok_outcome, Command, CommandContext, CommandResult};
use crate::text::owned;

verus! {

/// Prints the name of the user.
pub struct WhoAmI;

/// The `whoami` command.
pub const WHOAMI: WhoAmI = WhoAmI;

impl Command for WhoAmI {
    fn name(&self) -> (res: &'static str)
        ensures
            res@ == "whoami"@,
    {
        "whoami"
    }

    fn aliases(&self) -> (res: &'static [&'static str])
        ensures
            res@.len() == 0,
    {
        &[]
    }

    fn run(&self, ctx: &mut CommandContext, args: &[String], stdin: Option<&str>) -> (res: CommandResult)
        ensures
            res.model() == ok_outcome("inparsian\r\n"@),
            final(ctx).model() == old(ctx).model(),
    {
        CommandResult::ok(owned("inparsian\r\n"))
    }

    fn complete(&self, ctx: &mut CommandContext, args: &[String], cursor: usize) -> (res: Vec<String>)
        ensures
            res@.len() == 0,
            final(ctx).model() == old(ctx).model(),
    {
        Vec::new()
    }
}

} // verus!
