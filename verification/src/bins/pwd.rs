//! `pwd`: prints the working directory.
use vstd::prelude::*;
use super::{ok_outcome, Command, CommandContext, CommandResult};
use crate::text::{owned, push_str};

verus! {

/// Prints the working directory.
pub struct Pwd;

/// The `pwd` command.
pub const PWD: Pwd = Pwd;

impl Command for Pwd {
    fn name(&self) -> (res: &'static str)
        ensures
            res@ == "pwd"@,
    {
        "pwd"
    }

    fn aliases(&self) -> (res: &'static [&'static str])
        ensures
            res@.len() == 0,
    {
        &[]
    }

    fn run(&self, ctx: &mut CommandContext, args: &[String], stdin: Option<&str>) -> (res: CommandResult)
        ensures
            res.model() == ok_outcome(old(ctx).pwd@ + "\r\n"@),
            final(ctx).model() == old(ctx).model(),
    {
        let mut out = owned(ctx.pwd.as_str());
        push_str(&mut out, "\r\n");
        CommandResult::ok(out)
    }

    fn complete(&self, ctx: &mut CommandContext, args: &[String], cursor: usize) -> (res: Vec<String>)
        ensures
            res@.len() == 0,
            final(ctx).model() == old(ctx).model(),
    {
        Vec::new()
    }
}

} // verus!
