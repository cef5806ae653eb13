//! `rm`: removes an entry.
use vstd::prelude::*;
use super::{complete_path_spec, ok_outcome, Command, CommandContext, CommandResult, ContextModel, Outcome};
use crate::fs::remove_outcome;
use crate::text::{owned, push_str, strings_view};

verus! {

/// Removes the entry its first argument designates.
pub struct Rm;

/// The `rm` command.
pub const RM: Rm = Rm;

/// What `rm` hands back and the context after it: the entry that the first
/// argument designates is removed, or the error says why not.
pub open spec fn rm_outcome(ctx: ContextModel, args: Seq<Seq<char>>) -> (Outcome, ContextModel) {
    if args.len() == 0 {
        (ok_outcome("rm: not enough arguments\r\n"@), ctx)
    } else {
        match remove_outcome(ctx.fs, args[0], Some(ctx.pwd)) {
            Ok(fs) => (ok_outcome(Seq::empty()), ContextModel { fs, ..ctx }),
            Err(msg) => (ok_outcome("rm: "@ + msg + "\r\n"@), ctx),
        }
    }
}

impl Command for Rm {
    fn name(&self) -> (res: &'static str)
        ensures
            res@ == "rm"@,
    {
        "rm"
    }

    fn aliases(&self) -> (res: &'static [&'static str])
        ensures
            res@.len() == 0,
    {
        &[]
    }

    fn run(&self, ctx: &mut CommandContext, args: &[String], stdin: Option<&str>) -> (res: CommandResult)
        ensures
            (res.model(), final(ctx).model()) == rm_outcome(old(ctx).model(), strings_view(args@)),
    {
        if args.len() == 0 {
            return CommandResult::ok(owned("rm: not enough arguments\r\n"));
        }
        let pwd = owned(ctx.pwd.as_str());
        match ctx.fs.remove(args[0].as_str(), Some(pwd.as_str())) {
            Ok(()) => CommandResult::ok(String::new()),
            Err(e) => {
                let mut m = owned("rm: ");
                push_str(&mut m, e.as_str());
                push_str(&mut m, "\r\n");
                CommandResult::ok(m)
            },
        }
    }

    fn complete(&self, ctx: &mut CommandContext, args: &[String], cursor: usize) -> (res: Vec<String>)
        ensures
            strings_view(res@) == complete_path_spec(old(ctx).model(), strings_view(args@), 0, false),
            final(ctx).model() == old(ctx).model(),
    {
        super::complete_path(ctx, args, 0, false)
    }
}

} // verus!
