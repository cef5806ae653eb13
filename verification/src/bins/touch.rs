//! `touch`: makes empty files.
use vstd::prelude::*;
use super::{complete_path_spec, err_outcome, ok_outcome, Command, CommandContext, CommandResult, ContextModel, Outcome};
use crate::fs::{create_message, create_outcome, leaf_of, lookup, DataModel, EntryModel};
use crate::fs::path::resolved_parts;
use crate::text::{owned, push_str, strings_view};

verus! {

/// Makes an empty file at each argument that designates nothing yet.
pub struct Touch;

/// The `touch` command.
pub const TOUCH: Touch = Touch;

/// One path touched: nothing happens when it designates something already;
/// otherwise an empty file is made there, or the failure is reported.
pub open spec fn touch_one(fs: Seq<EntryModel>, pwd: Seq<char>, path: Seq<char>) -> (Seq<EntryModel>, Seq<char>) {
    if lookup(fs, resolved_parts(path, Some(pwd))) is Some {
        (fs, Seq::empty())
    } else {
        match create_outcome(fs, path, Some(pwd), EntryModel { name: leaf_of(path), data: DataModel::File(Seq::empty()) }) {
            Ok(m) => (m, Seq::empty()),
            Err(e) => (fs, "touch: "@ + create_message(e, path, "File already exists"@) + "\r\n"@),
        }
    }
}

/// Every path touched in turn, with the failures reported one per line.
pub open spec fn touch_all(fs: Seq<EntryModel>, pwd: Seq<char>, paths: Seq<Seq<char>>) -> (Seq<EntryModel>, Seq<char>)
    decreases paths.len(),
{
    if paths.len() == 0 {
        (fs, Seq::empty())
    } else {
        let (fs1, out) = touch_all(fs, pwd, paths.drop_last());
        let (fs2, text) = touch_one(fs1, pwd, paths.last());
        (fs2, out + text)
    }
}

/// What `touch` hands back and the context after it.
pub open spec fn touch_outcome(ctx: ContextModel, args: Seq<Seq<char>>) -> (Outcome, ContextModel) {
    if args.len() == 0 {
        (err_outcome("touch: not enough arguments\r\n"@), ctx)
    } else {
        let (fs, out) = touch_all(ctx.fs, ctx.pwd, args);
        (if out.len() == 0 { ok_outcome(out) } else { err_outcome(out) }, ContextModel { fs, ..ctx })
    }
}

impl Command for Touch {
    fn name(&self) -> (res: &'static str)
        ensures
            res@ == "touch"@,
    {
        "touch"
    }

    fn aliases(&self) -> (res: &'static [&'static str])
        ensures
            res@.len() == 0,
    {
        &[]
    }

    fn run(&self, ctx: &mut CommandContext, args: &[String], stdin: Option<&str>) -> (res: CommandResult)
        ensures
            (res.model(), final(ctx).model()) == touch_outcome(old(ctx).model(), strings_view(args@)),
    {
        if args.len() == 0 {
            return CommandResult::err(owned("touch: not enough arguments\r\n"));
        }
        let ghost av = strings_view(args@);
        let pwd = owned(ctx.pwd.as_str());
        let empty: Vec<u8> = Vec::new();
        let mut out = String::new();
        let mut k: usize = 0;
        while k < args.len()
            invariant
                k <= args@.len(),
                av == strings_view(args@),
                pwd@ == old(ctx).pwd@,
                empty@.len() == 0,
                ctx.pwd@ == old(ctx).pwd@,
                ctx.processes@ == old(ctx).processes@,
                ctx.killed@ == old(ctx).killed@,
                (ctx.fs@, out@) == touch_all(old(ctx).fs@, pwd@, av.take(k as int)),
            decreases args@.len() - k,
        {
            assert(av.take(k + 1).drop_last() =~= av.take(k as int));
            assert(av.take(k + 1).last() == args@[k as int]@);
            let path = args[k].as_str();
            let exists = ctx.fs.resolve_read(path, Some(pwd.as_str())).is_some();
            if !exists {
                assert(empty@ =~= Seq::<u8>::empty());
                match ctx.fs.create_file(path, Some(pwd.as_str()), empty.as_slice()) {
                    Ok(()) => {},
                    Err(e) => {
                        push_str(&mut out, "touch: ");
                        push_str(&mut out, e.as_str());
                        push_str(&mut out, "\r\n");
                    },
                }
            }
            k = k + 1;
        }
        assert(av.take(args@.len() as int) =~= av);
        if out.as_str().is_empty() {
            CommandResult::ok(out)
        } else {
            CommandResult::err(out)
        }
    }

    fn complete(&self, ctx: &mut CommandContext, args: &[String], cursor: usize) -> (res: Vec<String>)
        ensures
            strings_view(res@) == complete_path_spec(old(ctx).model(), strings_view(args@), 0, false),
            final(ctx).model() == old(ctx).model(),
    {
        super::complete_path(ctx, args, 0, false)
    }
}

} // verus!
