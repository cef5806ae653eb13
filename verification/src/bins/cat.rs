//! `cat`: prints files, or its input.
use vstd::prelude::*;
use super::{complete_path_spec, err_outcome, ok_outcome, Command, CommandContext, CommandResult, Outcome, ContextModel};
use crate::fs::{lookup, DataModel, EntryModel};
use crate::fs::path::resolved_parts;
use crate::text::{ends_with_crlf, ends_with_crlf_exec, owned, push_str, string_from_utf8_lossy, strings_view, utf8_lossy};

verus! {

/// Prints files one after the other, or its input when it has no argument.
pub struct Cat;

/// The `cat` command.
pub const CAT: Cat = Cat;

/// What `cat` prints for one path, and whether it failed.
pub open spec fn cat_one(fs: Seq<EntryModel>, pwd: Seq<char>, path: Seq<char>) -> (Seq<char>, bool) {
    match lookup(fs, resolved_parts(path, Some(pwd))) {
        Some(e) => match e.data {
            DataModel::File(c) => (utf8_lossy(c), false),
            _ => ("cat: "@ + "Path is not a file: "@ + path + "\r\n"@, true),
        },
        None => ("cat: "@ + "File does not exist: "@ + path + "\r\n"@, true),
    }
}

/// What `cat` prints for `paths`, and whether any of them failed.
pub open spec fn cat_all(fs: Seq<EntryModel>, pwd: Seq<char>, paths: Seq<Seq<char>>) -> (Seq<char>, bool)
    decreases paths.len(),
{
    if paths.len() == 0 {
        (Seq::empty(), false)
    } else {
        let (out, failed) = cat_all(fs, pwd, paths.drop_last());
        let (text, bad) = cat_one(fs, pwd, paths.last());
        (out + text, failed || bad)
    }
}

/// What `cat` hands back: its input when it has no argument (an error when it
/// has none either); otherwise the files, ending with a line break, as an
/// error when one of them could not be read.
pub open spec fn cat_outcome(ctx: ContextModel, args: Seq<Seq<char>>, stdin: Option<Seq<char>>) -> Outcome {
    if args.len() == 0 {
        match stdin {
            Some(input) => ok_outcome(input),
            None => err_outcome("cat: not enough arguments\r\n"@),
        }
    } else {
        let (out, failed) = cat_all(ctx.fs, ctx.pwd, args);
        let text = if ends_with_crlf(out) { out } else { out + "\r\n"@ };
        if failed { err_outcome(text) } else { ok_outcome(text) }
    }
}

impl Command for Cat {
    fn name(&self) -> (res: &'static str)
        ensures
            res@ == "cat"@,
    {
        "cat"
    }

    fn aliases(&self) -> (res: &'static [&'static str])
        ensures
            res@.len() == 0,
    {
        &[]
    }

    fn run(&self, ctx: &mut CommandContext, args: &[String], stdin: Option<&str>) -> (res: CommandResult)
        ensures
            res.model() == cat_outcome(old(ctx).model(), strings_view(args@), crate::text::opt_str_view(stdin)),
            final(ctx).model() == old(ctx).model(),
    {
        if args.len() == 0 {
            if let Some(input) = stdin {
                return CommandResult::ok(owned(input));
            }
            return CommandResult::err(owned("cat: not enough arguments\r\n"));
        }
        let ghost av = strings_view(args@);
        let mut out = String::new();
        let mut failed = false;
        let mut k: usize = 0;
        while k < args.len()
            invariant
                k <= args@.len(),
                av == strings_view(args@),
                (out@, failed) == cat_all(ctx.fs@, ctx.pwd@, av.take(k as int)),
            decreases args@.len() - k,
        {
            assert(av.take(k + 1).drop_last() =~= av.take(k as int));
            assert(av.take(k + 1).last() == args@[k as int]@);
            let path = args[k].as_str();
            match ctx.fs.read_file(path, Some(ctx.pwd.as_str())) {
                Ok(content) => {
                    let text = string_from_utf8_lossy(content);
                    push_str(&mut out, text.as_str());
                },
                Err(e) => {
                    failed = true;
                    push_str(&mut out, "cat: ");
                    push_str(&mut out, e.as_str());
                    push_str(&mut out, "\r\n");
                },
            }
            k = k + 1;
        }
        assert(av.take(args@.len() as int) =~= av);
        if !ends_with_crlf_exec(out.as_str()) {
            push_str(&mut out, "\r\n");
        }
        if failed {
            CommandResult::err(out)
        } else {
            CommandResult::ok(out)
        }
    }

    fn complete(&self, ctx: &mut CommandContext, args: &[String], cursor: usize) -> (res: Vec<String>)
        ensures
            strings_view(res@) == complete_path_spec(old(ctx).model(), strings_view(args@), 0, false),
            final(ctx).model() == old(ctx).model(),
    {
        super::complete_path(ctx, args, 0, false)
    }
}

} // verus!
