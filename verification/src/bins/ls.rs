//! `ls`: lists a directory.
use vstd::prelude::*;
use super::{complete_path_spec, err_outcome, ok_outcome, Command, CommandContext, CommandResult, ContextModel, Outcome};
use crate::fs::{lookup, models_of, DataModel, EntryModel, FilesystemData};
use crate::fs::path::{normalize, resolved_parts, split_slash, target_chars};
use crate::text::{owned, push_str, strings_view};

verus! {

broadcast use crate::fs::lemma_models_of;

/// Lists the entries of a directory, or names a file.
pub struct Ls;

/// The `ls` command.
pub const LS: Ls = Ls;

/// The names of `entries`, each on a line of its own.
pub open spec fn name_lines(entries: Seq<EntryModel>) -> Seq<char>
    decreases entries.len(),
{
    if entries.len() == 0 {
        Seq::empty()
    } else {
        name_lines(entries.drop_last()) + entries.last().name + "\r\n"@
    }
}

/// What `ls` hands back: the names in the directory that its first argument
/// (else the working directory) designates, or the name of the file or link
/// it designates, or an error when it designates nothing.
pub open spec fn ls_outcome(ctx: ContextModel, args: Seq<Seq<char>>) -> Outcome {
    let path = if args.len() > 0 { args[0] } else { ctx.pwd };
    match lookup(ctx.fs, resolved_parts(path, Some(ctx.pwd))) {
        None => err_outcome("ls: cannot access '"@ + path + "': No such file or directory\r\n"@),
        Some(e) => match e.data {
            DataModel::Directory(ch) => ok_outcome(name_lines(ch)),
            _ => ok_outcome(e.name + "\r\n"@),
        },
    }
}

impl Command for Ls {
    fn name(&self) -> (res: &'static str)
        ensures
            res@ == "ls"@,
    {
        "ls"
    }

    fn aliases(&self) -> (res: &'static [&'static str])
        ensures
            res@.len() == 0,
    {
        &[]
    }

    fn run(&self, ctx: &mut CommandContext, args: &[String], stdin: Option<&str>) -> (res: CommandResult)
        ensures
            res.model() == ls_outcome(old(ctx).model(), strings_view(args@)),
            final(ctx).model() == old(ctx).model(),
    {
        let path: &str = if args.len() > 0 { args[0].as_str() } else { ctx.pwd.as_str() };
        match ctx.fs.resolve_read(path, Some(ctx.pwd.as_str())) {
            None => {
                let mut m = owned("ls: cannot access '");
                push_str(&mut m, path);
                push_str(&mut m, "': No such file or directory\r\n");
                CommandResult::err(m)
            },
            Some(query) => match &query.data {
                FilesystemData::Directory { children } => {
                    let ghost ch = models_of(children@);
                    let mut out = String::new();
                    let mut k: usize = 0;
                    while k < children.len()
                        invariant
                            k <= children@.len(),
                            ch == models_of(children@),
                            out@ == name_lines(ch.take(k as int)),
                        decreases children@.len() - k,
                    {
                        assert(ch.take(k + 1).drop_last() =~= ch.take(k as int));
                        assert(ch.take(k + 1).last() == children@[k as int].model());
                        push_str(&mut out, children[k].name.as_str());
                        push_str(&mut out, "\r\n");
                        k = k + 1;
                    }
                    assert(ch.take(children@.len() as int) =~= ch);
                    CommandResult::ok(out)
                },
                _ => {
                    let mut out = owned(query.name.as_str());
                    push_str(&mut out, "\r\n");
                    CommandResult::ok(out)
                },
            },
        }
    }

    fn complete(&self, ctx: &mut CommandContext, args: &[String], cursor: usize) -> (res: Vec<String>)
        ensures
            strings_view(res@) == complete_path_spec(old(ctx).model(), strings_view(args@), 0, false),
            final(ctx).model() == old(ctx).model(),
    {
        super::complete_path(ctx, args, 0, false)
    }
}


/// A leading empty piece (from a leading `/`) changes nothing once normalised.
proof fn lemma_normalize_after_empty(r: Seq<Seq<char>>)
    ensures
        normalize(seq![Seq::<char>::empty()] + r) == normalize(r),
    decreases r.len(),
{
    let e = Seq::<char>::empty();
    if r.len() == 0 {
        assert(seq![e] + r =~= seq![e]);
        assert(seq![e].drop_last() =~= Seq::<Seq<char>>::empty());
        assert(normalize(Seq::<Seq<char>>::empty()) == Seq::<Seq<char>>::empty());
        assert(normalize(seq![e]) == crate::fs::path::apply_piece(normalize(Seq::<Seq<char>>::empty()), e));
    } else {
        lemma_normalize_after_empty(r.drop_last());
        assert((seq![e] + r).drop_last() =~= seq![e] + r.drop_last());
        assert((seq![e] + r).last() == r.last());
    }
}

/// A relative path seen from an absolute working directory designates what
/// the working directory, a `/` and the path designate.
pub proof fn lemma_relative_is_joined(w: Seq<char>, p: Seq<char>)
    requires
        w.len() > 0 && w[0] == '/',
        !(p.len() > 0 && p[0] == '/'),
    ensures
        resolved_parts(w + seq!['/'] + p, Some(w)) == resolved_parts(p, Some(w)),
{
    let x = w.drop_first() + seq!['/'] + p;
    let e = Seq::<char>::empty();
    assert((w + seq!['/'] + p)[0] == '/');
    assert((w + seq!['/'] + p).drop_first() =~= x);
    assert(target_chars(w + seq!['/'] + p, Some(w)) == x);
    assert(target_chars(p, Some(w)) =~= e + seq!['/'] + x);
    super::mkdir::lemma_split_around_slash(e, x);
    assert(split_slash(e) == seq![e]);
    lemma_normalize_after_empty(split_slash(x));
}

/// Law: `ls` of a relative path is `ls` of that path under the working
/// directory: when either one finds what it names, both hand back the same
/// listing (or the same file name).
pub proof fn law_ls_relative_from_pwd(ctx: ContextModel, p: Seq<char>)
    requires
        ctx.pwd.len() > 0 && ctx.pwd[0] == '/',
        !(p.len() > 0 && p[0] == '/'),
    ensures
        ({
            let q = ctx.pwd + seq!['/'] + p;
            &&& ls_outcome(ctx, seq![p]).status == 0 ==> ls_outcome(ctx, seq![p]) == ls_outcome(ctx, seq![q])
            &&& ls_outcome(ctx, seq![q]).status == 0 ==> ls_outcome(ctx, seq![p]) == ls_outcome(ctx, seq![q])
        }),
{
    lemma_relative_is_joined(ctx.pwd, p);
}


/// Law: `ls` of an absolute path hands back the same whatever the working
/// directory.
pub proof fn law_ls_absolute_ignores_pwd(ctx: ContextModel, p: Seq<char>, other: Seq<char>)
    requires
        p.len() > 0 && p[0] == '/',
    ensures
        ls_outcome(ctx, seq![p]) == ls_outcome(ContextModel { pwd: other, ..ctx }, seq![p]),
{
}

} // verus!
