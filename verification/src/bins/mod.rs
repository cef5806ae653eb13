//! The commands that the shell runs: what each one prints, what it changes,
//! and how it completes its arguments.
use vstd::prelude::*;
use crate::fs::{lookup, models_of, is_directory, last_index_of, DataModel, EntryModel, Filesystem, FilesystemData};
use crate::fs::path::resolved_parts;
use crate::text::{opt_str_view, owned, push_char, push_str, starts_with, str_eq, strings_view, is_prefix};
use self::cat::{cat_outcome, Cat};
use self::clear::{clear_text, Clear};
use self::echo::{echo_text, Echo};
use self::kill::{kill_outcome, Kill};
use self::ls::{ls_outcome, Ls};
use self::neofetch::{neofetch_text, Neofetch};
use self::ps::{ps_text, Ps};
use self::pwd::Pwd;
use self::rm::{rm_outcome, Rm};
use self::whoami::WhoAmI;

pub mod cat;
pub mod clear;
pub mod echo;
pub mod kill;
pub mod ls;
pub mod mkdir;
pub mod neofetch;
pub mod ps;
pub mod pwd;
pub mod rm;
pub mod touch;
pub mod uname;
pub mod whoami;

verus! {

broadcast use crate::fs::lemma_models_of;

/// What a command hands back: its output, its error text and its status.
pub struct Outcome {
    pub output: Seq<char>,
    pub error: Seq<char>,
    pub status: i32,
}

/// A success that prints `output`.
pub open spec fn ok_outcome(output: Seq<char>) -> Outcome {
    Outcome { output, error: Seq::empty(), status: 0 }
}

/// A failure that reports `error`.
pub open spec fn err_outcome(error: Seq<char>) -> Outcome {
    Outcome { output: Seq::empty(), error, status: 1 }
}

/// What a command hands back to the shell.
pub struct CommandResult {
    pub output: String,
    pub error: String,
    pub status: i32,
}

impl CommandResult {
    pub open spec fn model(&self) -> Outcome {
        Outcome { output: self.output@, error: self.error@, status: self.status }
    }

    /// A success that prints `output`.
    pub fn ok(output: String) -> (res: Self)
        ensures
            res.model() == ok_outcome(output@),
    {
        CommandResult { output, error: String::new(), status: 0 }
    }

    /// A failure that reports `error`.
    pub fn err(error: String) -> (res: Self)
        ensures
            res.model() == err_outcome(error@),
    {
        CommandResult { output: String::new(), error, status: 1 }
    }

    /// What the terminal shows: the output, then the error text.
    pub fn render(&self) -> (res: String)
        ensures
            res@ == self.output@ + self.error@,
    {
        let mut s = owned(self.output.as_str());
        push_str(&mut s, self.error.as_str());
        s
    }
}

/// A running process as the commands see it.
pub struct ProcessEntry {
    pub id: u32,
    pub name: String,
}

/// What a command works on: the working directory, the filesystem, the
/// process table, and the processes that commands asked to stop (which the
/// caller then stops).
pub struct CommandContext {
    pub pwd: String,
    pub fs: Filesystem,
    pub processes: Vec<ProcessEntry>,
    pub killed: Vec<u32>,
}

/// The model of a command's context.
pub struct ContextModel {
    pub pwd: Seq<char>,
    pub fs: Seq<EntryModel>,
    pub processes: Seq<(u32, Seq<char>)>,
    pub killed: Seq<u32>,
}

/// The ids and names of a process table.
pub open spec fn processes_view(v: Seq<ProcessEntry>) -> Seq<(u32, Seq<char>)> {
    Seq::new(v.len(), |i: int| (v[i].id, v[i].name@))
}

impl CommandContext {
    pub open spec fn model(&self) -> ContextModel {
        ContextModel {
            pwd: self.pwd@,
            fs: self.fs@,
            processes: processes_view(self.processes@),
            killed: self.killed@,
        }
    }
}

/// A command of the shell.
pub trait Command {
    /// The name the command is called by.
    fn name(&self) -> &'static str;

    /// Other names the command answers to.
    fn aliases(&self) -> &'static [&'static str];

    /// Runs the command on its arguments and, when it is fed by a pipe or a
    /// redirection, its input.
    fn run(&self, ctx: &mut CommandContext, args: &[String], stdin: Option<&str>) -> CommandResult;

    /// The candidates for the argument being typed.
    fn complete(&self, ctx: &mut CommandContext, args: &[String], cursor: usize) -> Vec<String>;
}

/// What stands up to and including the last `/` of a partial path, and what follows it.
pub open spec fn split_dir(partial: Seq<char>) -> (Seq<char>, Seq<char>) {
    match last_index_of(partial, '/') {
        Some(k) => (partial.take(k + 1), partial.skip(k + 1)),
        None => (Seq::empty(), partial),
    }
}

/// The completions of `prefix` among `children`: each one spelled after
/// `dir`, with a `/` after a directory; only directories when `dirs_only`.
pub open spec fn path_candidates(children: Seq<EntryModel>, dir: Seq<char>, prefix: Seq<char>, dirs_only: bool) -> Seq<Seq<char>>
    decreases children.len(),
{
    if children.len() == 0 {
        Seq::empty()
    } else {
        let r = path_candidates(children.drop_last(), dir, prefix, dirs_only);
        let c = children.last();
        if is_prefix(prefix, c.name) && (!dirs_only || is_directory(c)) {
            r.push(dir + c.name + if is_directory(c) { seq!['/'] } else { Seq::empty() })
        } else {
            r
        }
    }
}

/// The completions of argument `index` (empty when there is none) as a path
/// seen from the working directory: the entries of the directory it names
/// so far whose names start with what follows its last `/`.
pub open spec fn complete_path_spec(ctx: ContextModel, args: Seq<Seq<char>>, index: int, dirs_only: bool) -> Seq<Seq<char>> {
    let partial = if 0 <= index < args.len() { args[index] } else { Seq::empty() };
    let (dir, prefix) = split_dir(partial);
    let listed = if dir.len() == 0 { seq!['.'] } else { dir };
    match lookup(ctx.fs, resolved_parts(listed, Some(ctx.pwd))) {
        Some(e) => match e.data {
            DataModel::Directory(ch) => path_candidates(ch, dir, prefix, dirs_only),
            _ => Seq::empty(),
        },
        None => Seq::empty(),
    }
}

fn split_dir_exec(partial: &str) -> (res: (String, String))
    ensures
        res.0@ == split_dir(partial@).0,
        res.1@ == split_dir(partial@).1,
{
    let v = crate::text::chars_of(partial);
    let mut k: usize = v.len();
    assert(v@.take(k as int) =~= partial@);
    while k > 0
        invariant
            k <= v@.len(),
            v@ == partial@,
            last_index_of(partial@, '/') == last_index_of(v@.take(k as int), '/'),
        decreases k,
    {
        if v[k - 1] == '/' {
            assert(v@.take(k as int).last() == '/');
            let dir = crate::text::string_from_chars(&v, 0, k);
            let rest = crate::text::string_from_chars(&v, k, v.len());
            assert(v@.subrange(0, k as int) =~= partial@.take(k as int));
            assert(v@.subrange(k as int, v@.len() as int) =~= partial@.skip(k as int));
            return (dir, rest);
        }
        assert(v@.take(k as int).drop_last() =~= v@.take(k - 1));
        k = k - 1;
    }
    assert(v@.take(0) =~= Seq::<char>::empty());
    (String::new(), owned(partial))
}

/// Completes argument `index` as a path: the entries of the directory typed
/// so far whose names start with the rest, directories with a `/` after them.
pub fn complete_path(ctx: &CommandContext, args: &[String], index: usize, dirs_only: bool) -> (res: Vec<String>)
    ensures
        strings_view(res@) == complete_path_spec(ctx.model(), strings_view(args@), index as int, dirs_only),
{
    let empty = String::new();
    let partial: &str = if index < args.len() { args[index].as_str() } else { empty.as_str() };
    let (dir, prefix) = split_dir_exec(partial);
    let dot = owned(".");
    proof {
        reveal_strlit(".");
    }
    let listed: &str = if dir.as_str().is_empty() { dot.as_str() } else { dir.as_str() };
    assert(listed@ == (if dir@.len() == 0 { seq!['.'] } else { dir@ }));
    let children = match ctx.fs.resolve_read_dir(listed, Some(ctx.pwd.as_str())) {
        Some(c) => c,
        None => {
            return Vec::new();
        },
    };
    let ghost ch = models_of(children@);
    let mut res: Vec<String> = Vec::new();
    let mut k: usize = 0;
    while k < children.len()
        invariant
            k <= children@.len(),
            ch == models_of(children@),
            strings_view(res@) == path_candidates(ch.take(k as int), dir@, prefix@, dirs_only),
        decreases children@.len() - k,
    {
        let c = &children[k];
        assert(ch.take(k + 1).drop_last() =~= ch.take(k as int));
        assert(ch.take(k + 1).last() == c.model());
        let is_dir = match &c.data {
            FilesystemData::Directory { .. } => true,
            _ => false,
        };
        assert(is_dir == is_directory(c.model()));
        if starts_with(c.name.as_str(), prefix.as_str()) && (!dirs_only || is_dir) {
            let mut cand = owned(dir.as_str());
            push_str(&mut cand, c.name.as_str());
            if is_dir {
                push_char(&mut cand, '/');
            }
            assert(cand@ =~= dir@ + c.model().name + if is_directory(c.model()) {
                seq!['/']
            } else {
                Seq::empty()
            });
            let ghost before = res@;
            res.push(cand);
            assert(strings_view(res@) =~= strings_view(before).push(res@.last()@));
        }
        k = k + 1;
    }
    assert(ch.take(children@.len() as int) =~= ch);
    res
}

/// The commands that the shell finds by name, in the order it looks them up.
#[derive(Clone, Copy, Debug, PartialEq, Eq, Structural)]
pub enum Bin {
    Echo,
    Clear,
    Pwd,
    WhoAmI,
    Neofetch,
    Ls,
    Cat,
    Rm,
    Kill,
    Ps,
}

/// The name of a command.
pub open spec fn bin_name(b: Bin) -> Seq<char> {
    match b {
        Bin::Echo => "echo"@,
        Bin::Clear => "clear"@,
        Bin::Pwd => "pwd"@,
        Bin::WhoAmI => "whoami"@,
        Bin::Neofetch => "neofetch"@,
        Bin::Ls => "ls"@,
        Bin::Cat => "cat"@,
        Bin::Rm => "rm"@,
        Bin::Kill => "kill"@,
        Bin::Ps => "ps"@,
    }
}

/// The other names of a command.
pub open spec fn bin_aliases(b: Bin) -> Seq<Seq<char>> {
    match b {
        Bin::Neofetch => seq!["fastfetch"@],
        _ => Seq::empty(),
    }
}

/// Every command, in lookup order.
pub open spec fn all_bins() -> Seq<Bin> {
    seq![Bin::Echo, Bin::Clear, Bin::Pwd, Bin::WhoAmI, Bin::Neofetch, Bin::Ls, Bin::Cat, Bin::Rm, Bin::Kill, Bin::Ps]
}

/// Whether command `b` answers to `name`, by its name or an alias.
pub open spec fn answers_to(b: Bin, name: Seq<char>) -> bool {
    bin_name(b) == name || bin_aliases(b).contains(name)
}

/// The first command from position `k` on that answers to `name`.
pub open spec fn find_from(name: Seq<char>, k: int) -> Option<Bin>
    decreases all_bins().len() - k,
{
    if k < 0 || k >= all_bins().len() {
        None
    } else if answers_to(all_bins()[k], name) {
        Some(all_bins()[k])
    } else {
        find_from(name, k + 1)
    }
}

proof fn lemma_find_from(name: Seq<char>, k: int)
    requires
        0 <= k,
    ensures
        match find_from(name, k) {
            Some(c) => exists|i: int|
                k <= i < all_bins().len() && all_bins()[i] == c && answers_to(c, name) && forall|j: int|
                    k <= j < i ==> !answers_to(#[trigger] all_bins()[j], name),
            None => forall|j: int| k <= j < all_bins().len() ==> !answers_to(#[trigger] all_bins()[j], name),
        },
    decreases all_bins().len() - k,
{
    if k < all_bins().len() && !answers_to(all_bins()[k], name) {
        lemma_find_from(name, k + 1);
    }
}

/// Law: `find` gives the first registered command that answers to the name
/// (by its name or an alias), and nothing when none does.
pub proof fn law_find_first(name: Seq<char>)
    ensures
        match find_from(name, 0) {
            Some(c) => exists|i: int|
                0 <= i < all_bins().len() && all_bins()[i] == c && answers_to(c, name) && forall|j: int|
                    0 <= j < i ==> !answers_to(#[trigger] all_bins()[j], name),
            None => forall|j: int| 0 <= j < all_bins().len() ==> !answers_to(#[trigger] all_bins()[j], name),
        },
{
    lemma_find_from(name, 0);
}

/// What running command `b` hands back, and the context after it.
pub open spec fn bin_run(b: Bin, ctx: ContextModel, args: Seq<Seq<char>>, stdin: Option<Seq<char>>) -> (Outcome, ContextModel) {
    match b {
        Bin::Echo => (ok_outcome(echo_text(args)), ctx),
        Bin::Clear => (ok_outcome(clear_text()), ctx),
        Bin::Pwd => (ok_outcome(ctx.pwd + "\r\n"@), ctx),
        Bin::WhoAmI => (ok_outcome("inparsian\r\n"@), ctx),
        Bin::Neofetch => (ok_outcome(neofetch_text()), ctx),
        Bin::Ls => (ls_outcome(ctx, args), ctx),
        Bin::Cat => (cat_outcome(ctx, args, stdin), ctx),
        Bin::Rm => rm_outcome(ctx, args),
        Bin::Kill => kill_outcome(ctx, args),
        Bin::Ps => (ok_outcome(ps_text(ctx.processes)), ctx),
    }
}

/// The completions that command `b` offers: paths for the commands that
/// take them, nothing for the others.
pub open spec fn bin_complete(b: Bin, ctx: ContextModel, args: Seq<Seq<char>>) -> Seq<Seq<char>> {
    match b {
        Bin::Ls | Bin::Cat | Bin::Rm => complete_path_spec(ctx, args, 0, false),
        _ => Seq::empty(),
    }
}

impl Command for Bin {
    fn name(&self) -> (res: &'static str)
        ensures
            res@ == bin_name(*self),
    {
        match self {
            Bin::Echo => Echo.name(),
            Bin::Clear => Clear.name(),
            Bin::Pwd => Pwd.name(),
            Bin::WhoAmI => WhoAmI.name(),
            Bin::Neofetch => Neofetch.name(),
            Bin::Ls => Ls.name(),
            Bin::Cat => Cat.name(),
            Bin::Rm => Rm.name(),
            Bin::Kill => Kill.name(),
            Bin::Ps => Ps.name(),
        }
    }

    fn aliases(&self) -> (res: &'static [&'static str])
        ensures
            res@.len() == bin_aliases(*self).len(),
            forall|i: int| 0 <= i < res@.len() ==> #[trigger] res@[i]@ == bin_aliases(*self)[i],
    {
        match self {
            Bin::Echo => Echo.aliases(),
            Bin::Clear => Clear.aliases(),
            Bin::Pwd => Pwd.aliases(),
            Bin::WhoAmI => WhoAmI.aliases(),
            Bin::Neofetch => Neofetch.aliases(),
            Bin::Ls => Ls.aliases(),
            Bin::Cat => Cat.aliases(),
            Bin::Rm => Rm.aliases(),
            Bin::Kill => Kill.aliases(),
            Bin::Ps => Ps.aliases(),
        }
    }

    fn run(&self, ctx: &mut CommandContext, args: &[String], stdin: Option<&str>) -> (res: CommandResult)
        ensures
            (res.model(), final(ctx).model()) == bin_run(*self, old(ctx).model(), strings_view(args@), opt_str_view(stdin)),
    {
        match self {
            Bin::Echo => Echo.run(ctx, args, stdin),
            Bin::Clear => Clear.run(ctx, args, stdin),
            Bin::Pwd => Pwd.run(ctx, args, stdin),
            Bin::WhoAmI => WhoAmI.run(ctx, args, stdin),
            Bin::Neofetch => Neofetch.run(ctx, args, stdin),
            Bin::Ls => Ls.run(ctx, args, stdin),
            Bin::Cat => Cat.run(ctx, args, stdin),
            Bin::Rm => Rm.run(ctx, args, stdin),
            Bin::Kill => Kill.run(ctx, args, stdin),
            Bin::Ps => Ps.run(ctx, args, stdin),
        }
    }

    fn complete(&self, ctx: &mut CommandContext, args: &[String], cursor: usize) -> (res: Vec<String>)
        ensures
            strings_view(res@) == bin_complete(*self, old(ctx).model(), strings_view(args@)),
            final(ctx).model() == old(ctx).model(),
    {
        let res = match self {
            Bin::Echo => Echo.complete(ctx, args, cursor),
            Bin::Clear => Clear.complete(ctx, args, cursor),
            Bin::Pwd => Pwd.complete(ctx, args, cursor),
            Bin::WhoAmI => WhoAmI.complete(ctx, args, cursor),
            Bin::Neofetch => Neofetch.complete(ctx, args, cursor),
            Bin::Ls => Ls.complete(ctx, args, cursor),
            Bin::Cat => Cat.complete(ctx, args, cursor),
            Bin::Rm => Rm.complete(ctx, args, cursor),
            Bin::Kill => Kill.complete(ctx, args, cursor),
            Bin::Ps => Ps.complete(ctx, args, cursor),
        };
        assert(strings_view(res@) =~= bin_complete(*self, old(ctx).model(), strings_view(args@)));
        res
    }
}

/// Every command the shell finds by name, in lookup order.
pub fn bins() -> (res: Vec<Bin>)
    ensures
        res@ == all_bins(),
{
    let res = vec![Bin::Echo, Bin::Clear, Bin::Pwd, Bin::WhoAmI, Bin::Neofetch, Bin::Ls, Bin::Cat, Bin::Rm, Bin::Kill, Bin::Ps];
    assert(res@ =~= all_bins());
    res
}

/// The first command that answers to `name`, by its name or an alias.
pub fn find(name: &str) -> (res: Option<Bin>)
    ensures
        res == find_from(name@, 0),
{
    let all = bins();
    let mut k: usize = 0;
    while k < all.len()
        invariant
            k <= all@.len(),
            all@ == all_bins(),
            find_from(name@, 0) == find_from(name@, k as int),
        decreases all@.len() - k,
    {
        let b = all[k];
        let mut hit = str_eq(b.name(), name);
        let al = b.aliases();
        let mut j: usize = 0;
        while j < al.len()
            invariant
                j <= al@.len(),
                al@.len() == bin_aliases(b).len(),
                forall|i: int| 0 <= i < al@.len() ==> #[trigger] al@[i]@ == bin_aliases(b)[i],
                hit == (bin_name(b) == name@ || exists|i: int| 0 <= i < j && bin_aliases(b)[i] == name@),
            decreases al@.len() - j,
        {
            if str_eq(al[j], name) {
                hit = true;
            }
            j = j + 1;
        }
        proof {
            if bin_aliases(b).contains(name@) {
                let i = choose|i: int| 0 <= i < bin_aliases(b).len() && bin_aliases(b)[i] == name@;
                assert(al@[i]@ == bin_aliases(b)[i]);
            }
        }
        if hit {
            return Some(b);
        }
        k = k + 1;
    }
    None
}

} // verus!
