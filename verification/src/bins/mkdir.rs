//! `mkdir`: makes directories.
use vstd::prelude::*;
use super::{complete_path_spec, ok_outcome, Command, CommandContext, CommandResult, ContextModel, Outcome};
use crate::fs::{create_message, create_outcome, is_directory, join_slash, last_index_of, leaf_of, lemma_last_index_of, lookup, modify_at, parent_of, position_of, DataModel, EntryModel, Filesystem, FilesystemData};
use crate::fs::frame::{lemma_lookup_append, lemma_lookup_push_other, lemma_modify_above, lemma_modify_apart, path_prefix};
use crate::fs::laws::{lemma_absolute_names, lemma_last_index_skip, lemma_lookup_modify, lemma_lookup_push, lemma_normalize_slash_free, lemma_position_push_new, slash_free};
use crate::fs::path::{apply_piece, is_dot, is_dot_dot, is_dot_exec, is_dot_dot_exec, lemma_normalize_proper, normalize, proper_names, resolved_parts, split_pieces, split_slash, target_chars};
use crate::text::{char_vecs_view, chars_of, opt_str_view, owned, push_char, push_str, string_from_chars, str_eq, strings_view};

verus! {

/// Makes a directory at each argument; with `-p`, every missing directory
/// on the way too.
pub struct Mkdir;

/// The `mkdir` command.
pub const MKDIR: Mkdir = Mkdir;

/// The first character of `s` that is not `p`.
pub open spec fn first_not_p(s: Seq<char>) -> Option<char>
    decreases s.len(),
{
    if s.len() == 0 {
        None
    } else if s[0] != 'p' {
        Some(s[0])
    } else {
        first_not_p(s.drop_first())
    }
}

/// Reads the arguments from `i` on: options (only `-p` exists) until `--`,
/// and paths. The result is whether `-p` was given and the paths, or the
/// first unknown option letter.
pub open spec fn scan_args(args: Seq<Seq<char>>, i: int, options: bool, parents: bool, paths: Seq<Seq<char>>) -> Result<(bool, Seq<Seq<char>>), char>
    decreases args.len() - i,
{
    if i < 0 || i >= args.len() {
        Ok((parents, paths))
    } else {
        let a = args[i];
        if options && a == "--"@ {
            scan_args(args, i + 1, false, parents, paths)
        } else if options && a.len() > 1 && a[0] == '-' {
            match first_not_p(a.drop_first()) {
                Some(c) => Err(c),
                None => scan_args(args, i + 1, options, true, paths),
            }
        } else {
            scan_args(args, i + 1, options, parents, paths.push(a))
        }
    }
}

/// `s` without its trailing slashes.
pub open spec fn trim_end_slashes(s: Seq<char>) -> Seq<char>
    decreases s.len(),
{
    if s.len() > 0 && s.last() == '/' {
        trim_end_slashes(s.drop_last())
    } else {
        s
    }
}

/// The absolute path that `path` names, seen from `pwd` (the root when there is none).
pub open spec fn absolute_target(path: Seq<char>, pwd: Option<Seq<char>>) -> Seq<char> {
    if path.len() > 0 && path[0] == '/' {
        path
    } else {
        let base = trim_end_slashes(
            match pwd {
                Some(p) => p,
                None => seq!['/'],
            },
        );
        if base.len() == 0 {
            seq!['/'] + path
        } else {
            base + seq!['/'] + path
        }
    }
}

/// The pieces that are neither empty nor `.`, in order.
pub open spec fn kept_pieces(pieces: Seq<Seq<char>>) -> Seq<Seq<char>>
    decreases pieces.len(),
{
    if pieces.len() == 0 {
        Seq::empty()
    } else {
        let r = kept_pieces(pieces.drop_last());
        let p = pieces.last();
        if p.len() == 0 || is_dot(p) { r } else { r.push(p) }
    }
}

/// A new, empty directory for `path`.
pub open spec fn new_dir_model(path: Seq<char>) -> EntryModel {
    EntryModel { name: leaf_of(path), data: DataModel::Directory(Seq::empty()) }
}

/// Walks the pieces from `i` on, growing the absolute `prefix`: `..` drops
/// its last name, any other piece is added and must be a directory, which is
/// made when missing. The result is the filesystem and, on failure, why.
pub open spec fn walk_dirs(fs: Seq<EntryModel>, parts: Seq<Seq<char>>, i: int, prefix: Seq<char>) -> (Seq<EntryModel>, Result<(), Seq<char>>)
    decreases parts.len() - i,
{
    if i < 0 || i >= parts.len() {
        (fs, Ok(()))
    } else if is_dot_dot(parts[i]) {
        let up = match last_index_of(prefix, '/') {
            Some(k) => prefix.take(k),
            None => Seq::empty(),
        };
        walk_dirs(fs, parts, i + 1, up)
    } else {
        let next = prefix + seq!['/'] + parts[i];
        match lookup(fs, resolved_parts(next, None)) {
            Some(e) => if is_directory(e) {
                walk_dirs(fs, parts, i + 1, next)
            } else {
                (fs, Err("Path is not a directory: "@ + next))
            },
            None => match create_outcome(fs, next, None, new_dir_model(next)) {
                Ok(m) => walk_dirs(m, parts, i + 1, next),
                Err(e) => (fs, Err(create_message(e, next, "Directory already exists"@))),
            },
        }
    }
}

/// `path` and every directory on the way to it made, as `mkdir -p` does:
/// nothing to do when it is a directory already, an error when it is
/// something else.
pub open spec fn create_dir_all_outcome(fs: Seq<EntryModel>, path: Seq<char>, pwd: Option<Seq<char>>) -> (Seq<EntryModel>, Result<(), Seq<char>>) {
    match lookup(fs, resolved_parts(path, pwd)) {
        Some(e) => if is_directory(e) {
            (fs, Ok(()))
        } else {
            (fs, Err("Path is not a directory: "@ + path))
        },
        None => walk_dirs(fs, kept_pieces(split_slash(absolute_target(path, pwd))), 0, Seq::empty()),
    }
}

/// One directory made at `path`, with its parents when `parents` is set.
pub open spec fn mkdir_one(fs: Seq<EntryModel>, pwd: Seq<char>, path: Seq<char>, parents: bool) -> (Seq<EntryModel>, Result<(), Seq<char>>) {
    if parents {
        create_dir_all_outcome(fs, path, Some(pwd))
    } else {
        match create_outcome(fs, path, Some(pwd), new_dir_model(path)) {
            Ok(m) => (m, Ok(())),
            Err(e) => (fs, Err(create_message(e, path, "Directory already exists"@))),
        }
    }
}

/// Every path made in turn; the failures are reported one per line.
pub open spec fn mkdir_all(fs: Seq<EntryModel>, pwd: Seq<char>, paths: Seq<Seq<char>>, parents: bool) -> (Seq<EntryModel>, Seq<char>)
    decreases paths.len(),
{
    if paths.len() == 0 {
        (fs, Seq::empty())
    } else {
        let (fs1, out) = mkdir_all(fs, pwd, paths.drop_last(), parents);
        let (fs2, r) = mkdir_one(fs1, pwd, paths.last(), parents);
        match r {
            Ok(()) => (fs2, out),
            Err(msg) => (fs2, out + "mkdir: "@ + msg + "\r\n"@),
        }
    }
}

/// What `mkdir` hands back and the context after it.
pub open spec fn mkdir_outcome(ctx: ContextModel, args: Seq<Seq<char>>) -> (Outcome, ContextModel) {
    match scan_args(args, 0, true, false, Seq::empty()) {
        Err(c) => (ok_outcome("mkdir: invalid option -- '"@ + seq![c] + "'\r\n"@), ctx),
        Ok((parents, paths)) => if paths.len() == 0 {
            (ok_outcome("mkdir: not enough arguments\r\n"@), ctx)
        } else {
            let (fs, out) = mkdir_all(ctx.fs, ctx.pwd, paths, parents);
            (ok_outcome(out), ContextModel { fs, ..ctx })
        },
    }
}

/// The first argument that can be a path: one that is not an option, or `-`.
pub open spec fn first_path_index(args: Seq<Seq<char>>, i: int) -> int
    decreases args.len() - i,
{
    if i < 0 || i >= args.len() {
        args.len() as int
    } else if !(args[i].len() > 0 && args[i][0] == '-') || args[i] == "-"@ {
        i
    } else {
        first_path_index(args, i + 1)
    }
}

fn first_not_p_exec(v: &Vec<char>, from: usize) -> (res: Option<char>)
    requires
        from <= v@.len(),
    ensures
        res == first_not_p(v@.skip(from as int)),
    decreases v@.len() - from,
{
    if from >= v.len() {
        assert(v@.skip(from as int).len() == 0);
        None
    } else if v[from] != 'p' {
        Some(v[from])
    } else {
        assert(v@.skip(from as int).drop_first() =~= v@.skip(from + 1));
        first_not_p_exec(v, from + 1)
    }
}

fn trim_end_slashes_exec(s: &str) -> (res: String)
    ensures
        res@ == trim_end_slashes(s@),
{
    let v = chars_of(s);
    let mut k: usize = v.len();
    assert(v@.take(k as int) =~= s@);
    while k > 0 && v[k - 1] == '/'
        invariant
            k <= v@.len(),
            v@ == s@,
            trim_end_slashes(s@) == trim_end_slashes(v@.take(k as int)),
        decreases k,
    {
        assert(v@.take(k as int).drop_last() =~= v@.take(k - 1));
        k = k - 1;
    }
    string_from_chars(&v, 0, k)
}

fn absolute_target_exec(path: &str, pwd: Option<&str>) -> (res: String)
    ensures
        res@ == absolute_target(path@, opt_str_view(pwd)),
{
    let v = chars_of(path);
    if v.len() > 0 && v[0] == '/' {
        return owned(path);
    }
    let root = owned("/");
    proof {
        reveal_strlit("/");
        assert(root@ =~= seq!['/']);
    }
    let base = match pwd {
        Some(p) => trim_end_slashes_exec(p),
        None => trim_end_slashes_exec(root.as_str()),
    };
    if base.as_str().is_empty() {
        let mut t = owned("/");
        push_str(&mut t, path);
        assert(t@ =~= seq!['/'] + path@);
        t
    } else {
        let mut t = base;
        push_char(&mut t, '/');
        push_str(&mut t, path);
        assert(t@ =~= base@ + seq!['/'] + path@);
        t
    }
}

fn kept_pieces_exec(pieces: &Vec<Vec<char>>) -> (res: Vec<String>)
    ensures
        strings_view(res@) == kept_pieces(char_vecs_view(pieces@)),
{
    let ghost pv = char_vecs_view(pieces@);
    let mut res: Vec<String> = Vec::new();
    let mut k: usize = 0;
    while k < pieces.len()
        invariant
            k <= pieces@.len(),
            pv == char_vecs_view(pieces@),
            strings_view(res@) == kept_pieces(pv.take(k as int)),
        decreases pieces@.len() - k,
    {
        assert(pv.take(k + 1).drop_last() =~= pv.take(k as int));
        assert(pv.take(k + 1).last() == pieces@[k as int]@);
        let p = &pieces[k];
        if !(p.len() == 0 || is_dot_exec(p)) {
            let s = string_from_chars(p, 0, p.len());
            assert(s@ =~= p@);
            let ghost before = strings_view(res@);
            res.push(s);
            assert(strings_view(res@) =~= before.push(p@));
        }
        k = k + 1;
    }
    assert(pv.take(pieces@.len() as int) =~= pv);
    res
}

fn drop_last_name(prefix: &String) -> (res: String)
    ensures
        res@ == match last_index_of(prefix@, '/') {
            Some(k) => prefix@.take(k),
            None => Seq::empty(),
        },
{
    let v = chars_of(prefix.as_str());
    let mut k: usize = v.len();
    assert(v@.take(k as int) =~= prefix@);
    while k > 0
        invariant
            k <= v@.len(),
            v@ == prefix@,
            last_index_of(prefix@, '/') == last_index_of(v@.take(k as int), '/'),
        decreases k,
    {
        if v[k - 1] == '/' {
            assert(v@.take(k as int).last() == '/');
            let head = string_from_chars(&v, 0, k - 1);
            assert(v@.subrange(0, k - 1) =~= prefix@.take(k - 1));
            return head;
        }
        assert(v@.take(k as int).drop_last() =~= v@.take(k - 1));
        k = k - 1;
    }
    String::new()
}

/// Makes `path` and every missing directory on the way to it.
pub fn create_dir_all(fs: &mut Filesystem, path: &str, pwd: Option<&str>) -> (res: Result<(), String>)
    ensures
        ({
            let (m, r) = create_dir_all_outcome(old(fs)@, path@, opt_str_view(pwd));
            &&& final(fs)@ == m
            &&& match r {
                Ok(()) => res is Ok,
                Err(msg) => res is Err && res->Err_0@ == msg,
            }
        }),
{
    match fs.resolve_read(path, pwd) {
        Some(entry) => {
            return match &entry.data {
                FilesystemData::Directory { .. } => Ok(()),
                _ => {
                    let mut m = owned("Path is not a directory: ");
                    push_str(&mut m, path);
                    Err(m)
                },
            };
        },
        None => {},
    }
    let target = absolute_target_exec(path, pwd);
    let tv = chars_of(target.as_str());
    let pieces = split_pieces(&tv);
    let parts = kept_pieces_exec(&pieces);
    let ghost pv = strings_view(parts@);
    let mut prefix = String::new();
    let mut i: usize = 0;
    while i < parts.len()
        invariant
            i <= parts@.len(),
            pv == strings_view(parts@),
            pv == kept_pieces(split_slash(absolute_target(path@, opt_str_view(pwd)))),
            lookup(old(fs)@, resolved_parts(path@, opt_str_view(pwd))) is None,
            walk_dirs(old(fs)@, pv, 0, Seq::empty()) == walk_dirs(fs@, pv, i as int, prefix@),
        decreases parts@.len() - i,
    {
        let part = &parts[i];
        let pc = chars_of(part.as_str());
        assert(pv[i as int] == part@);
        if is_dot_dot_exec(&pc) {
            prefix = drop_last_name(&prefix);
            i = i + 1;
            continue;
        }
        let ghost before = prefix@;
        push_char(&mut prefix, '/');
        push_str(&mut prefix, part.as_str());
        assert(prefix@ =~= before + seq!['/'] + pv[i as int]);
        let exists = match fs.resolve_read(prefix.as_str(), None) {
            Some(entry) => match &entry.data {
                FilesystemData::Directory { .. } => Some(true),
                _ => Some(false),
            },
            None => None,
        };
        match exists {
            Some(true) => {},
            Some(false) => {
                let mut m = owned("Path is not a directory: ");
                push_str(&mut m, prefix.as_str());
                return Err(m);
            },
            None => {
                match fs.create_directory(prefix.as_str(), None) {
                    Ok(()) => {},
                    Err(e) => {
                        return Err(e);
                    },
                }
            },
        }
        i = i + 1;
    }
    Ok(())
}

fn is_path_arg(a: &String) -> (res: bool)
    ensures
        res == (!(a@.len() > 0 && a@[0] == '-') || a@ == "-"@),
{
    let v = chars_of(a.as_str());
    !(v.len() > 0 && v[0] == '-') || str_eq(a.as_str(), "-")
}

impl Command for Mkdir {
    fn name(&self) -> (res: &'static str)
        ensures
            res@ == "mkdir"@,
    {
        "mkdir"
    }

    fn aliases(&self) -> (res: &'static [&'static str])
        ensures
            res@.len() == 0,
    {
        &[]
    }

    fn run(&self, ctx: &mut CommandContext, args: &[String], stdin: Option<&str>) -> (res: CommandResult)
        ensures
            (res.model(), final(ctx).model()) == mkdir_outcome(old(ctx).model(), strings_view(args@)),
    {
        let ghost av = strings_view(args@);
        let mut parents = false;
        let mut options = true;
        let mut paths: Vec<String> = Vec::new();
        let mut k: usize = 0;
        proof {
            reveal_strlit("--");
        }
        assert(strings_view(paths@) =~= Seq::<Seq<char>>::empty());
        while k < args.len()
            invariant
                k <= args@.len(),
                av == strings_view(args@),
                scan_args(av, 0, true, false, Seq::empty()) == scan_args(av, k as int, options, parents, strings_view(paths@)),
            decreases args@.len() - k,
        {
            let a = args[k].as_str();
            assert(av[k as int] == a@);
            if options && str_eq(a, "--") {
                options = false;
                k = k + 1;
                continue;
            }
            let v = chars_of(a);
            if options && v.len() > 1 && v[0] == '-' {
                assert(v@.drop_first() =~= v@.skip(1));
                match first_not_p_exec(&v, 1) {
                    Some(c) => {
                        let mut m = owned("mkdir: invalid option -- '");
                        push_char(&mut m, c);
                        push_str(&mut m, "'\r\n");
                        assert(m@ =~= "mkdir: invalid option -- '"@ + seq![c] + "'\r\n"@);
                        assert(scan_args(av, k as int, options, parents, strings_view(paths@)) == Err::<(bool, Seq<Seq<char>>), char>(c));
                        return CommandResult::ok(m);
                    },
                    None => {
                        parents = true;
                    },
                }
            } else {
                let ghost before = strings_view(paths@);
                paths.push(owned(a));
                assert(strings_view(paths@) =~= before.push(a@));
            }
            k = k + 1;
        }
        if paths.len() == 0 {
            return CommandResult::ok(owned("mkdir: not enough arguments\r\n"));
        }
        let ghost ps = strings_view(paths@);
        let pwd = owned(ctx.pwd.as_str());
        let mut out = String::new();
        let mut j: usize = 0;
        assert(ps.take(0) =~= Seq::<Seq<char>>::empty());
        while j < paths.len()
            invariant
                j <= paths@.len(),
                ps == strings_view(paths@),
                pwd@ == old(ctx).pwd@,
                ctx.pwd@ == old(ctx).pwd@,
                ctx.processes@ == old(ctx).processes@,
                ctx.killed@ == old(ctx).killed@,
                (ctx.fs@, out@) == mkdir_all(old(ctx).fs@, pwd@, ps.take(j as int), parents),
            decreases paths@.len() - j,
        {
            assert(ps.take(j + 1).drop_last() =~= ps.take(j as int));
            assert(ps.take(j + 1).last() == paths@[j as int]@);
            let path = paths[j].as_str();
            let result = if parents {
                create_dir_all(&mut ctx.fs, path, Some(pwd.as_str()))
            } else {
                ctx.fs.create_directory(path, Some(pwd.as_str()))
            };
            match result {
                Ok(()) => {},
                Err(e) => {
                    push_str(&mut out, "mkdir: ");
                    push_str(&mut out, e.as_str());
                    push_str(&mut out, "\r\n");
                },
            }
            j = j + 1;
        }
        assert(ps.take(paths@.len() as int) =~= ps);
        CommandResult::ok(out)
    }

    fn complete(&self, ctx: &mut CommandContext, args: &[String], cursor: usize) -> (res: Vec<String>)
        ensures
            strings_view(res@) == complete_path_spec(
                old(ctx).model(),
                strings_view(args@),
                first_path_index(strings_view(args@), 0),
                true,
            ),
            final(ctx).model() == old(ctx).model(),
    {
        let ghost av = strings_view(args@);
        let mut k: usize = 0;
        while k < args.len() && !is_path_arg(&args[k])
            invariant
                k <= args@.len(),
                av == strings_view(args@),
                first_path_index(av, 0) == first_path_index(av, k as int),
            decreases args@.len() - k,
        {
            assert(av[k as int] == args@[k as int]@);
            k = k + 1;
        }
        proof {
            if k < args@.len() {
                assert(av[k as int] == args@[k as int]@);
            }
        }
        if k == args.len() {
            let blank = vec![String::new()];
            let res = super::complete_path(ctx, blank.as_slice(), 0, true);
            assert(strings_view(blank@).len() == 1);
            assert(strings_view(blank@)[0] == Seq::<char>::empty());
            return res;
        }
        super::complete_path(ctx, args, k, true)
    }
}

/// The kept pieces of slash-free pieces are slash-free names, none empty or `.`.
proof fn lemma_kept_pieces(pieces: Seq<Seq<char>>)
    requires
        crate::fs::laws::slash_free(pieces),
    ensures
        crate::fs::laws::slash_free(kept_pieces(pieces)),
        forall|j: int|
            0 <= j < kept_pieces(pieces).len() ==> #[trigger] kept_pieces(pieces)[j].len() > 0 && !is_dot(
                kept_pieces(pieces)[j],
            ),
    decreases pieces.len(),
{
    if pieces.len() > 0 {
        let front = pieces.drop_last();
        assert forall|i: int, j: int| 0 <= i < front.len() && 0 <= j < front[i].len() implies #[trigger] front[i][j]
            != '/' by {
            assert(front[i] == pieces[i]);
        }
        lemma_kept_pieces(front);
        let r = kept_pieces(front);
        let p = pieces.last();
        if !(p.len() == 0 || is_dot(p)) {
            let k = r.push(p);
            assert forall|i: int, j: int| 0 <= i < k.len() && 0 <= j < k[i].len() implies #[trigger] k[i][j] != '/' by {
                if i < r.len() {
                    assert(k[i] == r[i]);
                } else {
                    assert(k[i] == pieces[pieces.len() - 1]);
                }
            }
        }
    }
}

/// The pieces that the walk of `mkdir -p` goes through: those of the
/// absolute target that are neither empty nor `.`.
pub open spec fn walk_pieces(path: Seq<char>, pwd: Option<Seq<char>>) -> Seq<Seq<char>> {
    kept_pieces(split_slash(absolute_target(path, pwd)))
}

/// The names that the walk has reached after its first `k` pieces.
pub open spec fn reached(parts: Seq<Seq<char>>, k: int) -> Seq<Seq<char>> {
    normalize(parts.take(k))
}

/// The absolute path written from some names (nothing for the root).
pub open spec fn absolute_of(names: Seq<Seq<char>>) -> Seq<char> {
    if names.len() == 0 {
        Seq::empty()
    } else {
        seq!['/'] + join_slash(names)
    }
}

/// Whether every entry found in `m` and not in `fs` is a directory.
pub open spec fn only_new_dirs(fs: Seq<EntryModel>, m: Seq<EntryModel>) -> bool {
    forall|q: Seq<Seq<char>>|
        #[trigger] lookup(m, q) is Some && lookup(fs, q) is None ==> is_directory(lookup(m, q)->0)
}

/// A name after a `/` goes one level down.
proof fn lemma_absolute_push(names: Seq<Seq<char>>, y: Seq<char>)
    ensures
        absolute_of(names) + seq!['/'] + y == absolute_of(names.push(y)),
{
    let n = names.push(y);
    assert(n.drop_last() =~= names);
    assert(n.last() == y);
    if names.len() == 0 {
        assert(join_slash(n) == y);
        assert(Seq::<char>::empty() + seq!['/'] + y =~= seq!['/'] + y);
    } else {
        assert(join_slash(n) == join_slash(names) + seq!['/'] + y);
        assert(seq!['/'] + join_slash(names) + seq!['/'] + y =~= seq!['/'] + (join_slash(names) + seq!['/'] + y));
    }
}

/// Cutting an absolute path at its last `/` goes one level up (never above the root).
proof fn lemma_absolute_up(names: Seq<Seq<char>>)
    requires
        slash_free(names),
    ensures
        match last_index_of(absolute_of(names), '/') {
            Some(k) => absolute_of(names).take(k),
            None => Seq::empty(),
        } == absolute_of(
            if names.len() > 0 {
                names.drop_last()
            } else {
                names
            },
        ),
{
    if names.len() > 0 {
        let front = names.drop_last();
        let y = names.last();
        lemma_absolute_push(front, y);
        assert(front.push(y) =~= names);
        assert forall|j: int| 0 <= j < y.len() implies y[j] != '/' by {
            assert(y[j] == names[names.len() - 1][j]);
        }
        lemma_last_index_skip(absolute_of(front) + seq!['/'], y, '/');
        assert(last_index_of(absolute_of(front) + seq!['/'], '/') == Some(absolute_of(front).len() as int)) by {
            assert((absolute_of(front) + seq!['/']).drop_last() =~= absolute_of(front));
        }
        assert(absolute_of(names) =~= (absolute_of(front) + seq!['/']) + y);
        assert(absolute_of(names).take(absolute_of(front).len() as int) =~= absolute_of(front));
    }
}

/// The absolute path of proper names resolves to those names.
proof fn lemma_absolute_resolves(names: Seq<Seq<char>>)
    requires
        slash_free(names),
        proper_names(names),
    ensures
        resolved_parts(absolute_of(names), None) == names,
{
    if names.len() > 0 {
        lemma_absolute_names(names, None);
    } else {
        let e = Seq::<char>::empty();
        assert(split_slash(e) == seq![e]);
        assert(seq![e].drop_last() =~= Seq::<Seq<char>>::empty());
        assert(normalize(seq![e]) == apply_piece(normalize(Seq::<Seq<char>>::empty()), e));
        assert(resolved_parts(e, None) =~= names);
    }
}

/// Where the walk stands after `k` pieces is a list of proper names, and
/// the next piece moves it as normalising does.
proof fn lemma_reached(parts: Seq<Seq<char>>, k: int)
    requires
        0 <= k <= parts.len(),
        slash_free(parts),
    ensures
        proper_names(reached(parts, k)),
        slash_free(reached(parts, k)),
        k < parts.len() ==> reached(parts, k + 1) == apply_piece(reached(parts, k), parts[k]),
{
    let t = parts.take(k);
    assert(slash_free(t)) by {
        assert forall|a: int, b: int| 0 <= a < t.len() && 0 <= b < t[a].len() implies #[trigger] t[a][b] != '/' by {
            assert(t[a] == parts[a]);
        }
    }
    lemma_normalize_proper(t);
    lemma_normalize_slash_free(t);
    if k < parts.len() {
        assert(parts.take(k + 1).drop_last() =~= t);
        assert(parts.take(k + 1).last() == parts[k]);
    }
}

/// After an empty directory is put into the directory at `dir`, the only
/// path found that was not found before is that of the new directory.
proof fn lemma_add_empty_dir(fs: Seq<EntryModel>, dir: Seq<Seq<char>>, c: EntryModel, q: Seq<Seq<char>>)
    requires
        dir.len() > 0,
        lookup(fs, dir) matches Some(p) && p.data is Directory,
        position_of(lookup(fs, dir)->0.data->Directory_0, c.name) is None,
        c.data == DataModel::Directory(Seq::<EntryModel>::empty()),
        lookup(fs, q) is None,
    ensures
        ({
            let p = lookup(fs, dir)->0;
            let np = EntryModel { name: p.name, data: DataModel::Directory(p.data->Directory_0.push(c)) };
            lookup(modify_at(fs, dir, np), q) is Some ==> lookup(modify_at(fs, dir, np), q) == Some(c)
        }),
{
    let p = lookup(fs, dir)->0;
    let ch = p.data->Directory_0;
    let np = EntryModel { name: p.name, data: DataModel::Directory(ch.push(c)) };
    let m = modify_at(fs, dir, np);
    if path_prefix(q, dir) {
        if q.len() < dir.len() {
            lemma_modify_above(fs, dir, np, q);
        } else {
            assert(q =~= dir);
        }
    } else if path_prefix(dir, q) {
        let rest = q.skip(dir.len() as int);
        assert(q =~= dir + rest);
        if rest.len() == 0 {
            assert(q.take(dir.len() as int) =~= q);
        }
        lemma_lookup_modify(fs, dir, np);
        lemma_lookup_append(m, dir, rest);
        lemma_lookup_append(fs, dir, rest);
        if rest[0] != c.name {
            lemma_lookup_push_other(ch, c, rest);
        } else {
            lemma_position_push_new(ch, c);
            assert(ch.push(c)[ch.len() as int] == c);
            if rest.len() > 1 {
                assert(lookup(Seq::<EntryModel>::empty(), rest.drop_first()) is None);
            }
        }
    } else {
        lemma_modify_apart(fs, dir, np, q);
    }
}

/// The walk of `mkdir -p` from the `i`-th piece on, when every path that it
/// reaches designates a directory or nothing in `fs0`, every name that it
/// reaches at the root exists in `fs0`, the current filesystem keeps what
/// `fs0` holds and adds only directories, and the walk stands at a directory:
/// it succeeds, ends at a directory, and keeps everything `fs0` holds.
proof fn lemma_walk_makes_path(fs0: Seq<EntryModel>, fs: Seq<EntryModel>, parts: Seq<Seq<char>>, i: int)
    requires
        0 <= i <= parts.len(),
        slash_free(parts),
        forall|j: int| #![trigger parts[j]] 0 <= j < parts.len() ==> parts[j].len() > 0 && !is_dot(parts[j]),
        forall|k: int|
            #![trigger reached(parts, k)]
            0 <= k <= parts.len() ==> (lookup(fs0, reached(parts, k)) matches Some(e) ==> is_directory(e)),
        forall|k: int|
            #![trigger reached(parts, k)]
            0 <= k <= parts.len() && reached(parts, k).len() == 1 ==> lookup(fs0, reached(parts, k)) is Some,
        crate::fs::laws::keeps_all(fs0, fs),
        only_new_dirs(fs0, fs),
        lookup(fs, reached(parts, i)) matches Some(e) && is_directory(e),
    ensures
        ({
            let (m, r) = walk_dirs(fs, parts, i, absolute_of(reached(parts, i)));
            &&& r is Ok
            &&& lookup(m, reached(parts, parts.len() as int)) matches Some(e) && is_directory(e)
            &&& crate::fs::laws::keeps_all(fs0, m)
        }),
    decreases parts.len() - i,
{
    if i < parts.len() {
        let n = reached(parts, i);
        let n1 = reached(parts, i + 1);
        let prefix = absolute_of(n);
        lemma_reached(parts, i);
        lemma_reached(parts, i + 1);
        let y = parts[i];
        if is_dot_dot(y) {
            lemma_absolute_up(n);
            if n.len() > 0 {
                assert(path_prefix(n1, n)) by {
                    assert(n.take(n1.len() as int) =~= n1);
                }
                lemma_modify_above(fs, n, lookup(fs, n)->0, n1);
            }
            lemma_walk_makes_path(fs0, fs, parts, i + 1);
        } else {
            let next = prefix + seq!['/'] + y;
            assert(y.len() > 0 && !is_dot(y));
            assert(n1 == n.push(y));
            lemma_absolute_push(n, y);
            lemma_absolute_resolves(n1);
            assert(resolved_parts(next, None) == n1);
            assert(lookup(fs0, reached(parts, i + 1)) matches Some(e) ==> is_directory(e));
            match lookup(fs, n1) {
                Some(e) => {
                    if lookup(fs0, n1) is Some {
                        assert(crate::fs::laws::kept_entry(lookup(fs0, n1)->0, lookup(fs, n1)));
                    } else {
                        assert(lookup(fs, n1) is Some && lookup(fs0, n1) is None);
                    }
                    lemma_walk_makes_path(fs0, fs, parts, i + 1);
                },
                None => {
                    if lookup(fs0, n1) is Some {
                        assert(crate::fs::laws::kept_entry(lookup(fs0, n1)->0, lookup(fs, n1)));
                    }
                    assert(n1.len() != 1);
                    assert(n.len() > 0);
                    lemma_absolute_resolves(n);
                    assert forall|j: int| 0 <= j < y.len() implies y[j] != '/' by {
                        assert(y[j] == parts[i][j]);
                    }
                    lemma_last_index_skip(prefix + seq!['/'], y, '/');
                    assert(last_index_of(prefix + seq!['/'], '/') == Some(prefix.len() as int)) by {
                        assert((prefix + seq!['/']).drop_last() =~= prefix);
                    }
                    lemma_last_index_of(next, '/');
                    assert(next =~= (prefix + seq!['/']) + y);
                    assert(parent_of(next) =~= prefix);
                    assert(leaf_of(next) =~= y);
                    let child = new_dir_model(next);
                    let p = lookup(fs, n)->0;
                    let ch = p.data->Directory_0;
                    let np = EntryModel { name: p.name, data: DataModel::Directory(ch.push(child)) };
                    let m = modify_at(fs, n, np);
                    assert(create_outcome(fs, next, None, child) == Ok::<Seq<EntryModel>, crate::fs::CreateError>(m));
                    lemma_lookup_push(fs, n, y);
                    lemma_lookup_modify(fs, n, np);
                    lemma_position_push_new(ch, child);
                    lemma_lookup_push(m, n, y);
                    assert(lookup(m, n1) == Some(child));
                    assert forall|q: Seq<Seq<char>>| #[trigger] lookup(fs0, q) is Some implies crate::fs::laws::kept_entry(
                        lookup(fs0, q)->0,
                        lookup(m, q),
                    ) by {
                        assert(crate::fs::laws::kept_entry(lookup(fs0, q)->0, lookup(fs, q)));
                        crate::fs::laws::lemma_add_child_keeps(fs, n, child, q);
                    }
                    assert forall|q: Seq<Seq<char>>| #[trigger] lookup(m, q) is Some && lookup(fs0, q) is None implies is_directory(
                        lookup(m, q)->0,
                    ) by {
                        if lookup(fs, q) is Some {
                            assert(lookup(fs, q) is Some && lookup(fs0, q) is None);
                            crate::fs::laws::lemma_add_child_keeps(fs, n, child, q);
                        } else {
                            lemma_add_empty_dir(fs, n, child, q);
                        }
                    }
                    lemma_walk_makes_path(fs0, m, parts, i + 1);
                },
            }
        }
    }
}

/// The pieces around a `/` are the pieces before it and those after it.
pub(crate) proof fn lemma_split_around_slash(a: Seq<char>, b: Seq<char>)
    ensures
        split_slash(a + seq!['/'] + b) == split_slash(a) + split_slash(b),
    decreases b.len(),
{
    crate::fs::laws::lemma_split_slash_free(b);
    if b.len() == 0 {
        assert(a + seq!['/'] + b =~= a + seq!['/']);
        assert((a + seq!['/']).drop_last() =~= a);
        assert(split_slash(a) + split_slash(b) =~= split_slash(a).push(Seq::<char>::empty()));
    } else {
        let b1 = b.drop_last();
        let c = b.last();
        lemma_split_around_slash(a, b1);
        crate::fs::laws::lemma_split_slash_free(b1);
        assert((a + seq!['/'] + b).drop_last() =~= a + seq!['/'] + b1);
        assert((a + seq!['/'] + b).last() == c);
        let prev = split_slash(a) + split_slash(b1);
        if c == '/' {
            assert(prev.push(Seq::<char>::empty()) =~= split_slash(a) + split_slash(b1).push(Seq::<char>::empty()));
        } else {
            let sb = split_slash(b1);
            assert(prev.last() == sb.last());
            assert(prev.update(prev.len() - 1, prev.last().push(c)) =~= split_slash(a) + sb.update(
                sb.len() - 1,
                sb.last().push(c),
            ));
        }
    }
}

/// Keeping pieces of two lists in turn.
proof fn lemma_kept_concat(x: Seq<Seq<char>>, y: Seq<Seq<char>>)
    ensures
        kept_pieces(x + y) == kept_pieces(x) + kept_pieces(y),
    decreases y.len(),
{
    if y.len() == 0 {
        assert(x + y =~= x);
        assert(kept_pieces(x) + kept_pieces(y) =~= kept_pieces(x));
    } else {
        lemma_kept_concat(x, y.drop_last());
        assert((x + y).drop_last() =~= x + y.drop_last());
        assert((x + y).last() == y.last());
        let p = y.last();
        if !(p.len() == 0 || is_dot(p)) {
            assert(kept_pieces(x) + kept_pieces(y.drop_last()).push(p) =~= (kept_pieces(x) + kept_pieces(
                y.drop_last(),
            )).push(p));
        }
    }
}

/// Trailing slashes only add empty pieces.
proof fn lemma_kept_trim(s: Seq<char>)
    ensures
        kept_pieces(split_slash(trim_end_slashes(s))) == kept_pieces(split_slash(s)),
    decreases s.len(),
{
    if s.len() > 0 && s.last() == '/' {
        lemma_kept_trim(s.drop_last());
        let prev = split_slash(s.drop_last());
        assert(split_slash(s) == prev.push(Seq::<char>::empty()));
        assert(split_slash(s).drop_last() =~= prev);
    }
}

/// The path resolves to where the walk of its pieces ends.
proof fn lemma_walk_names(path: Seq<char>, pwd: Option<Seq<char>>)
    ensures
        resolved_parts(path, pwd) == normalize(walk_pieces(path, pwd)),
{
    let e = Seq::<char>::empty();
    assert(split_slash(e) == seq![e]);
    assert(kept_pieces(seq![e]) == Seq::<Seq<char>>::empty()) by {
        assert(seq![e].drop_last() =~= Seq::<Seq<char>>::empty());
        assert(seq![e].last() == e);
        assert(kept_pieces(Seq::<Seq<char>>::empty()) == Seq::<Seq<char>>::empty());
    }
    let t = target_chars(path, pwd);
    let abs = absolute_target(path, pwd);
    if path.len() > 0 && path[0] == '/' {
        assert(abs =~= e + seq!['/'] + t);
        lemma_split_around_slash(e, t);
        lemma_kept_concat(split_slash(e), split_slash(t));
    } else {
        match pwd {
            None => {
                assert(trim_end_slashes(seq!['/']) == e) by {
                    assert(seq!['/'].drop_last() =~= e);
                    assert(seq!['/'].last() == '/');
                    assert(trim_end_slashes(e) == e);
                }
                assert(abs =~= e + seq!['/'] + t);
                lemma_split_around_slash(e, t);
                lemma_kept_concat(split_slash(e), split_slash(t));
            },
            Some(w) => {
                let base = trim_end_slashes(w);
                lemma_kept_trim(w);
                lemma_split_around_slash(w, path);
                lemma_kept_concat(split_slash(w), split_slash(path));
                if base.len() == 0 {
                    assert(abs =~= e + seq!['/'] + path);
                    lemma_split_around_slash(e, path);
                    lemma_kept_concat(split_slash(e), split_slash(path));
                } else {
                    lemma_split_around_slash(base, path);
                    lemma_kept_concat(split_slash(base), split_slash(path));
                }
            },
        }
    }
    assert(kept_pieces(split_slash(abs)) == kept_pieces(split_slash(t)));
    lemma_normalize_kept(split_slash(t));
    lemma_normalize_kept(split_slash(abs));
}

/// Normalising skips the pieces that are empty or `.` anyway.
proof fn lemma_normalize_kept(pieces: Seq<Seq<char>>)
    ensures
        normalize(kept_pieces(pieces)) == normalize(pieces),
    decreases pieces.len(),
{
    if pieces.len() > 0 {
        let front = pieces.drop_last();
        let p = pieces.last();
        lemma_normalize_kept(front);
        if !(p.len() == 0 || is_dot(p)) {
            let k = kept_pieces(front).push(p);
            assert(k.drop_last() =~= kept_pieces(front));
            assert(k.last() == p);
        }
    }
}

/// Law: `mkdir -p` succeeds and leaves its path designating a directory,
/// keeping whatever was found before (directories as directories, every
/// other entry unchanged), when every path that its walk reaches, `..`
/// included, designates a directory or nothing, and every name the walk
/// reaches directly under the root exists already (a directory made
/// directly under the root is not kept).
pub proof fn law_create_dir_all_makes_path(fs: Seq<EntryModel>, path: Seq<char>, pwd: Option<Seq<char>>)
    requires
        forall|k: int|
            #![trigger reached(walk_pieces(path, pwd), k)]
            0 <= k <= walk_pieces(path, pwd).len() ==> (lookup(fs, reached(walk_pieces(path, pwd), k)) matches Some(e)
                ==> is_directory(e)),
        forall|k: int|
            #![trigger reached(walk_pieces(path, pwd), k)]
            0 <= k <= walk_pieces(path, pwd).len() && reached(walk_pieces(path, pwd), k).len() == 1 ==> lookup(
                fs,
                reached(walk_pieces(path, pwd), k),
            ) is Some,
    ensures
        ({
            let (m, r) = create_dir_all_outcome(fs, path, pwd);
            &&& r is Ok
            &&& lookup(m, resolved_parts(path, pwd)) matches Some(e) && is_directory(e)
            &&& crate::fs::laws::keeps_all(fs, m)
        }),
{
    let parts = walk_pieces(path, pwd);
    lemma_walk_names(path, pwd);
    crate::fs::laws::lemma_split_slash_free(absolute_target(path, pwd));
    lemma_kept_pieces(split_slash(absolute_target(path, pwd)));
    assert(parts.take(parts.len() as int) =~= parts);
    assert(reached(parts, parts.len() as int) == resolved_parts(path, pwd));
    assert forall|q: Seq<Seq<char>>| #[trigger] lookup(fs, q) is Some implies crate::fs::laws::kept_entry(
        lookup(fs, q)->0,
        lookup(fs, q),
    ) by {}
    match lookup(fs, resolved_parts(path, pwd)) {
        Some(e) => {
            assert(lookup(fs, reached(parts, parts.len() as int)) matches Some(e) ==> is_directory(e));
        },
        None => {
            assert(parts.take(0) =~= Seq::<Seq<char>>::empty());
            assert(reached(parts, 0) == Seq::<Seq<char>>::empty());
            assert(absolute_of(reached(parts, 0)) == Seq::<char>::empty());
            lemma_walk_makes_path(fs, fs, parts, 0);
        },
    }
}

} // verus!
