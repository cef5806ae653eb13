//! Running a command line: chains of pipelines of simple commands, with
//! their redirections, against a command context.
use vstd::prelude::*;
use crate::bins::{
    bin_name, bin_run, err_outcome, find, find_from, ok_outcome, Command, CommandContext, CommandResult, ContextModel,
    Outcome,
};
use crate::fs::{join_slash, lookup, DataModel, EntryModel, Filesystem, FilesystemData};
use crate::fs::path::resolved_parts;
use crate::text::{opt_str_view, owned, push_str, str_eq, string_from_utf8_lossy, strings_view, utf8_lossy};
use super::lexer::{lex, lex_message, tokenize_shell};
use super::parser::{
    chains_model, commands_model, parse_chains, parse_command_chains, ChainCondition, CommandModel, Pipeline,
    SimpleCommand,
};
use super::redirect::{prepare_outcome, prepare_redirect, write_outcome, write_redirect};

verus! {

/// The user's home directory, where `cd` with no argument goes.
pub open spec fn home() -> Seq<char> {
    "/home/inparsian"@
}

/// The directories where an installed command has its file.
pub open spec fn bin_dirs() -> Seq<Seq<char>> {
    seq!["/home/inparsian/.local/bin/"@, "/usr/local/bin/"@, "/usr/bin/"@, "/bin/"@]
}

/// Whether a command called `name` is installed: a file of that name is in
/// one of the command directories.
pub open spec fn installed(fs: Seq<EntryModel>, name: Seq<char>) -> bool {
    exists|k: int| 0 <= k < 4 && lookup(fs, resolved_parts(#[trigger] bin_dirs()[k] + name, None)) is Some
}

/// Whether a command called `name` is installed.
pub fn bin_exists(fs: &Filesystem, name: &str) -> (res: bool)
    ensures
        res == installed(fs@, name@),
{
    let dirs: [&str; 4] = ["/home/inparsian/.local/bin/", "/usr/local/bin/", "/usr/bin/", "/bin/"];
    let mut k: usize = 0;
    while k < 4
        invariant
            k <= 4,
            dirs@.len() == 4,
            forall|i: int| 0 <= i < 4 ==> #[trigger] dirs@[i]@ == bin_dirs()[i],
            forall|i: int| 0 <= i < k ==> lookup(fs@, resolved_parts(#[trigger] bin_dirs()[i] + name@, None)) is None,
        decreases 4 - k,
    {
        let mut candidate = owned(dirs[k]);
        push_str(&mut candidate, name);
        assert(candidate@ == bin_dirs()[k as int] + name@);
        if fs.resolve_read(candidate.as_str(), None).is_some() {
            return true;
        }
        k = k + 1;
    }
    false
}

/// What `cd` does: no argument goes home; otherwise the working directory
/// becomes the absolute form of a path that designates a directory.
pub open spec fn cd_outcome(ctx: ContextModel, params: Seq<Seq<char>>) -> (Outcome, ContextModel) {
    if params.len() == 0 {
        (ok_outcome(Seq::empty()), ContextModel { pwd: home(), ..ctx })
    } else {
        let path = params[0];
        let parts = resolved_parts(path, Some(ctx.pwd));
        match lookup(ctx.fs, parts) {
            Some(e) => match e.data {
                DataModel::Directory(_) => (
                    ok_outcome(Seq::empty()),
                    ContextModel { pwd: seq!['/'] + join_slash(parts), ..ctx },
                ),
                _ => (err_outcome("cd: "@ + path + ": Not a directory\r\n"@), ctx),
            },
            None => (err_outcome("cd: "@ + path + ": No such file or directory\r\n"@), ctx),
        }
    }
}

/// The built-in `cd`.
pub fn run_builtin_cd(ctx: &mut CommandContext, params: &[String]) -> (res: CommandResult)
    ensures
        (res.model(), final(ctx).model()) == cd_outcome(old(ctx).model(), strings_view(params@)),
{
    if params.len() == 0 {
        ctx.pwd = owned("/home/inparsian");
        return CommandResult::ok(String::new());
    }
    let path = params[0].as_str();
    assert(strings_view(params@)[0] == path@);
    match ctx.fs.resolve_read(path, Some(ctx.pwd.as_str())) {
        Some(query) => match &query.data {
            FilesystemData::Directory { .. } => {
                match ctx.fs.resolve_path(path, Some(ctx.pwd.as_str())) {
                    Some(p) => {
                        ctx.pwd = p;
                    },
                    None => {},
                }
                CommandResult::ok(String::new())
            },
            _ => {
                let mut m = owned("cd: ");
                push_str(&mut m, path);
                push_str(&mut m, ": Not a directory\r\n");
                CommandResult::err(m)
            },
        },
        None => {
            let mut m = owned("cd: ");
            push_str(&mut m, path);
            push_str(&mut m, ": No such file or directory\r\n");
            CommandResult::err(m)
        },
    }
}

/// A command that is not known or not installed.
pub open spec fn unknown_outcome(command: Seq<char>) -> Outcome {
    Outcome { output: Seq::empty(), error: "sheesh: Unknown command: "@ + command + "\r\n"@, status: 127 }
}

/// What running the command itself does, once its input is known and its
/// redirections are ready: `cd`, an installed command, or an unknown one.
pub open spec fn dispatch_outcome(ctx: ContextModel, argv: Seq<Seq<char>>, stdin: Option<Seq<char>>) -> (Outcome, ContextModel) {
    let command = argv[0];
    let params = argv.drop_first();
    if command == "cd"@ {
        cd_outcome(ctx, params)
    } else {
        match find_from(command, 0) {
            Some(b) => if installed(ctx.fs, bin_name(b)) {
                bin_run(b, ctx, params, stdin)
            } else {
                (unknown_outcome(command), ctx)
            },
            None => (unknown_outcome(command), ctx),
        }
    }
}

/// The outcome after its output (or error text, with `to_error`) went to a
/// redirection target: on success that text is no longer shown; on failure
/// the reason is added to the error text and the status becomes 1 if it was 0.
pub open spec fn redirected(r: Outcome, ctx: ContextModel, target: Option<(Seq<char>, bool)>, to_error: bool) -> (Outcome, ContextModel) {
    match target {
        None => (r, ctx),
        Some((path, append)) => {
            let text = if to_error { r.error } else { r.output };
            let (fs, w) = write_outcome(ctx.fs, path, append, text, Some(ctx.pwd));
            let c = ContextModel { fs, ..ctx };
            match w {
                Ok(()) => if to_error {
                    (Outcome { error: Seq::empty(), ..r }, c)
                } else {
                    (Outcome { output: Seq::empty(), ..r }, c)
                },
                Err(msg) => (
                    Outcome { error: r.error + msg + "\r\n"@, status: if r.status == 0 { 1 } else { r.status }, ..r },
                    c,
                ),
            }
        },
    }
}

/// Readies a redirection target, when there is one.
pub open spec fn prepared(ctx: ContextModel, target: Option<(Seq<char>, bool)>) -> (ContextModel, Result<(), Seq<char>>) {
    match target {
        None => (ctx, Ok(())),
        Some((path, append)) => {
            let (fs, r) = prepare_outcome(ctx.fs, path, append, Some(ctx.pwd));
            (ContextModel { fs, ..ctx }, r)
        },
    }
}

/// What a simple command does, fed `piped` by the command before it: its
/// input file is read, its output targets are readied, the command runs, and
/// its output and error text go to their targets.
pub open spec fn simple_outcome(ctx: ContextModel, cmd: CommandModel, piped: Option<Seq<char>>) -> (Outcome, ContextModel) {
    let input: Result<Option<Seq<char>>, Seq<char>> = match cmd.stdin {
        Some(path) => match lookup(ctx.fs, resolved_parts(path, Some(ctx.pwd))) {
            Some(e) => match e.data {
                DataModel::File(c) => Ok(Some(utf8_lossy(c))),
                _ => Err("Path is not a file: "@ + path),
            },
            None => Err("File does not exist: "@ + path),
        },
        None => Ok(piped),
    };
    match input {
        Err(msg) => (err_outcome(msg + "\r\n"@), ctx),
        Ok(stdin) => {
            let (c1, r1) = prepared(ctx, cmd.stdout);
            match r1 {
                Err(msg) => (err_outcome(msg + "\r\n"@), c1),
                Ok(()) => {
                    let (c2, r2) = prepared(c1, cmd.stderr);
                    match r2 {
                        Err(msg) => (err_outcome(msg + "\r\n"@), c2),
                        Ok(()) => if cmd.argv.len() == 0 {
                            (err_outcome("syntax error near unexpected token\r\n"@), c2)
                        } else {
                            let (r3, c3) = dispatch_outcome(c2, cmd.argv, stdin);
                            let (r4, c4) = redirected(r3, c3, cmd.stdout, false);
                            redirected(r4, c4, cmd.stderr, true)
                        },
                    }
                },
            }
        },
    }
}

/// The commands of a pipeline from `i` on, each fed the output of the one
/// before; the result is that of the last command run.
pub open spec fn pipeline_from(ctx: ContextModel, cmds: Seq<CommandModel>, i: int, piped: Option<Seq<char>>, last: Outcome) -> (Outcome, ContextModel)
    decreases cmds.len() - i,
{
    if i < 0 || i >= cmds.len() {
        (last, ctx)
    } else {
        let (r, c) = simple_outcome(ctx, cmds[i], piped);
        let next = if i < cmds.len() - 1 { Some(r.output) } else { piped };
        pipeline_from(c, cmds, i + 1, next, r)
    }
}

/// What a pipeline does.
pub open spec fn pipeline_outcome(ctx: ContextModel, cmds: Seq<CommandModel>) -> (Outcome, ContextModel) {
    pipeline_from(ctx, cmds, 0, None, ok_outcome(Seq::empty()))
}

/// Whether pipeline `idx` of a chain runs, given the status of the last one run.
pub open spec fn should_run(idx: int, cond: Option<ChainCondition>, last_status: i32) -> bool {
    idx == 0 || match cond {
        None | Some(ChainCondition::Always) => true,
        Some(ChainCondition::AndIf) => last_status == 0,
        Some(ChainCondition::OrIf) => last_status != 0,
    }
}

/// The pipelines of a chain from `idx` on: the shown text of each one that
/// runs, collected after `shown`, and the status of the last one run.
pub open spec fn chains_from(
    ctx: ContextModel,
    chains: Seq<(Option<ChainCondition>, Seq<CommandModel>)>,
    idx: int,
    shown: Seq<char>,
    last_status: i32,
) -> (Seq<char>, i32, ContextModel)
    decreases chains.len() - idx,
{
    if idx < 0 || idx >= chains.len() {
        (shown, last_status, ctx)
    } else if !should_run(idx, chains[idx].0, last_status) {
        chains_from(ctx, chains, idx + 1, shown, last_status)
    } else {
        let (r, c) = pipeline_outcome(ctx, chains[idx].1);
        chains_from(c, chains, idx + 1, shown + r.output + r.error, r.status)
    }
}

/// What a command line does: it is split into tokens and parsed (a failure
/// of either is reported), then its chain runs.
pub open spec fn line_outcome(ctx: ContextModel, line: Seq<char>) -> (Outcome, ContextModel) {
    match lex(line) {
        Err(e) => (err_outcome("sheesh: "@ + lex_message(e) + "\r\n"@), ctx),
        Ok(tokens) => if tokens.len() == 0 {
            (ok_outcome(Seq::empty()), ctx)
        } else {
            match parse_chains(tokens) {
                Err(e) => (err_outcome("sheesh: "@ + e + "\r\n"@), ctx),
                Ok(chains) => {
                    let (shown, status, c) = chains_from(ctx, chains, 0, Seq::empty(), 0);
                    (Outcome { output: shown, error: Seq::empty(), status }, c)
                },
            }
        },
    }
}

fn redirect_result(ctx: &mut CommandContext, result: CommandResult, target: &Option<(String, bool)>, to_error: bool) -> (res: CommandResult)
    ensures
        (res.model(), final(ctx).model()) == redirected(
            result.model(),
            old(ctx).model(),
            super::parser::redirect_model(*target),
            to_error,
        ),
{
    match target {
        None => result,
        Some((path, append)) => {
            let mut result = result;
            let pwd = owned(ctx.pwd.as_str());
            let text = if to_error { owned(result.error.as_str()) } else { owned(result.output.as_str()) };
            match write_redirect(&mut ctx.fs, path.as_str(), *append, text.as_str(), Some(pwd.as_str())) {
                Ok(()) => {
                    if to_error {
                        result.error = String::new();
                    } else {
                        result.output = String::new();
                    }
                },
                Err(e) => {
                    push_str(&mut result.error, e.as_str());
                    push_str(&mut result.error, "\r\n");
                    if result.status == 0 {
                        result.status = 1;
                    }
                },
            }
            result
        },
    }
}

fn prepare_target(ctx: &mut CommandContext, target: &Option<(String, bool)>) -> (res: Result<(), String>)
    ensures
        ({
            let (c, r) = prepared(old(ctx).model(), super::parser::redirect_model(*target));
            &&& final(ctx).model() == c
            &&& match r {
                Ok(()) => res is Ok,
                Err(msg) => res is Err && res->Err_0@ == msg,
            }
        }),
{
    match target {
        None => Ok(()),
        Some((path, append)) => {
            let pwd = owned(ctx.pwd.as_str());
            prepare_redirect(&mut ctx.fs, path.as_str(), *append, Some(pwd.as_str()))
        },
    }
}

fn error_line(msg: String) -> (res: CommandResult)
    ensures
        res.model() == err_outcome(msg@ + "\r\n"@),
{
    let mut m = msg;
    push_str(&mut m, "\r\n");
    CommandResult::err(m)
}

fn dispatch(ctx: &mut CommandContext, argv: &Vec<String>, stdin: Option<&str>) -> (res: CommandResult)
    requires
        argv@.len() > 0,
    ensures
        (res.model(), final(ctx).model()) == dispatch_outcome(old(ctx).model(), strings_view(argv@), opt_str_view(stdin)),
{
    let ghost av = strings_view(argv@);
    let command = argv[0].as_str();
    assert(av[0] == command@);
    let mut params: Vec<String> = Vec::new();
    let mut k: usize = 1;
    while k < argv.len()
        invariant
            1 <= k <= argv@.len(),
            av == strings_view(argv@),
            strings_view(params@) == av.subrange(1, k as int),
        decreases argv@.len() - k,
    {
        let ghost before = strings_view(params@);
        params.push(owned(argv[k].as_str()));
        assert(av[k as int] == argv@[k as int]@);
        assert(strings_view(params@) =~= before.push(av[k as int]));
        assert(strings_view(params@) =~= av.subrange(1, k + 1));
        k = k + 1;
    }
    assert(av.subrange(1, av.len() as int) =~= av.drop_first());
    if str_eq(command, "cd") {
        return run_builtin_cd(ctx, params.as_slice());
    }
    let unknown = {
        let mut m = owned("sheesh: Unknown command: ");
        push_str(&mut m, command);
        push_str(&mut m, "\r\n");
        CommandResult { output: String::new(), error: m, status: 127 }
    };
    match find(command) {
        Some(bin) => {
            if bin_exists(&ctx.fs, bin.name()) {
                bin.run(ctx, params.as_slice(), stdin)
            } else {
                unknown
            }
        },
        None => unknown,
    }
}

/// Runs one simple command, fed `piped` by the command before it.
pub fn execute_simple_command(ctx: &mut CommandContext, cmd: SimpleCommand, piped: Option<&str>) -> (res: CommandResult)
    ensures
        (res.model(), final(ctx).model()) == simple_outcome(old(ctx).model(), cmd.model(), opt_str_view(piped)),
{
    let stdin_input: Option<String> = match &cmd.stdin {
        Some(path) => {
            let pwd = owned(ctx.pwd.as_str());
            match ctx.fs.read_file(path.as_str(), Some(pwd.as_str())) {
                Ok(content) => Some(string_from_utf8_lossy(content)),
                Err(e) => {
                    return error_line(e);
                },
            }
        },
        None => match piped {
            Some(p) => Some(owned(p)),
            None => None,
        },
    };
    match prepare_target(ctx, &cmd.stdout) {
        Ok(()) => {},
        Err(e) => {
            return error_line(e);
        },
    }
    match prepare_target(ctx, &cmd.stderr) {
        Ok(()) => {},
        Err(e) => {
            return error_line(e);
        },
    }
    if cmd.argv.len() == 0 {
        return CommandResult::err(owned("syntax error near unexpected token\r\n"));
    }
    let input: Option<&str> = match &stdin_input {
        Some(s) => Some(s.as_str()),
        None => None,
    };
    let result = dispatch(ctx, &cmd.argv, input);
    let result = redirect_result(ctx, result, &cmd.stdout, false);
    redirect_result(ctx, result, &cmd.stderr, true)
}

/// Runs the commands of a pipeline in turn, each fed the output of the one
/// before, and hands back the result of the last.
pub fn execute_pipeline(ctx: &mut CommandContext, pipeline: Pipeline) -> (res: CommandResult)
    ensures
        (res.model(), final(ctx).model()) == pipeline_outcome(old(ctx).model(), commands_model(pipeline.commands@)),
{
    let ghost cm = commands_model(pipeline.commands@);
    let mut piped: Option<String> = None;
    let mut last = CommandResult::ok(String::new());
    let n = pipeline.commands.len();
    let mut commands = pipeline.commands;
    let mut i: usize = 0;
    while i < n
        invariant
            i <= n,
            n == cm.len(),
            commands@.len() == n - i,
            forall|j: int| i <= j < n ==> commands@[j - i].model() == #[trigger] cm[j],
            pipeline_outcome(old(ctx).model(), cm) == pipeline_from(
                ctx.model(),
                cm,
                i as int,
                match piped {
                    Some(p) => Some(p@),
                    None => None,
                },
                last.model(),
            ),
        decreases n - i,
    {
        let cmd = commands.remove(0);
        assert(cmd.model() == cm[i as int]);
        let input: Option<&str> = match &piped {
            Some(s) => Some(s.as_str()),
            None => None,
        };
        let result = execute_simple_command(ctx, cmd, input);
        if i + 1 < n {
            piped = Some(owned(result.output.as_str()));
        }
        last = result;
        i = i + 1;
    }
    last
}

/// Runs a command line and hands back what it printed and the status of the
/// last pipeline that ran.
pub fn handle_cmd_result(ctx: &mut CommandContext, cmd: &str) -> (res: CommandResult)
    ensures
        (res.model(), final(ctx).model()) == line_outcome(old(ctx).model(), cmd@),
{
    let tokens = match tokenize_shell(cmd) {
        Ok(t) => t,
        Err(e) => {
            let mut m = owned("sheesh: ");
            push_str(&mut m, e.as_str());
            return error_line(m);
        },
    };
    if tokens.len() == 0 {
        return CommandResult::ok(String::new());
    }
    let chains = match parse_command_chains(&tokens) {
        Ok(c) => c,
        Err(e) => {
            let mut m = owned("sheesh: ");
            push_str(&mut m, e.as_str());
            return error_line(m);
        },
    };
    let ghost ch = chains_model(chains@);
    let mut aggregate = String::new();
    let mut last_status: i32 = 0;
    let n = chains.len();
    let mut chains = chains;
    let mut idx: usize = 0;
    while idx < n
        invariant
            idx <= n,
            n == ch.len(),
            chains@.len() == n - idx,
            forall|j: int| idx <= j < n ==> (chains@[j - idx].0, commands_model(chains@[j - idx].1.commands@)) == #[trigger] ch[j],
            chains_from(old(ctx).model(), ch, 0, Seq::empty(), 0) == chains_from(
                ctx.model(),
                ch,
                idx as int,
                aggregate@,
                last_status,
            ),
        decreases n - idx,
    {
        let (cond, pipeline) = chains.remove(0);
        assert(cond == ch[idx as int].0);
        let run = if idx == 0 {
            true
        } else {
            match cond {
                None | Some(ChainCondition::Always) => true,
                Some(ChainCondition::AndIf) => last_status == 0,
                Some(ChainCondition::OrIf) => last_status != 0,
            }
        };
        if run {
            let result = execute_pipeline(ctx, pipeline);
            last_status = result.status;
            push_str(&mut aggregate, result.output.as_str());
            push_str(&mut aggregate, result.error.as_str());
        }
        idx = idx + 1;
    }
    CommandResult { output: aggregate, error: String::new(), status: last_status }
}

/// Runs a command line and hands back what the terminal shows.
pub fn handle_cmd(ctx: &mut CommandContext, cmd: &str) -> (res: String)
    ensures
        res@ == line_outcome(old(ctx).model(), cmd@).0.output + line_outcome(old(ctx).model(), cmd@).0.error,
        final(ctx).model() == line_outcome(old(ctx).model(), cmd@).1,
{
    handle_cmd_result(ctx, cmd).render()
}

} // verus!
