//! The grammar of a command line: simple commands with redirections, joined
//! by `|` into pipelines, joined by `;`, `&&` and `||` into chains.
use vstd::prelude::*;
use crate::text::{owned, push_str};
use vstd::utf8::{encode_utf8, is_char_boundary};
use crate::text::after_byte;
use super::lexer::{tokens_model, ShellOp, ShellToken, TokenModel};

verus! {

/// When a pipeline of a chain runs.
#[derive(Clone, Copy, Debug, PartialEq, Eq, Structural)]
pub enum ChainCondition {
    Always,
    AndIf,
    OrIf,
}

/// A command with its arguments and redirections.
#[derive(Clone, Debug)]
pub struct SimpleCommand {
    pub argv: Vec<String>,
    pub stdin: Option<String>,
    /// The target path, and whether to append.
    pub stdout: Option<(String, bool)>,
    /// The target path, and whether to append.
    pub stderr: Option<(String, bool)>,
}

/// Commands whose outputs feed the next one's input.
#[derive(Clone, Debug)]
pub struct Pipeline {
    pub commands: Vec<SimpleCommand>,
}

pub struct CommandModel {
    pub argv: Seq<Seq<char>>,
    pub stdin: Option<Seq<char>>,
    pub stdout: Option<(Seq<char>, bool)>,
    pub stderr: Option<(Seq<char>, bool)>,
}

pub open spec fn redirect_model(r: Option<(String, bool)>) -> Option<(Seq<char>, bool)> {
    match r {
        Some((p, a)) => Some((p@, a)),
        None => None,
    }
}

impl SimpleCommand {
    pub open spec fn model(self) -> CommandModel {
        CommandModel {
            argv: crate::text::strings_view(self.argv@),
            stdin: match self.stdin {
                Some(p) => Some(p@),
                None => None,
            },
            stdout: redirect_model(self.stdout),
            stderr: redirect_model(self.stderr),
        }
    }
}

pub open spec fn commands_model(v: Seq<SimpleCommand>) -> Seq<CommandModel> {
    Seq::new(v.len(), |i: int| v[i].model())
}

pub open spec fn chains_model(v: Seq<(Option<ChainCondition>, Pipeline)>) -> Seq<(Option<ChainCondition>, Seq<CommandModel>)> {
    Seq::new(v.len(), |i: int| (v[i].0, commands_model(v[i].1.commands@)))
}

pub open spec fn empty_command() -> CommandModel {
    CommandModel { argv: Seq::empty(), stdin: None, stdout: None, stderr: None }
}

/// Whether a token ends a simple command.
pub open spec fn ends_command(t: TokenModel) -> bool {
    match t {
        TokenModel::Op(op) => op == ShellOp::Pipe || op == ShellOp::AndIf || op == ShellOp::OrIf
            || op == ShellOp::Sequence,
        _ => false,
    }
}

/// How an operator is written.
pub open spec fn op_text(op: ShellOp) -> Seq<char> {
    match op {
        ShellOp::AndIf => "&&"@,
        ShellOp::OrIf => "||"@,
        ShellOp::Sequence => ";"@,
        ShellOp::Pipe => "|"@,
        ShellOp::RedirectIn => "<"@,
        ShellOp::RedirectOut => ">"@,
        ShellOp::RedirectAppend => ">>"@,
        ShellOp::RedirectErrOut => "2>"@,
        ShellOp::RedirectErrAppend => "2>>"@,
    }
}

/// The message of a syntax error at a token written `t`.
pub open spec fn unexpected(t: Seq<char>) -> Seq<char> {
    "syntax error near unexpected token '"@ + t + "'"@
}

/// `cmd` with the redirection `op` to `path` recorded (a later one replaces an earlier one).
pub open spec fn with_redirect(cmd: CommandModel, op: ShellOp, path: Seq<char>) -> CommandModel {
    match op {
        ShellOp::RedirectIn => CommandModel { stdin: Some(path), ..cmd },
        ShellOp::RedirectOut => CommandModel { stdout: Some((path, false)), ..cmd },
        ShellOp::RedirectAppend => CommandModel { stdout: Some((path, true)), ..cmd },
        ShellOp::RedirectErrOut => CommandModel { stderr: Some((path, false)), ..cmd },
        _ => CommandModel { stderr: Some((path, true)), ..cmd },
    }
}

/// Reads a simple command from token `i`: words are arguments, and each
/// redirection operator takes the word after it as its path. It ends at
/// `|`, `&&`, `||`, `;` or the end; it must have at least one word.
pub open spec fn parse_simple(tokens: Seq<TokenModel>, i: int, cmd: CommandModel) -> Result<(CommandModel, int), Seq<char>>
    decreases tokens.len() - i,
{
    if i < 0 || i >= tokens.len() || ends_command(tokens[i]) {
        if cmd.argv.len() == 0 {
            Err("syntax error near unexpected token"@)
        } else {
            Ok((cmd, i))
        }
    } else {
        match tokens[i] {
            TokenModel::Word(w) => parse_simple(tokens, i + 1, CommandModel { argv: cmd.argv.push(w), ..cmd }),
            TokenModel::Op(op) => if i + 1 < tokens.len() && tokens[i + 1] is Word {
                parse_simple(tokens, i + 2, with_redirect(cmd, op, tokens[i + 1]->Word_0))
            } else {
                Err(unexpected(op_text(op)))
            },
        }
    }
}

/// Reads a pipeline from token `i`, after the commands `cmds`.
pub open spec fn parse_pipeline(tokens: Seq<TokenModel>, i: int, cmds: Seq<CommandModel>) -> Result<(Seq<CommandModel>, int), Seq<char>>
    decreases tokens.len() - i,
{
    match parse_simple(tokens, i, empty_command()) {
        Err(e) => Err(e),
        Ok((c, j)) => if 0 <= j < tokens.len() && tokens[j] == TokenModel::Op(ShellOp::Pipe) && i < j + 1 {
            parse_pipeline(tokens, j + 1, cmds.push(c))
        } else {
            Ok((cmds.push(c), j))
        },
    }
}

/// The condition that an operator between pipelines sets.
pub open spec fn chain_condition(op: ShellOp) -> Option<ChainCondition> {
    match op {
        ShellOp::Sequence => Some(ChainCondition::Always),
        ShellOp::AndIf => Some(ChainCondition::AndIf),
        ShellOp::OrIf => Some(ChainCondition::OrIf),
        _ => None,
    }
}

/// Reads the chain from token `i`, after the pipelines `out`, the next one
/// to run under `pending`.
pub open spec fn parse_chains_from(
    tokens: Seq<TokenModel>,
    i: int,
    pending: Option<ChainCondition>,
    out: Seq<(Option<ChainCondition>, Seq<CommandModel>)>,
) -> Result<Seq<(Option<ChainCondition>, Seq<CommandModel>)>, Seq<char>>
    decreases tokens.len() - i,
{
    if i < 0 || i >= tokens.len() {
        if pending is Some {
            Err(unexpected("newline"@))
        } else {
            Ok(out)
        }
    } else {
        match parse_pipeline(tokens, i, Seq::empty()) {
            Err(e) => Err(e),
            Ok((p, j)) => {
                let out2 = out.push((pending, p));
                if j < 0 || j >= tokens.len() {
                    Ok(out2)
                } else {
                    match tokens[j] {
                        TokenModel::Op(op) => match chain_condition(op) {
                            Some(cond) => if i < j + 1 {
                                parse_chains_from(tokens, j + 1, Some(cond), out2)
                            } else {
                                Ok(out2)
                            },
                            None => Err(unexpected(op_text(op))),
                        },
                        TokenModel::Word(w) => Err(unexpected(w)),
                    }
                }
            },
        }
    }
}

/// The chain of pipelines of a token sequence; the first has no condition.
pub open spec fn parse_chains(tokens: Seq<TokenModel>) -> Result<Seq<(Option<ChainCondition>, Seq<CommandModel>)>, Seq<char>> {
    parse_chains_from(tokens, 0, None, Seq::empty())
}

proof fn lemma_parse_simple_advances(tokens: Seq<TokenModel>, i: int, cmd: CommandModel)
    requires
        0 <= i <= tokens.len(),
    ensures
        parse_simple(tokens, i, cmd) matches Ok((c, j)) ==> i <= j <= tokens.len() && (j == i
            ==> c.argv.len() > 0 && c == cmd),
        parse_simple(tokens, i, cmd) matches Ok((c, j)) ==> c.argv.len() >= cmd.argv.len() && (
        c.argv.len() > cmd.argv.len() ==> j > i),
    decreases tokens.len() - i,
{
    if 0 <= i < tokens.len() && !ends_command(tokens[i]) {
        match tokens[i] {
            TokenModel::Word(w) => lemma_parse_simple_advances(
                tokens,
                i + 1,
                CommandModel { argv: cmd.argv.push(w), ..cmd },
            ),
            TokenModel::Op(op) => if i + 1 < tokens.len() && tokens[i + 1] is Word {
                lemma_parse_simple_advances(tokens, i + 2, with_redirect(cmd, op, tokens[i + 1]->Word_0));
            },
        }
    }
}

proof fn lemma_parse_pipeline_advances(tokens: Seq<TokenModel>, i: int, cmds: Seq<CommandModel>)
    requires
        0 <= i <= tokens.len(),
    ensures
        parse_pipeline(tokens, i, cmds) matches Ok((p, j)) ==> i < j <= tokens.len(),
    decreases tokens.len() - i,
{
    lemma_parse_simple_advances(tokens, i, empty_command());
    match parse_simple(tokens, i, empty_command()) {
        Ok((c, j)) => {
            if 0 <= j < tokens.len() && tokens[j] == TokenModel::Op(ShellOp::Pipe) && i < j + 1 {
                lemma_parse_pipeline_advances(tokens, j + 1, cmds.push(c));
            }
        },
        Err(_) => {},
    }
}

fn op_text_exec(op: ShellOp) -> (res: String)
    ensures
        res@ == op_text(op),
{
    match op {
        ShellOp::AndIf => owned("&&"),
        ShellOp::OrIf => owned("||"),
        ShellOp::Sequence => owned(";"),
        ShellOp::Pipe => owned("|"),
        ShellOp::RedirectIn => owned("<"),
        ShellOp::RedirectOut => owned(">"),
        ShellOp::RedirectAppend => owned(">>"),
        ShellOp::RedirectErrOut => owned("2>"),
        ShellOp::RedirectErrAppend => owned("2>>"),
    }
}

fn unexpected_exec(t: &str) -> (res: String)
    ensures
        res@ == unexpected(t@),
{
    let mut m = owned("syntax error near unexpected token '");
    push_str(&mut m, t);
    push_str(&mut m, "'");
    m
}

/// Reads the simple command that starts at token `start`: the command and
/// the index of the token after it.
pub fn parse_simple_command(tokens: &Vec<ShellToken>, start: usize) -> (res: Result<(SimpleCommand, usize), String>)
    ensures
        match parse_simple(tokens_model(tokens@), start as int, empty_command()) {
            Ok((c, j)) => res is Ok && res->Ok_0.0.model() == c && res->Ok_0.1 == j,
            Err(e) => res is Err && res->Err_0@ == e,
        },
{
    let ghost tm = tokens_model(tokens@);
    let mut cmd = SimpleCommand { argv: Vec::new(), stdin: None, stdout: None, stderr: None };
    let mut i = start;
    assert(cmd.model() == empty_command()) by {
        assert(crate::text::strings_view(cmd.argv@) =~= Seq::<Seq<char>>::empty());
    }
    while i < tokens.len()
        invariant
            tm == tokens_model(tokens@),
            parse_simple(tm, start as int, empty_command()) == parse_simple(tm, i as int, cmd.model()),
        ensures
            parse_simple(tm, start as int, empty_command()) == parse_simple(tm, i as int, cmd.model()),
            i >= tokens@.len() || ends_command(tm[i as int]),
        decreases tokens@.len() - i,
    {
        match &tokens[i] {
            ShellToken::Word(w) => {
                let ghost before = cmd.model();
                cmd.argv.push(w.clone());
                assert(cmd.model() == CommandModel { argv: before.argv.push(w@), ..before }) by {
                    assert(crate::text::strings_view(cmd.argv@) =~= before.argv.push(w@));
                }
                i = i + 1;
            },
            ShellToken::Op(op) => {
                let op = *op;
                if op == ShellOp::Pipe || op == ShellOp::AndIf || op == ShellOp::OrIf || op
                    == ShellOp::Sequence {
                    break;
                }
                if tokens.len() - i < 2 {
                    return Err(unexpected_exec(op_text_exec(op).as_str()));
                }
                match &tokens[i + 1] {
                    ShellToken::Word(path) => {
                        let ghost before = cmd.model();
                        let target = path.clone();
                        if op == ShellOp::RedirectIn {
                            cmd.stdin = Some(target);
                        } else if op == ShellOp::RedirectOut {
                            cmd.stdout = Some((target, false));
                        } else if op == ShellOp::RedirectAppend {
                            cmd.stdout = Some((target, true));
                        } else if op == ShellOp::RedirectErrOut {
                            cmd.stderr = Some((target, false));
                        } else {
                            cmd.stderr = Some((target, true));
                        }
                        assert(cmd.model() == with_redirect(before, op, path@));
                        i = i + 2;
                    },
                    ShellToken::Op(_) => {
                        return Err(unexpected_exec(op_text_exec(op).as_str()));
                    },
                }
            },
        }
    }
    if cmd.argv.len() == 0 {
        return Err(owned("syntax error near unexpected token"));
    }
    Ok((cmd, i))
}


/// Reads the pipeline that starts at token `start`: the pipeline and the
/// index of the token after it.
pub fn parse_pipeline_at(tokens: &Vec<ShellToken>, start: usize) -> (res: Result<(Pipeline, usize), String>)
    ensures
        match parse_pipeline(tokens_model(tokens@), start as int, Seq::empty()) {
            Ok((p, j)) => res is Ok && commands_model(res->Ok_0.0.commands@) == p && res->Ok_0.1 == j,
            Err(e) => res is Err && res->Err_0@ == e,
        },
{
    let ghost tm = tokens_model(tokens@);
    let mut commands: Vec<SimpleCommand> = Vec::new();
    let mut i = start;
    assert(commands_model(commands@) =~= Seq::<CommandModel>::empty());
    loop
        invariant
            tm == tokens_model(tokens@),
            parse_pipeline(tm, start as int, Seq::empty()) == parse_pipeline(
                tm,
                i as int,
                commands_model(commands@),
            ),
        decreases tokens@.len() - i,
    {
        let ghost before = commands_model(commands@);
        let (cmd, next) = parse_simple_command(tokens, i)?;
        proof {
            if i <= tokens@.len() {
                lemma_parse_simple_advances(tm, i as int, empty_command());
            }
        }
        commands.push(cmd);
        assert(commands_model(commands@) =~= before.push(cmd.model()));
        let is_pipe = next < tokens.len() && match &tokens[next] {
            ShellToken::Op(ShellOp::Pipe) => true,
            _ => false,
        };
        if is_pipe {
            i = next + 1;
        } else {
            return Ok((Pipeline { commands }, next));
        }
    }
}

/// The message of a syntax error at a token.
fn token_error(t: &ShellToken) -> (res: String)
    ensures
        res@ == match t.model() {
            TokenModel::Op(op) => unexpected(op_text(op)),
            TokenModel::Word(w) => unexpected(w),
        },
{
    match t {
        ShellToken::Op(op) => unexpected_exec(op_text_exec(*op).as_str()),
        ShellToken::Word(w) => unexpected_exec(w.as_str()),
    }
}

/// Splits the tokens of a command line into pipelines joined by `;`, `&&`
/// and `||`; each pipeline after the first carries the condition set by the
/// operator before it.
pub fn parse_command_chains(tokens: &Vec<ShellToken>) -> (res: Result<Vec<(Option<ChainCondition>, Pipeline)>, String>)
    ensures
        match parse_chains(tokens_model(tokens@)) {
            Ok(c) => res is Ok && chains_model(res->Ok_0@) == c,
            Err(e) => res is Err && res->Err_0@ == e,
        },
{
    let ghost tm = tokens_model(tokens@);
    let mut out: Vec<(Option<ChainCondition>, Pipeline)> = Vec::new();
    let mut pending: Option<ChainCondition> = None;
    let mut i: usize = 0;
    assert(chains_model(out@) =~= Seq::<(Option<ChainCondition>, Seq<CommandModel>)>::empty());
    while i < tokens.len()
        invariant
            tm == tokens_model(tokens@),
            parse_chains(tm) == parse_chains_from(tm, i as int, pending, chains_model(out@)),
        decreases tokens@.len() - i,
    {
        let ghost before = chains_model(out@);
        let (pipeline, next) = parse_pipeline_at(tokens, i)?;
        proof {
            lemma_parse_pipeline_advances(tm, i as int, Seq::empty());
        }
        let ghost pm = commands_model(pipeline.commands@);
        out.push((pending, pipeline));
        assert(chains_model(out@) =~= before.push((pending, pm)));
        pending = None;
        if next >= tokens.len() {
            return Ok(out);
        }
        match &tokens[next] {
            ShellToken::Op(ShellOp::Sequence) => {
                pending = Some(ChainCondition::Always);
            },
            ShellToken::Op(ShellOp::AndIf) => {
                pending = Some(ChainCondition::AndIf);
            },
            ShellToken::Op(ShellOp::OrIf) => {
                pending = Some(ChainCondition::OrIf);
            },
            t => {
                return Err(token_error(t));
            },
        }
        i = next + 1;
    }
    if pending.is_some() {
        return Err(unexpected_exec("newline"));
    }
    Ok(out)
}

/// Where (counting characters) the command being typed starts: just after
/// the last `|`, `;`, `||` or `&&` that stands outside quotes and escapes.
pub open spec fn segment_start_from(chars: Seq<char>, i: int, single: bool, double: bool, escape: bool, last: int) -> int
    decreases chars.len() - i,
{
    if i < 0 || i >= chars.len() {
        last
    } else {
        let ch = chars[i];
        if escape {
            segment_start_from(chars, i + 1, single, double, false, last)
        } else if single {
            segment_start_from(chars, i + 1, ch != '\'', double, escape, last)
        } else if double {
            if ch == '\\' {
                segment_start_from(chars, i + 1, single, double, true, last)
            } else if ch == '"' {
                segment_start_from(chars, i + 1, single, false, escape, last)
            } else {
                segment_start_from(chars, i + 1, single, double, escape, last)
            }
        } else if ch == '\\' {
            segment_start_from(chars, i + 1, single, double, true, last)
        } else if ch == '\'' {
            segment_start_from(chars, i + 1, true, double, escape, last)
        } else if ch == '"' {
            segment_start_from(chars, i + 1, single, true, escape, last)
        } else if ch == '|' && i + 1 < chars.len() && chars[i + 1] == '|' {
            segment_start_from(chars, i + 2, single, double, escape, i + 2)
        } else if ch == '|' || ch == ';' {
            segment_start_from(chars, i + 1, single, double, escape, i + 1)
        } else if ch == '&' && i + 1 < chars.len() && chars[i + 1] == '&' {
            segment_start_from(chars, i + 2, single, double, escape, i + 2)
        } else {
            segment_start_from(chars, i + 1, single, double, escape, last)
        }
    }
}

/// Where the command being typed starts, counting characters.
pub open spec fn segment_start(line: Seq<char>) -> int {
    segment_start_from(line, 0, false, false, false, 0)
}


pub(crate) proof fn lemma_segment_start_bounds(chars: Seq<char>, i: int, single: bool, double: bool, escape: bool, last: int)
    requires
        0 <= i,
        0 <= last <= chars.len(),
        last <= i || i >= chars.len(),
    ensures
        0 <= segment_start_from(chars, i, single, double, escape, last) <= chars.len(),
    decreases chars.len() - i,
{
    if i < chars.len() {
        let ch = chars[i];
        if escape {
            lemma_segment_start_bounds(chars, i + 1, single, double, false, last);
        } else if single {
            lemma_segment_start_bounds(chars, i + 1, ch != '\'', double, escape, last);
        } else if double {
            if ch == '\\' {
                lemma_segment_start_bounds(chars, i + 1, single, double, true, last);
            } else if ch == '"' {
                lemma_segment_start_bounds(chars, i + 1, single, false, escape, last);
            } else {
                lemma_segment_start_bounds(chars, i + 1, single, double, escape, last);
            }
        } else if ch == '\\' {
            lemma_segment_start_bounds(chars, i + 1, single, double, true, last);
        } else if ch == '\'' {
            lemma_segment_start_bounds(chars, i + 1, true, double, escape, last);
        } else if ch == '"' {
            lemma_segment_start_bounds(chars, i + 1, single, true, escape, last);
        } else if ch == '|' && i + 1 < chars.len() && chars[i + 1] == '|' {
            lemma_segment_start_bounds(chars, i + 2, single, double, escape, i + 2);
        } else if ch == '|' || ch == ';' {
            lemma_segment_start_bounds(chars, i + 1, single, double, escape, i + 1);
        } else if ch == '&' && i + 1 < chars.len() && chars[i + 1] == '&' {
            lemma_segment_start_bounds(chars, i + 2, single, double, escape, i + 2);
        } else {
            lemma_segment_start_bounds(chars, i + 1, single, double, escape, last);
        }
    }
}

/// Where the command being typed starts, counting characters.
pub fn segment_start_exec(before_cursor: &str) -> (res: usize)
    ensures
        res == segment_start(before_cursor@),
        res <= before_cursor@.len(),
{
    let chars = crate::text::chars_of(before_cursor);
    let mut single = false;
    let mut double = false;
    let mut escape = false;
    let mut last: usize = 0;
    let mut i: usize = 0;
    proof {
        lemma_segment_start_bounds(chars@, 0, false, false, false, 0);
    }
    while i < chars.len()
        invariant
            chars@ == before_cursor@,
            last <= i,
            i <= chars@.len() + 1,
            last <= chars@.len(),
            segment_start(before_cursor@) == segment_start_from(chars@, i as int, single, double, escape, last as int),
        decreases chars@.len() + 1 - i,
    {
        let ch = chars[i];
        if escape {
            escape = false;
        } else if single {
            if ch == '\'' {
                single = false;
            }
        } else if double {
            if ch == '\\' {
                escape = true;
            } else if ch == '"' {
                double = false;
            }
        } else if ch == '\\' {
            escape = true;
        } else if ch == '\'' {
            single = true;
        } else if ch == '"' {
            double = true;
        } else if ch == '|' && i + 1 < chars.len() && chars[i + 1] == '|' {
            last = i + 2;
            i = i + 1;
        } else if ch == '|' || ch == ';' {
            last = i + 1;
        } else if ch == '&' && i + 1 < chars.len() && chars[i + 1] == '&' {
            last = i + 2;
            i = i + 1;
        }
        i = i + 1;
    }
    last
}

/// What follows the last `|`, `;`, `||` or `&&` outside quotes: the command
/// being typed. The place found counts characters but is applied as a byte
/// offset, which must fall on a character boundary.
pub fn completion_segment(before_cursor: &str) -> (res: String)
    requires
        is_char_boundary(encode_utf8(before_cursor@), segment_start(before_cursor@)),
    ensures
        res@ == after_byte(before_cursor@, segment_start(before_cursor@)),
{
    let last = segment_start_exec(before_cursor);
    let (head, tail) = crate::text::split_at_byte(before_cursor, last);
    tail
}

} // verus!
