//! Laws of the shell: what one operation undoes of another, what `cd` and
//! redirections leave behind, and what completions offer.
use vstd::prelude::*;
use vstd::utf8::{decode_utf8, encode_utf8, is_char_boundary};
use crate::bins::{complete_path_spec, ok_outcome, path_candidates, split_dir, ContextModel};
use crate::fs::laws::{creates_below_parent, law_read_after_create, law_read_after_write, law_resolved_path_round_trip};
use crate::fs::{is_directory, join_slash, last_index_of, leaf_of, lemma_last_index_of, lookup, DataModel, EntryModel};
use crate::fs::path::resolved_parts;
use crate::text::{after_byte, before_byte, byte_len, is_prefix, lemma_byte_len_push, lemma_split_chars};
use super::lexer::{lex, white_space, ShellOp, TokenModel};
use super::execution::{cd_outcome, chains_from, should_run};
use super::parser::{parse_simple, ChainCondition, CommandModel};
use super::model::{is_redirect, complete_candidates, scan_tokens, at_boundary, backspace_t, history_down_t, history_up_t, insert_t, move_cursor_t, ShellModel};
use super::redirect::{prepare_outcome, write_outcome};
use super::parser::{lemma_segment_start_bounds, segment_start, segment_start_from};

verus! {

/// At a character boundary, the characters before and after it make up the
/// whole, and those before take exactly that many bytes.
pub proof fn lemma_split_at_boundary(s: Seq<char>, k: int)
    requires
        is_char_boundary(encode_utf8(s), k),
    ensures
        before_byte(s, k) + after_byte(s, k) == s,
        byte_len(before_byte(s, k)) == k,
{
    broadcast use vstd::utf8::encode_utf8_valid_utf8, vstd::utf8::encode_utf8_decode_utf8;

    let b = encode_utf8(s);
    assert(0 <= k <= b.len()) by {
        if k < 0 || k > b.len() {
            reveal_with_fuel(is_char_boundary, 1);
        }
    }
    vstd::utf8::decode_utf8_split(b, k);
    vstd::utf8::valid_utf8_split(b, k);
    assert(b.subrange(0, k) =~= b.take(k));
    assert(b.subrange(k, b.len() as int) =~= b.skip(k));
    vstd::utf8::decode_utf8_encode_utf8(b.take(k));
}

/// Law: walking up the history and back down again gives back the line that
/// was being typed, with the cursor at its end.
pub proof fn law_history_up_then_down(m: ShellModel)
    requires
        m.history.len() > 0,
        m.history_pos is None,
    ensures
        ({
            let back = history_down_t(history_up_t(m).0).0;
            &&& back.buffer == m.buffer
            &&& back.history_pos is None
            &&& back.temp is None
            &&& back.pos == byte_len(m.buffer)
        }),
{
}

/// Law: moving the cursor left and then right puts it back, when it was not
/// at the start of the line.
pub proof fn law_left_then_right(m: ShellModel)
    requires
        0 < m.pos <= byte_len(m.buffer),
    ensures
        move_cursor_t(move_cursor_t(m, -1).0, 1).0 == m,
{
}

/// Law: deleting right after typing a character gives back the line and the
/// cursor as they were.
pub proof fn law_backspace_undoes_typing(m: ShellModel, c: char)
    requires
        at_boundary(m),
    ensures
        ({
            let back = backspace_t(insert_t(m, seq![c]).0).0;
            back.buffer == m.buffer && back.pos == m.pos
        }),
{
    let a = before_byte(m.buffer, m.pos);
    let b = after_byte(m.buffer, m.pos);
    lemma_split_at_boundary(m.buffer, m.pos);
    let typed = insert_t(m, seq![c]).0;
    lemma_byte_len_push(a, c);
    assert(a + seq![c] =~= a.push(c));
    lemma_split_chars(a + seq![c], b);
    vstd::utf8::char_is_scalar(c);
    assert(byte_len(seq![c]) >= 1) by {
        lemma_byte_len_push(Seq::<char>::empty(), c);
        assert(Seq::<char>::empty().push(c) =~= seq![c]);
    }
    lemma_byte_len_push(Seq::<char>::empty(), c);
    assert(Seq::<char>::empty().push(c) =~= seq![c]);
    assert(encode_utf8(Seq::<char>::empty()).len() == 0);
    assert(typed.buffer =~= (a + seq![c]) + b);
    assert((a + seq![c]).drop_last() =~= a);
}

/// Law: after `cd` to a directory, the working directory is the absolute
/// path of that directory, and it designates the same directory.
pub proof fn law_cd_then_pwd(ctx: ContextModel, path: Seq<char>)
    requires
        lookup(ctx.fs, resolved_parts(path, Some(ctx.pwd))) matches Some(e) && is_directory(e),
    ensures
        ({
            let (r, c) = cd_outcome(ctx, seq![path]);
            &&& r == ok_outcome(Seq::empty())
            &&& c.pwd == seq!['/'] + join_slash(resolved_parts(path, Some(ctx.pwd)))
            &&& lookup(c.fs, resolved_parts(c.pwd, None)) == lookup(ctx.fs, resolved_parts(path, Some(ctx.pwd)))
        }),
{
    law_resolved_path_round_trip(path, Some(ctx.pwd), None, ctx.fs);
}

/// Law: text written to a file by a `>` redirection is what the file holds
/// afterwards, when the write succeeds (and, for a new file, when the file
/// is made inside a directory rather than at the root).
pub proof fn law_redirect_then_read(fs: Seq<EntryModel>, path: Seq<char>, data: Seq<char>, pwd: Option<Seq<char>>)
    requires
        write_outcome(fs, path, false, data, pwd).1 is Ok,
        lookup(fs, resolved_parts(path, pwd)) is None ==> creates_below_parent(path, pwd),
    ensures
        lookup(write_outcome(fs, path, false, data, pwd).0, resolved_parts(path, pwd)) matches Some(e)
            && e.data == DataModel::File(encode_utf8(data)),
{
    let parts = resolved_parts(path, pwd);
    match lookup(fs, parts) {
        Some(e) => {
            law_read_after_write(fs, parts, encode_utf8(data));
        },
        None => {
            law_read_after_create(fs, path, pwd, encode_utf8(data));
        },
    }
}

proof fn lemma_candidates_extend(children: Seq<EntryModel>, dir: Seq<char>, prefix: Seq<char>, dirs_only: bool)
    ensures
        forall|i: int|
            0 <= i < path_candidates(children, dir, prefix, dirs_only).len() ==> is_prefix(
                dir + prefix,
                #[trigger] path_candidates(children, dir, prefix, dirs_only)[i],
            ),
    decreases children.len(),
{
    if children.len() > 0 {
        lemma_candidates_extend(children.drop_last(), dir, prefix, dirs_only);
        let c = children.last();
        let r = path_candidates(children.drop_last(), dir, prefix, dirs_only);
        if is_prefix(prefix, c.name) && (!dirs_only || is_directory(c)) {
            let x = dir + c.name + if is_directory(c) { seq!['/'] } else { Seq::empty() };
            assert((dir + prefix).len() <= x.len());
            assert(x.take((dir + prefix).len() as int) =~= dir + prefix) by {
                assert(c.name.take(prefix.len() as int) == prefix);
                assert forall|j: int| 0 <= j < (dir + prefix).len() implies x[j] == (dir + prefix)[j] by {
                    if j >= dir.len() {
                        assert(x[j] == c.name[j - dir.len()]);
                        assert(c.name.take(prefix.len() as int)[j - dir.len()] == prefix[j - dir.len()]);
                    }
                }
            }
            assert forall|i: int| 0 <= i < r.push(x).len() implies is_prefix(dir + prefix, #[trigger] r.push(x)[i]) by {
                if i < r.len() {
                    assert(r.push(x)[i] == r[i]);
                }
            }
        }
    }
}

/// Law: every path completion starts with what was typed of the path.
pub proof fn law_completions_extend_typed(ctx: ContextModel, args: Seq<Seq<char>>, index: int, dirs_only: bool)
    ensures
        ({
            let typed = if 0 <= index < args.len() { args[index] } else { Seq::empty() };
            forall|i: int|
                0 <= i < complete_path_spec(ctx, args, index, dirs_only).len() ==> is_prefix(
                    typed,
                    #[trigger] complete_path_spec(ctx, args, index, dirs_only)[i],
                )
        }),
{
    let typed = if 0 <= index < args.len() { args[index] } else { Seq::empty() };
    let (dir, prefix) = split_dir(typed);
    lemma_last_index_of(typed, '/');
    match last_index_of(typed, '/') {
        Some(k) => {
            assert(typed.take(k + 1) + typed.skip(k + 1) =~= typed);
        },
        None => {
            assert(Seq::<char>::empty() + typed =~= typed);
        },
    }
    assert(dir + prefix == typed);
    let listed = if dir.len() == 0 { seq!['.'] } else { dir };
    match lookup(ctx.fs, resolved_parts(listed, Some(ctx.pwd))) {
        Some(e) => match e.data {
            DataModel::Directory(ch) => {
                lemma_candidates_extend(ch, dir, prefix, dirs_only);
            },
            _ => {},
        },
        None => {},
    }
}

/// Scanning from position `p` on is scanning the text that starts there.
proof fn lemma_segment_shift(b: Seq<char>, p: int, j: int, single: bool, double: bool, escape: bool, last: int)
    requires
        0 <= p <= j,
        p <= last,
        p <= b.len(),
    ensures
        segment_start_from(b.skip(p), j - p, single, double, escape, last - p)
            == segment_start_from(b, j, single, double, escape, last) - p,
    decreases b.len() - j,
{
    let t = b.skip(p);
    if j < b.len() {
        assert(t[j - p] == b[j]);
        if j + 1 < b.len() {
            assert(t[j + 1 - p] == b[j + 1]);
        }
        let ch = b[j];
        if escape {
            lemma_segment_shift(b, p, j + 1, single, double, false, last);
        } else if single {
            lemma_segment_shift(b, p, j + 1, ch != '\'', double, escape, last);
        } else if double {
            if ch == '\\' {
                lemma_segment_shift(b, p, j + 1, single, double, true, last);
            } else if ch == '"' {
                lemma_segment_shift(b, p, j + 1, single, false, escape, last);
            } else {
                lemma_segment_shift(b, p, j + 1, single, double, escape, last);
            }
        } else if ch == '\\' {
            lemma_segment_shift(b, p, j + 1, single, double, true, last);
        } else if ch == '\'' {
            lemma_segment_shift(b, p, j + 1, true, double, escape, last);
        } else if ch == '"' {
            lemma_segment_shift(b, p, j + 1, single, true, escape, last);
        } else if ch == '|' && j + 1 < b.len() && b[j + 1] == '|' {
            lemma_segment_shift(b, p, j + 2, single, double, escape, j + 2);
        } else if ch == '|' || ch == ';' {
            lemma_segment_shift(b, p, j + 1, single, double, escape, j + 1);
        } else if ch == '&' && j + 1 < b.len() && b[j + 1] == '&' {
            lemma_segment_shift(b, p, j + 2, single, double, escape, j + 2);
        } else {
            lemma_segment_shift(b, p, j + 1, single, double, escape, last);
        }
    }
}

/// The scan ends where it started counting, or just after a separator that
/// stands outside quotes, from which no further separator is found.
proof fn lemma_segment_last(b: Seq<char>, i: int, single: bool, double: bool, escape: bool, last: int)
    requires
        0 <= i,
    ensures
        ({
            let r = segment_start_from(b, i, single, double, escape, last);
            r == last || segment_start_from(b, r, false, false, false, r) == r
        }),
    decreases b.len() - i,
{
    if i < b.len() {
        let ch = b[i];
        if escape {
            lemma_segment_last(b, i + 1, single, double, false, last);
        } else if single {
            lemma_segment_last(b, i + 1, ch != '\'', double, escape, last);
        } else if double {
            if ch == '\\' {
                lemma_segment_last(b, i + 1, single, double, true, last);
            } else if ch == '"' {
                lemma_segment_last(b, i + 1, single, false, escape, last);
            } else {
                lemma_segment_last(b, i + 1, single, double, escape, last);
            }
        } else if ch == '\\' {
            lemma_segment_last(b, i + 1, single, double, true, last);
        } else if ch == '\'' {
            lemma_segment_last(b, i + 1, true, double, escape, last);
        } else if ch == '"' {
            lemma_segment_last(b, i + 1, single, true, escape, last);
        } else if ch == '|' && i + 1 < b.len() && b[i + 1] == '|' {
            lemma_segment_last(b, i + 2, false, false, false, i + 2);
        } else if ch == '|' || ch == ';' {
            lemma_segment_last(b, i + 1, false, false, false, i + 1);
        } else if ch == '&' && i + 1 < b.len() && b[i + 1] == '&' {
            lemma_segment_last(b, i + 2, false, false, false, i + 2);
        } else {
            lemma_segment_last(b, i + 1, single, double, escape, last);
        }
    }
}

/// Law: the command being completed (what `completion_segment` gives) is
/// what follows the text before it, and it is a whole command of its own:
/// taking its segment again gives it back unchanged. This holds when the
/// text before the segment is ASCII, so that the segment's position counted
/// in characters is also its byte offset.
pub proof fn law_completion_segment_is_own_segment(b: Seq<char>)
    requires
        vstd::utf8::is_ascii_chars(b.take(segment_start(b))),
    ensures
        ({
            let s = segment_start(b);
            let r = after_byte(b, s);
            &&& is_char_boundary(encode_utf8(b), s)
            &&& b == b.take(s) + r
            &&& is_char_boundary(encode_utf8(r), segment_start(r))
            &&& after_byte(r, segment_start(r)) == r
        }),
{
    broadcast use vstd::utf8::encode_utf8_decode_utf8;

    let s = segment_start(b);
    lemma_segment_start_bounds(b, 0, false, false, false, 0);
    let a = b.take(s);
    let t = b.skip(s);
    assert(b =~= a + t);
    vstd::utf8::is_ascii_chars_encode_utf8(a);
    lemma_split_chars(a, t);
    lemma_segment_last(b, 0, false, false, false, 0);
    if s == 0 {
        assert(t =~= b);
    } else {
        lemma_segment_shift(b, s, s, false, false, false, s);
    }
    assert(segment_start(t) == 0);
    lemma_split_chars(Seq::<char>::empty(), t);
    assert(Seq::<char>::empty() + t =~= t);
}


/// Running the first `k` pipelines of a chain, then the rest from there,
/// is running the whole chain.
proof fn lemma_chains_split(
    ctx: ContextModel,
    chains: Seq<(Option<ChainCondition>, Seq<CommandModel>)>,
    i: int,
    k: int,
    shown: Seq<char>,
    s: i32,
)
    requires
        0 <= i <= k <= chains.len(),
    ensures
        ({
            let (sh, st, c) = chains_from(ctx, chains.take(k), i, shown, s);
            chains_from(ctx, chains, i, shown, s) == chains_from(c, chains, k, sh, st)
        }),
    decreases k - i,
{
    if i < k {
        assert(chains.take(k)[i] == chains[i]);
        if should_run(i, chains[i].0, s) {
            let (r, c) = super::execution::pipeline_outcome(ctx, chains[i].1);
            lemma_chains_split(c, chains, i + 1, k, shown + r.output + r.error, r.status);
        } else {
            lemma_chains_split(ctx, chains, i + 1, k, shown, s);
        }
    }
}

/// After pipeline `k` (not the first) is taken out, every later pipeline
/// runs as before, one place earlier.
proof fn lemma_chains_shift(
    ctx: ContextModel,
    chains: Seq<(Option<ChainCondition>, Seq<CommandModel>)>,
    k: int,
    j: int,
    shown: Seq<char>,
    s: i32,
)
    requires
        1 <= k < j <= chains.len(),
    ensures
        chains_from(ctx, chains, j, shown, s) == chains_from(ctx, chains.remove(k), j - 1, shown, s),
    decreases chains.len() - j,
{
    if j < chains.len() {
        assert(chains.remove(k)[j - 1] == chains[j]);
        if should_run(j, chains[j].0, s) {
            let (r, c) = super::execution::pipeline_outcome(ctx, chains[j].1);
            lemma_chains_shift(c, chains, k, j + 1, shown + r.output + r.error, r.status);
        } else {
            lemma_chains_shift(ctx, chains, k, j + 1, shown, s);
        }
    }
}

/// Law: a pipeline (not the first) that its `&&` or `||` condition skips
/// leaves no trace: the whole chain shows the same text, ends with the same
/// status and leaves the same context as the chain without that pipeline.
/// So a skipped pipeline keeps the status of the last pipeline that ran,
/// and the conditions after it are judged on that status.
pub proof fn law_skipped_pipeline_leaves_no_trace(
    ctx: ContextModel,
    chains: Seq<(Option<ChainCondition>, Seq<CommandModel>)>,
    k: int,
    shown: Seq<char>,
    s: i32,
)
    requires
        1 <= k < chains.len(),
        !should_run(k, chains[k].0, chains_from(ctx, chains.take(k), 0, shown, s).1),
    ensures
        chains_from(ctx, chains, 0, shown, s) == chains_from(ctx, chains.remove(k), 0, shown, s),
{
    let (sh, st, c) = chains_from(ctx, chains.take(k), 0, shown, s);
    lemma_chains_split(ctx, chains, 0, k, shown, s);
    lemma_chains_split(ctx, chains.remove(k), 0, k, shown, s);
    assert(chains.remove(k).take(k) =~= chains.take(k));
    lemma_chains_shift(c, chains, k, k + 1, sh, st);
}


/// Among directories only, every candidate is a directory of the listed
/// ones, spelled after `dir` and followed by a `/`.
proof fn lemma_dir_candidates(children: Seq<EntryModel>, dir: Seq<char>, prefix: Seq<char>)
    ensures
        forall|i: int|
            0 <= i < path_candidates(children, dir, prefix, true).len() ==> exists|j: int|
                0 <= j < children.len() && is_directory(children[j]) && #[trigger] path_candidates(
                    children,
                    dir,
                    prefix,
                    true,
                )[i] == dir + children[j].name + seq!['/'],
    decreases children.len(),
{
    if children.len() > 0 {
        let front = children.drop_last();
        lemma_dir_candidates(front, dir, prefix);
        let r = path_candidates(front, dir, prefix, true);
        let all = path_candidates(children, dir, prefix, true);
        assert forall|i: int| 0 <= i < all.len() implies exists|j: int|
            0 <= j < children.len() && is_directory(children[j]) && #[trigger] all[i] == dir + children[j].name
                + seq!['/'] by {
            if i < r.len() {
                assert(all[i] == r[i]);
                let j = choose|j: int| 0 <= j < front.len() && is_directory(front[j]) && #[trigger] r[i] == dir + front[j].name + seq!['/'];
                assert(children[j] == front[j]);
            } else {
                let j = children.len() - 1;
                assert(all[i] == dir + children[j].name + seq!['/']);
            }
        }
    }
}

/// The argument being typed after the command name (nothing yet when there is none).
pub open spec fn argument_typed(words: Seq<Seq<char>>) -> Seq<char> {
    if words.len() >= 2 {
        words[1]
    } else {
        Seq::empty()
    }
}

/// The directory whose entries a path typed up to `d` (its part up to the
/// last `/`) completes in: the working directory when nothing was typed.
pub open spec fn listed_dir(d: Seq<char>) -> Seq<char> {
    if d.len() == 0 {
        seq!['.']
    } else {
        d
    }
}

/// Law: when the line up to the cursor is a `cd` command whose argument is
/// being typed (no redirection in the way), every candidate Tab offers ends
/// with `/` and is a directory found in the directory typed so far (the
/// working directory when no `/` was typed): files and links are never
/// offered to `cd`.
pub proof fn law_cd_completes_directories(ctx: ContextModel, buffer: Seq<char>, pos: int)
    requires
        ({
            let before = before_byte(buffer, pos);
            let ends_ws = before.len() > 0 && white_space(before.last());
            let segment = after_byte(before, segment_start(before));
            &&& lex(segment) is Ok
            &&& ({
                let s = scan_tokens(lex(segment)->Ok_0, lex(segment)->Ok_0.len() as int);
                &&& !s.expecting
                &&& !s.was_target
                &&& s.words.len() >= 1
                &&& s.words[0] == "cd"@
                &&& (s.words.len() >= 2 || ends_ws)
            })
        }),
    ensures
        ({
            let before = before_byte(buffer, pos);
            let segment = after_byte(before, segment_start(before));
            let s = scan_tokens(lex(segment)->Ok_0, lex(segment)->Ok_0.len() as int);
            let d = split_dir(argument_typed(s.words)).0;
            let c = complete_candidates(ctx, buffer, pos);
            let found = lookup(ctx.fs, resolved_parts(listed_dir(d), Some(ctx.pwd)));
            let ch = found->0.data->Directory_0;
            c.len() > 0 ==> found is Some && found->0.data is Directory && forall|i: int|
                0 <= i < c.len() ==> (#[trigger] c[i]).len() > 0 && c[i].last() == '/' && exists|j: int|
                    #![trigger ch[j]]
                    0 <= j < ch.len() && is_directory(ch[j]) && c[i] == d + ch[j].name + seq!['/']
        }),
{
    reveal_strlit("cd");
    let before = before_byte(buffer, pos);
    let segment = after_byte(before, segment_start(before));
    let s = scan_tokens(lex(segment)->Ok_0, lex(segment)->Ok_0.len() as int);
    let typed = argument_typed(s.words);
    let args = s.words.drop_first();
    assert(s.words.len() >= 2 ==> args[0] == s.words[1]);
    let (d, pre) = split_dir(typed);
    let listed = listed_dir(d);
    let c = complete_candidates(ctx, buffer, pos);
    assert(c == complete_path_spec(ctx, args, 0, true));
    match lookup(ctx.fs, resolved_parts(listed, Some(ctx.pwd))) {
        Some(e) => match e.data {
            DataModel::Directory(ch) => {
                lemma_dir_candidates(ch, d, pre);
                assert(c == path_candidates(ch, d, pre, true));
                assert forall|i: int| 0 <= i < c.len() implies (#[trigger] c[i]).len() > 0 && c[i].last() == '/'
                    && exists|j: int| #![trigger ch[j]] 0 <= j < ch.len() && is_directory(ch[j]) && c[i] == d + ch[j].name + seq!['/'] by {
                    let j = choose|j: int| 0 <= j < ch.len() && is_directory(ch[j]) && #[trigger] path_candidates(ch, d, pre, true)[i] == d + ch[j].name + seq!['/'];
                    assert(c[i].last() == (d + ch[j].name + seq!['/']).last());
                    assert(is_directory(ch[j]));
                }
            },
            _ => {
                assert(c.len() == 0);
            },
        },
        None => {
            assert(c.len() == 0);
        },
    }
}


/// Whether two redirection operators redirect the same stream: the input,
/// the output, or the error text.
pub open spec fn same_stream(a: ShellOp, b: ShellOp) -> bool {
    ||| a == ShellOp::RedirectIn && b == ShellOp::RedirectIn
    ||| (a == ShellOp::RedirectOut || a == ShellOp::RedirectAppend) && (b == ShellOp::RedirectOut || b
        == ShellOp::RedirectAppend)
    ||| (a == ShellOp::RedirectErrOut || a == ShellOp::RedirectErrAppend) && (b == ShellOp::RedirectErrOut || b
        == ShellOp::RedirectErrAppend)
}

/// Whether `cmd` holds the redirection `op` to `path`: `<` reads the
/// input from it, `>` and `2>` replace its content with the output or the
/// error text, and `>>` and `2>>` append to it.
pub open spec fn records(cmd: CommandModel, op: ShellOp, path: Seq<char>) -> bool {
    match op {
        ShellOp::RedirectIn => cmd.stdin == Some(path),
        ShellOp::RedirectOut => cmd.stdout == Some((path, false)),
        ShellOp::RedirectAppend => cmd.stdout == Some((path, true)),
        ShellOp::RedirectErrOut => cmd.stderr == Some((path, false)),
        ShellOp::RedirectErrAppend => cmd.stderr == Some((path, true)),
        _ => true,
    }
}

/// Whether a token is a redirection of the same stream as `op`.
pub open spec fn redirects_like(t: TokenModel, op: ShellOp) -> bool {
    t matches TokenModel::Op(o) && is_redirect(o) && same_stream(o, op)
}

/// A simple command read from token `k` ends at `k` or after it.
proof fn lemma_parse_simple_ends_after(tokens: Seq<TokenModel>, k: int, cmd: CommandModel)
    requires
        0 <= k,
        parse_simple(tokens, k, cmd) is Ok,
    ensures
        parse_simple(tokens, k, cmd)->Ok_0.1 >= k,
    decreases tokens.len() - k,
{
    if k >= tokens.len() || super::parser::ends_command(tokens[k]) {
    } else {
        match tokens[k] {
            TokenModel::Word(w) => {
                lemma_parse_simple_ends_after(tokens, k + 1, CommandModel { argv: cmd.argv.push(w), ..cmd });
            },
            TokenModel::Op(o) => {
                lemma_parse_simple_ends_after(tokens, k + 2, super::parser::with_redirect(cmd, o, tokens[k + 1]->Word_0));
            },
        }
    }
}

/// A recorded redirection stays recorded while no later one of its stream comes.
proof fn lemma_record_kept(tokens: Seq<TokenModel>, k: int, cmd: CommandModel, op: ShellOp, path: Seq<char>)
    requires
        0 <= k,
        is_redirect(op),
        records(cmd, op, path),
        parse_simple(tokens, k, cmd) is Ok,
        forall|m: int| k <= m < parse_simple(tokens, k, cmd)->Ok_0.1 ==> !redirects_like(#[trigger] tokens[m], op),
    ensures
        records(parse_simple(tokens, k, cmd)->Ok_0.0, op, path),
    decreases tokens.len() - k,
{
    if k >= tokens.len() || super::parser::ends_command(tokens[k]) {
    } else {
        let j = parse_simple(tokens, k, cmd)->Ok_0.1;
        match tokens[k] {
            TokenModel::Word(w) => {
                let next = CommandModel { argv: cmd.argv.push(w), ..cmd };
                assert(parse_simple(tokens, k, cmd) == parse_simple(tokens, k + 1, next));
                lemma_record_kept(tokens, k + 1, next, op, path);
            },
            TokenModel::Op(o) => {
                let next = super::parser::with_redirect(cmd, o, tokens[k + 1]->Word_0);
                assert(parse_simple(tokens, k, cmd) == parse_simple(tokens, k + 2, next));
                lemma_parse_simple_ends_after(tokens, k + 2, next);
                assert(!redirects_like(tokens[k], op));
                assert(records(next, op, path));
                lemma_record_kept(tokens, k + 2, next, op, path);
            },
        }
    }
}

proof fn lemma_record_reached(tokens: Seq<TokenModel>, k: int, cmd: CommandModel, r: int, op: ShellOp, path: Seq<char>)
    requires
        0 <= k <= r,
        r + 1 < tokens.len(),
        tokens[r] == TokenModel::Op(op),
        is_redirect(op),
        tokens[r + 1] == TokenModel::Word(path),
        parse_simple(tokens, k, cmd) is Ok,
        r < parse_simple(tokens, k, cmd)->Ok_0.1,
        forall|m: int|
            r + 1 < m < parse_simple(tokens, k, cmd)->Ok_0.1 ==> !redirects_like(#[trigger] tokens[m], op),
    ensures
        records(parse_simple(tokens, k, cmd)->Ok_0.0, op, path),
    decreases r - k,
{
    if k == r {
        let next = super::parser::with_redirect(cmd, op, path);
        assert(!super::parser::ends_command(tokens[r]));
        assert(parse_simple(tokens, k, cmd) == parse_simple(tokens, k + 2, next));
        assert(records(next, op, path));
        lemma_record_kept(tokens, k + 2, next, op, path);
    } else {
        if super::parser::ends_command(tokens[k]) {
            assert(parse_simple(tokens, k, cmd)->Ok_0.1 == k);
        }
        match tokens[k] {
            TokenModel::Word(w) => {
                let next = CommandModel { argv: cmd.argv.push(w), ..cmd };
                lemma_record_reached(tokens, k + 1, next, r, op, path);
            },
            TokenModel::Op(o) => {
                assert(k + 1 != r);
                let next = super::parser::with_redirect(cmd, o, tokens[k + 1]->Word_0);
                lemma_record_reached(tokens, k + 2, next, r, op, path);
            },
        }
    }
}

/// Law: in a simple command, the last redirection of each stream is the one
/// its parse records, as it was written: `<` reads the input from its path,
/// `>` and `2>` truncate their path, and `>>` and `2>>` append to it. So
/// `cmd 2>> path` records the error text as appended to `path`.
pub proof fn law_last_redirect_recorded(tokens: Seq<TokenModel>, start: int, r: int, op: ShellOp, path: Seq<char>)
    requires
        0 <= start <= r,
        r + 1 < tokens.len(),
        tokens[r] == TokenModel::Op(op),
        is_redirect(op),
        tokens[r + 1] == TokenModel::Word(path),
        parse_simple(tokens, start, super::parser::empty_command()) is Ok,
        r < parse_simple(tokens, start, super::parser::empty_command())->Ok_0.1,
        forall|m: int|
            r + 1 < m < parse_simple(tokens, start, super::parser::empty_command())->Ok_0.1 ==> !redirects_like(
                #[trigger] tokens[m],
                op,
            ),
    ensures
        records(parse_simple(tokens, start, super::parser::empty_command())->Ok_0.0, op, path),
{
    lemma_record_reached(tokens, start, super::parser::empty_command(), r, op, path);
}

/// Law: appending to an existing file keeps its content: readying an
/// appending redirection leaves the filesystem as it is, and writing the
/// text then leaves the file holding its former bytes followed by the text.
pub proof fn law_append_keeps_content(fs: Seq<EntryModel>, path: Seq<char>, data: Seq<char>, pwd: Option<Seq<char>>)
    requires
        lookup(fs, resolved_parts(path, pwd)) matches Some(e) && e.data is File,
    ensures
        ({
            let parts = resolved_parts(path, pwd);
            let e = lookup(fs, parts)->0;
            let (fs1, r1) = prepare_outcome(fs, path, true, pwd);
            let (fs2, r2) = write_outcome(fs1, path, true, data, pwd);
            &&& fs1 == fs && r1 is Ok && r2 is Ok
            &&& lookup(fs2, parts) == Some(
                EntryModel { name: e.name, data: DataModel::File(e.data->File_0 + encode_utf8(data)) },
            )
        }),
{
    let parts = resolved_parts(path, pwd);
    let e = lookup(fs, parts)->0;
    law_read_after_write(fs, parts, e.data->File_0 + encode_utf8(data));
}

} // verus!
