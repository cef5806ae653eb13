//! The model of an interactive shell and what each of its operations does
//! to it: the line and cursor, the completion menu, the history.
use vstd::prelude::*;
use vstd::utf8::{encode_utf8, is_char_boundary};
use crate::bins::{bin_complete, bin_aliases, bin_name, all_bins, complete_path_spec, find_from, ContextModel};
use crate::consts::{ANSI_BOLD, ANSI_BRIGHT_RED, ANSI_RED, ANSI_RESET};
use crate::order::sorted_set;
use crate::text::{after_byte, before_byte, byte_len, decimal, is_prefix};
use super::execution::{home, installed, line_outcome};
use super::lexer::{is_delimiter, lex, white_space, ShellOp, TokenModel};
use super::parser::segment_start;

verus! {

/// The model of the candidates being cycled through.
pub struct CompletionModel {
    pub start: int,
    pub candidates: Seq<Seq<char>>,
    pub index: int,
}

/// The model of a shell.
pub struct ShellModel {
    pub ctx: ContextModel,
    pub buffer: Seq<char>,
    pub pos: int,
    pub state: Option<CompletionModel>,
    pub menu_lines: int,
    pub history: Seq<Seq<char>>,
    pub history_pos: Option<int>,
    pub temp: Option<Seq<char>>,
}

/// The prompt for working directory `pwd`: `~` at home.
pub open spec fn prompt_text(pwd: Seq<char>) -> Seq<char> {
    (if pwd == home() { "~"@ } else { pwd }) + " "@ + ANSI_RED@ + "›"@ + ANSI_RESET@ + " "@
}

/// The line redrawn from the start, then the cursor moved back over the
/// characters after it.
pub open spec fn redraw(m: ShellModel) -> Seq<char> {
    let tail = after_byte(m.buffer, m.pos).len();
    "\r"@ + prompt_text(m.ctx.pwd) + m.buffer + "\x1B[K"@ + if tail > 0 {
        "\x1B["@ + decimal(tail) + "D"@
    } else {
        Seq::empty()
    }
}

/// Whether the cursor stands at the start of a character or at the end of the line.
pub open spec fn at_boundary(m: ShellModel) -> bool {
    is_char_boundary(encode_utf8(m.buffer), m.pos)
}

/// Moving the cursor by `delta` bytes, kept within the line.
pub open spec fn move_cursor_t(m: ShellModel, delta: int) -> (ShellModel, Seq<char>) {
    let len = byte_len(m.buffer) as int;
    let target = m.pos + delta;
    let np = if target < 0 { 0 } else if target > len { len } else { target };
    (
        ShellModel { pos: np, ..m },
        if np != m.pos {
            if delta > 0 { "\x1B[C"@ } else { "\x1B[D"@ }
        } else {
            Seq::empty()
        },
    )
}

/// Deleting the character before the cursor.
pub open spec fn backspace_t(m: ShellModel) -> (ShellModel, Seq<char>) {
    if m.pos == 0 {
        (m, Seq::empty())
    } else {
        let a = before_byte(m.buffer, m.pos).drop_last();
        let b = after_byte(m.buffer, m.pos);
        (
            ShellModel { buffer: a + b, pos: byte_len(a) as int, ..m },
            if b.len() == 0 {
                "\x1B[D\x1B[K"@
            } else {
                "\x1B[D\x1B[K"@ + b + "\x1B["@ + decimal(b.len()) + "D"@
            },
        )
    }
}

/// Showing the history entry selected (if any) as the line, cursor at its end.
pub open spec fn update_line_t(m: ShellModel) -> (ShellModel, Seq<char>) {
    let buf = match m.history_pos {
        Some(i) => m.history[i],
        None => m.buffer,
    };
    (ShellModel { buffer: buf, pos: byte_len(buf) as int, ..m }, "\r"@ + prompt_text(m.ctx.pwd) + buf + "\x1B[K"@)
}

/// Up: the previous history entry; from the newest when not browsing (or
/// at the oldest), keeping the line being typed aside.
pub open spec fn history_up_t(m: ShellModel) -> (ShellModel, Seq<char>) {
    if m.history.len() == 0 {
        (m, Seq::empty())
    } else {
        let n = m.history.len() as int;
        let (p, t) = match m.history_pos {
            Some(i) => if i > 0 { (i - 1, m.temp) } else { (n - 1, Some(m.buffer)) },
            None => (n - 1, Some(m.buffer)),
        };
        update_line_t(ShellModel { history_pos: Some(p), temp: t, ..m })
    }
}

/// Down: the next history entry; past the newest, back to the line that was
/// being typed.
pub open spec fn history_down_t(m: ShellModel) -> (ShellModel, Seq<char>) {
    match m.history_pos {
        None => (m, Seq::empty()),
        Some(i) => if i + 1 >= m.history.len() {
            update_line_t(
                ShellModel {
                    history_pos: None,
                    buffer: match m.temp {
                        Some(t) => t,
                        None => Seq::empty(),
                    },
                    temp: None,
                    ..m
                },
            )
        } else {
            update_line_t(ShellModel { history_pos: Some(i + 1), ..m })
        },
    }
}

/// Erasing the completion menu, when one is shown.
pub open spec fn clear_menu_t(m: ShellModel) -> (ShellModel, Seq<char>) {
    if m.menu_lines == 0 {
        (m, Seq::empty())
    } else {
        let m2 = ShellModel { menu_lines: 0, state: None, ..m };
        (m2, redraw(m2) + "\x1B[J"@ + redraw(m2))
    }
}

/// Forgetting the candidates and erasing their menu.
pub open spec fn reset_completion_t(m: ShellModel) -> (ShellModel, Seq<char>) {
    clear_menu_t(ShellModel { state: None, ..m })
}

/// The rows of the menu shown for `total` candidates, the selected one being
/// `index`: at most six, the selected one roughly in the middle.
pub open spec fn menu_window(total: int, index: int) -> (int, int) {
    let visible = if total < 6 { total } else { 6 };
    let half = visible / 2;
    let s0 = if index >= half { index - half } else { 0 };
    let max_start = total - visible;
    let start = if s0 > max_start { max_start } else { s0 };
    (start, start + visible)
}

/// The menu rows from `i` to `end`, the selected one marked.
pub open spec fn menu_rows(cands: Seq<Seq<char>>, index: int, i: int, end: int) -> Seq<char>
    decreases end - i,
{
    if i >= end {
        Seq::empty()
    } else {
        "\r\n\x1B[2K"@ + (if i == index {
            ANSI_BOLD@ + ANSI_BRIGHT_RED@ + "> "@ + cands[i] + ANSI_RESET@
        } else {
            "  "@ + cands[i]
        }) + menu_rows(cands, index, i + 1, end)
    }
}

/// Drawing the menu of candidates below the line, then the line again.
pub open spec fn render_menu_t(m: ShellModel) -> (ShellModel, Seq<char>) {
    let head = redraw(m) + "\x1B[J"@;
    match m.state {
        None => (ShellModel { menu_lines: 0, ..m }, head),
        Some(st) => {
            let total = st.candidates.len() as int;
            if total == 0 {
                (ShellModel { menu_lines: 0, ..m }, head)
            } else {
                let (start, end) = menu_window(total, st.index);
                let above = start;
                let below = total - end;
                let summary = if above > 0 || below > 0 {
                    "\r\n\x1B[2K"@ + "  … "@ + decimal(above as nat) + " above, "@ + decimal(below as nat) + " below"@
                } else {
                    Seq::empty()
                };
                let printed = (if above > 0 || below > 0 { 1int } else { 0int }) + (end - start);
                let m2 = ShellModel { menu_lines: printed, ..m };
                (
                    m2,
                    head + summary + menu_rows(st.candidates, st.index, start, end) + (if printed > 0 {
                        "\x1B["@ + decimal(printed as nat) + "A\r"@
                    } else {
                        Seq::empty()
                    }) + redraw(m2),
                )
            }
        },
    }
}

/// The index of the last character of `s` that ends a token.
pub open spec fn last_delimiter(s: Seq<char>) -> Option<int>
    decreases s.len(),
{
    if s.len() == 0 {
        None
    } else if is_delimiter(s.last()) {
        Some(s.len() - 1)
    } else {
        last_delimiter(s.drop_last())
    }
}

/// The index of the first character of `s` that ends a token.
pub open spec fn first_delimiter(s: Seq<char>) -> Option<int>
    decreases s.len(),
{
    if s.len() == 0 {
        None
    } else if is_delimiter(s[0]) {
        Some(0)
    } else {
        match first_delimiter(s.drop_first()) {
            Some(j) => Some(j + 1),
            None => None,
        }
    }
}

/// The byte offsets where the token under the cursor starts and ends: just
/// after the last delimiter before the cursor (one byte on), and at the
/// first delimiter after it.
pub open spec fn token_bounds(buffer: Seq<char>, pos: int) -> (int, int) {
    let before = before_byte(buffer, pos);
    let after = after_byte(buffer, pos);
    let start: int = match last_delimiter(before) {
        Some(k) => byte_len(before.take(k)) as int + 1,
        None => 0,
    };
    let end = pos + match first_delimiter(after) {
        Some(j) => byte_len(after.take(j)) as int,
        None => byte_len(after) as int,
    };
    (start, end)
}

/// Whether the cursor and both ends of the token under it fall on character boundaries.
pub open spec fn bounds_ok(m: ShellModel) -> bool {
    let (start, end) = token_bounds(m.buffer, m.pos);
    &&& at_boundary(m)
    &&& is_char_boundary(encode_utf8(m.buffer), start)
    &&& is_char_boundary(encode_utf8(m.buffer), end)
}

/// The characters between two byte offsets of `s`.
pub open spec fn byte_slice(s: Seq<char>, a: int, b: int) -> Seq<char> {
    vstd::utf8::decode_utf8(encode_utf8(s).subrange(a, b))
}

/// Tab while cycling: when the token under the cursor is still the selected
/// candidate of a menu started there, the next one is selected.
pub open spec fn next_candidate_t(m: ShellModel) -> (ShellModel, Option<Seq<char>>) {
    let (start, end) = token_bounds(m.buffer, m.pos);
    let current = byte_slice(m.buffer, start, end);
    match m.state {
        None => (m, None),
        Some(st) => if st.start != start || current != st.candidates[st.index] {
            (m, None)
        } else {
            let ni = (st.index + 1) % (st.candidates.len() as int);
            (ShellModel { state: Some(CompletionModel { index: ni, ..st }), ..m }, Some(st.candidates[ni]))
        },
    }
}

/// Shift+Tab while cycling: the previous candidate is selected.
pub open spec fn prev_candidate_t(m: ShellModel) -> (ShellModel, Option<Seq<char>>) {
    let (start, end) = token_bounds(m.buffer, m.pos);
    let current = byte_slice(m.buffer, start, end);
    match m.state {
        None => (m, None),
        Some(st) => if st.start != start || current != st.candidates[st.index] {
            (m, None)
        } else {
            let ni = if st.index == 0 { st.candidates.len() - 1 } else { st.index - 1 };
            (ShellModel { state: Some(CompletionModel { index: ni, ..st }), ..m }, Some(st.candidates[ni]))
        },
    }
}

/// The token under the cursor replaced by `token`, the cursor after it.
pub open spec fn replace_token_t(m: ShellModel, token: Seq<char>) -> (ShellModel, Seq<char>) {
    let (start, end) = token_bounds(m.buffer, m.pos);
    let m2 = ShellModel {
        buffer: before_byte(m.buffer, start) + token + after_byte(m.buffer, end),
        pos: start + byte_len(token),
        ..m
    };
    (m2, redraw(m2))
}

/// What the scan of the tokens typed so far keeps: the words of the command
/// being typed, whether a redirection target is expected, the last target,
/// and whether the last word was a target.
pub struct CompletionScan {
    pub words: Seq<Seq<char>>,
    pub expecting: bool,
    pub target: Option<Seq<char>>,
    pub was_target: bool,
}

/// Whether an operator redirects.
pub open spec fn is_redirect(op: ShellOp) -> bool {
    op is RedirectIn || op is RedirectOut || op is RedirectAppend || op is RedirectErrOut || op is RedirectErrAppend
}

/// The scan of the first `n` tokens.
pub open spec fn scan_tokens(tokens: Seq<TokenModel>, n: int) -> CompletionScan
    decreases n,
{
    if n <= 0 {
        CompletionScan { words: Seq::empty(), expecting: false, target: None, was_target: false }
    } else {
        let s = scan_tokens(tokens, n - 1);
        match tokens[n - 1] {
            TokenModel::Word(w) => if s.expecting {
                CompletionScan { target: Some(w), expecting: false, was_target: true, ..s }
            } else {
                CompletionScan { words: s.words.push(w), was_target: false, ..s }
            },
            TokenModel::Op(op) => if is_redirect(op) {
                CompletionScan { expecting: true, target: Some(Seq::empty()), was_target: false, ..s }
            } else {
                CompletionScan { words: Seq::empty(), expecting: false, target: None, was_target: false }
            },
        }
    }
}

/// The names and aliases of the installed commands among `bins` that start
/// with `partial`, in order.
pub open spec fn installed_names(fs: Seq<crate::fs::EntryModel>, bins: Seq<crate::bins::Bin>, partial: Seq<char>) -> Seq<Seq<char>>
    decreases bins.len(),
{
    if bins.len() == 0 {
        Seq::empty()
    } else {
        let r = installed_names(fs, bins.drop_last(), partial);
        let b = bins.last();
        if installed(fs, bin_name(b)) {
            r + (if is_prefix(partial, bin_name(b)) { seq![bin_name(b)] } else { Seq::empty() }) + prefixed(
                bin_aliases(b),
                partial,
            )
        } else {
            r
        }
    }
}

/// The names among `names` that start with `partial`, in order.
pub open spec fn prefixed(names: Seq<Seq<char>>, partial: Seq<char>) -> Seq<Seq<char>>
    decreases names.len(),
{
    if names.len() == 0 {
        Seq::empty()
    } else {
        let r = prefixed(names.drop_last(), partial);
        if is_prefix(partial, names.last()) { r.push(names.last()) } else { r }
    }
}

/// The commands that complete `partial`: `cd`, and the installed commands
/// by name and alias, sorted and each once.
pub open spec fn command_list(fs: Seq<crate::fs::EntryModel>, partial: Seq<char>) -> Seq<Seq<char>> {
    sorted_set(
        (if is_prefix(partial, "cd"@) { seq!["cd"@] } else { Seq::empty() }) + installed_names(fs, all_bins(), partial),
    )
}

/// What Tab offers for the line up to the cursor: a path after a
/// redirection, a command name for the first word, directories after `cd`,
/// and otherwise what the command itself completes.
pub open spec fn complete_candidates(ctx: ContextModel, buffer: Seq<char>, pos: int) -> Seq<Seq<char>> {
    let before = before_byte(buffer, pos);
    let ends_ws = before.len() > 0 && white_space(before.last());
    let segment = after_byte(before, segment_start(before));
    match lex(segment) {
        Err(_) => Seq::empty(),
        Ok(tokens) => {
            let s = scan_tokens(tokens, tokens.len() as int);
            if s.expecting || (s.was_target && !ends_ws) {
                complete_path_spec(
                    ctx,
                    seq![
                        match s.target {
                            Some(t) => t,
                            None => Seq::empty(),
                        },
                    ],
                    0,
                    false,
                )
            } else if s.words.len() == 0 {
                command_list(ctx.fs, Seq::empty())
            } else if s.words.len() == 1 && !ends_ws {
                command_list(ctx.fs, s.words[0])
            } else if s.words[0] == "cd"@ {
                complete_path_spec(ctx, s.words.drop_first(), 0, true)
            } else {
                match find_from(s.words[0], 0) {
                    Some(b) => if installed(ctx.fs, bin_name(b)) {
                        sorted_set(bin_complete(b, ctx, s.words.drop_first()))
                    } else {
                        Seq::empty()
                    },
                    None => Seq::empty(),
                }
            }
        },
    }
}

/// Whether completing can read the line up to the cursor: the cursor and the
/// start of the command being typed fall on character boundaries.
pub open spec fn complete_ok(m: ShellModel) -> bool {
    let before = before_byte(m.buffer, m.pos);
    at_boundary(m) && is_char_boundary(encode_utf8(before), segment_start(before))
}

/// Tab (or Shift+Tab, with `reverse`): cycle through the menu when one is
/// being cycled; otherwise compute the candidates, complete a single one in
/// place, or start a menu at the first (or last) one.
pub open spec fn tab_t(m: ShellModel, reverse: bool) -> (ShellModel, Seq<char>) {
    let (m1, cycled) = if reverse { prev_candidate_t(m) } else { next_candidate_t(m) };
    match cycled {
        Some(next) => {
            let (m2, o1) = replace_token_t(m1, next);
            let (m3, o2) = render_menu_t(m2);
            (m3, o1 + o2)
        },
        None => {
            let cands = sorted_set(complete_candidates(m1.ctx, m1.buffer, m1.pos));
            if cands.len() == 0 {
                clear_menu_t(ShellModel { state: None, ..m1 })
            } else if cands.len() == 1 {
                let (m2, o1) = replace_token_t(ShellModel { state: None, ..m1 }, cands[0]);
                let (m3, o2) = clear_menu_t(m2);
                (m3, o1 + o2)
            } else {
                let (start, _) = token_bounds(m1.buffer, m1.pos);
                let index = if reverse { cands.len() - 1 } else { 0 };
                let m2 = ShellModel {
                    state: Some(CompletionModel { start, candidates: cands, index }),
                    ..m1
                };
                let (m3, o1) = replace_token_t(m2, cands[index]);
                let (m4, o2) = render_menu_t(m3);
                (m4, o1 + o2)
            }
        },
    }
}

/// Whether Tab can run without slicing a character: the token bounds are
/// boundaries, and so is the start of the command when candidates are computed.
pub open spec fn tab_ok(m: ShellModel, reverse: bool) -> bool {
    let cycled = if reverse { prev_candidate_t(m).1 } else { next_candidate_t(m).1 };
    bounds_ok(m) && (cycled is None ==> complete_ok(m))
}

/// Typing `key` at the cursor.
pub open spec fn insert_t(m: ShellModel, key: Seq<char>) -> (ShellModel, Seq<char>) {
    let a = before_byte(m.buffer, m.pos);
    let b = after_byte(m.buffer, m.pos);
    let shift = byte_len(b);
    let output = key + "\x1B[K"@ + b;
    (
        ShellModel { buffer: a + key + b, pos: m.pos + byte_len(key), ..m },
        if shift > 0 { output + "\x1B["@ + decimal(shift) + "D"@ } else { output },
    )
}

/// Enter: the line joins the history (when not empty) and runs; the line is
/// cleared. The terminal is sent a line break, what the command printed (when
/// anything), and a new prompt.
pub open spec fn enter_t(m: ShellModel) -> (ShellModel, Seq<Seq<char>>) {
    let cmd = m.buffer;
    let (r, c) = line_outcome(m.ctx, cmd);
    let out = r.output + r.error;
    (
        ShellModel {
            ctx: c,
            history: if cmd.len() > 0 { m.history.push(cmd) } else { m.history },
            history_pos: None,
            buffer: Seq::empty(),
            pos: 0,
            ..m
        },
        seq!["\r\n"@] + emitted(out) + seq![prompt_text(c.pwd)],
    )
}

/// What is sent of `out`: nothing when it is empty.
pub open spec fn emitted(out: Seq<char>) -> Seq<Seq<char>> {
    if out.len() > 0 { seq![out] } else { Seq::empty() }
}

/// Whether `c` is a control character (general category Cc), as
/// `char::is_control` decides.
pub open spec fn control(c: char) -> bool {
    c <= '\u{1f}' || ('\u{7f}' <= c <= '\u{9f}')
}

/// Whether a key is text to type: it holds no control character.
pub open spec fn printable(key: Seq<char>) -> bool {
    forall|i: int| 0 <= i < key.len() ==> !control(#[trigger] key[i])
}

/// A key of the terminal, after the menu was reset (for all keys but Tab and Shift+Tab).
pub open spec fn key_t(m: ShellModel, key: Seq<char>) -> (ShellModel, Seq<Seq<char>>) {
    if key == "\x1B[A"@ {
        let (m2, o) = history_up_t(m);
        (m2, emitted(o))
    } else if key == "\x1B[B"@ {
        let (m2, o) = history_down_t(m);
        (m2, emitted(o))
    } else if key == "\x1B[C"@ {
        let (m2, o) = move_cursor_t(m, 1);
        (m2, emitted(o))
    } else if key == "\x1B[D"@ {
        let (m2, o) = move_cursor_t(m, -1);
        (m2, emitted(o))
    } else if key == "\r"@ {
        enter_t(m)
    } else if key == "\u{7f}"@ {
        let (m2, o) = backspace_t(m);
        (m2, emitted(o))
    } else if key == "\t"@ {
        let (m2, o) = tab_t(m, false);
        (m2, emitted(o))
    } else if key == "\x1B[Z"@ {
        let (m2, o) = tab_t(m, true);
        (m2, emitted(o))
    } else if printable(key) {
        let (m2, o) = insert_t(m, key);
        (m2, emitted(o))
    } else {
        (m, Seq::empty())
    }
}

/// What a key does to the shell and what the terminal is sent, in order.
pub open spec fn stdin_t(m: ShellModel, key: Seq<char>) -> (ShellModel, Seq<Seq<char>>) {
    if key != "\t"@ && key != "\x1B[Z"@ {
        let (m0, o) = reset_completion_t(m);
        let (m1, outs) = key_t(m0, key);
        (m1, emitted(o) + outs)
    } else {
        key_t(m, key)
    }
}

/// Whether a key can be handled without slicing a character or leaving the
/// range of the cursor arithmetic: where the line is read at the cursor or
/// at a token's ends, those must be character boundaries.
pub open spec fn key_ok(m: ShellModel, key: Seq<char>) -> bool {
    if key == "\x1B[C"@ || key == "\x1B[D"@ {
        byte_len(m.buffer) < i32::MAX
    } else if key == "\u{7f}"@ {
        m.pos == 0 || at_boundary(m)
    } else if key == "\t"@ {
        tab_ok(m, false)
    } else if key == "\x1B[Z"@ {
        tab_ok(m, true)
    } else if key == "\x1B[A"@ || key == "\x1B[B"@ || key == "\r"@ {
        true
    } else if printable(key) {
        at_boundary(m)
    } else {
        true
    }
}

/// Whether a key can be handled (see `key_ok`), the reset of the menu included.
pub open spec fn stdin_ok(m: ShellModel, key: Seq<char>) -> bool {
    if key != "\t"@ && key != "\x1B[Z"@ {
        (m.menu_lines != 0 ==> at_boundary(m)) && key_ok(reset_completion_t(m).0, key)
    } else {
        key_ok(m, key)
    }
}

} // verus!
