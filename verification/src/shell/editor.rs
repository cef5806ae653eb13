//! The shell's line editor: the prompt, the cursor, deleting, and walking
//! through the history. Positions in the line are byte offsets.
use vstd::prelude::*;
use vstd::utf8::{encode_utf8, is_char_boundary};
use crate::bins::{CommandContext, ProcessEntry};
use crate::consts::{ANSI_RED, ANSI_RESET};
use crate::fs::Filesystem;
use crate::text::{
    after_byte, before_byte, byte_count, byte_len, chars_of, decimal, decimal_string, owned, push_str, split_at_byte,
    str_eq, string_from_chars, strings_view,
};
use super::execution::home;
use super::parser::segment_start_exec;
use super::model::{
    backspace_t, control, emitted, enter_t, history_down_t, history_up_t, insert_t, key_t, move_cursor_t, printable,
    prompt_text, redraw, stdin_ok, stdin_t, update_line_t, CompletionModel, ShellModel,
};

verus! {

/// The candidates being cycled through by Tab, where the token they replace starts.
pub struct CompletionState {
    pub start: usize,
    pub candidates: Vec<String>,
    pub index: usize,
}

/// An interactive shell: what its commands work on, the line being edited
/// with its cursor (a byte offset), the completion menu, and the history.
pub struct Shell {
    pub ctx: CommandContext,
    pub buffer: String,
    pub pos: usize,
    pub completion_state: Option<CompletionState>,
    pub completion_menu_lines: usize,
    pub history: Vec<String>,
    pub history_pos: Option<usize>,
    pub temp_buffer: Option<String>,
}

/// The characters of an optional string.
pub open spec fn opt_string_view(o: Option<String>) -> Option<Seq<char>> {
    match o {
        Some(s) => Some(s@),
        None => None,
    }
}

/// The model of the candidates being cycled through.
pub open spec fn completion_model(o: Option<CompletionState>) -> Option<CompletionModel> {
    match o {
        Some(st) => Some(
            CompletionModel { start: st.start as int, candidates: strings_view(st.candidates@), index: st.index as int },
        ),
        None => None,
    }
}

impl Shell {
    pub open spec fn model(&self) -> ShellModel {
        ShellModel {
            ctx: self.ctx.model(),
            buffer: self.buffer@,
            pos: self.pos as int,
            state: completion_model(self.completion_state),
            menu_lines: self.completion_menu_lines as int,
            history: strings_view(self.history@),
            history_pos: match self.history_pos {
                Some(i) => Some(i as int),
                None => None,
            },
            temp: opt_string_view(self.temp_buffer),
        }
    }

    /// The history position is within the history.
    pub open spec fn history_ok(&self) -> bool {
        self.history_pos matches Some(i) ==> i < self.history@.len()
    }

    /// The cursor stays within the line, the history position within the
    /// history, and the selected candidate within the candidates.
    pub open spec fn wf(&self) -> bool {
        &&& self.pos <= byte_len(self.buffer@)
        &&& self.history_ok()
        &&& self.completion_state matches Some(st) ==> st.index < st.candidates@.len()
    }

    /// Whether the cursor stands at the start of a character or at the end.
    pub open spec fn at_boundary(&self) -> bool {
        is_char_boundary(encode_utf8(self.buffer@), self.pos as int)
    }

    /// A shell at home, with an empty line and no history.
    pub fn new(fs: Filesystem, processes: Vec<ProcessEntry>) -> (res: Shell)
        ensures
            res.wf(),
            res.ctx.pwd@ == home(),
            res.ctx.fs@ == fs@,
            res.ctx.processes@ == processes@,
            res.ctx.killed@.len() == 0,
            res.buffer@.len() == 0,
            res.pos == 0,
            res.history@.len() == 0,
            res.history_pos is None,
            res.temp_buffer is None,
            res.completion_state is None,
            res.completion_menu_lines == 0,
    {
        Shell {
            ctx: CommandContext { pwd: owned("/home/inparsian"), fs, processes, killed: Vec::new() },
            buffer: String::new(),
            pos: 0,
            completion_state: None,
            completion_menu_lines: 0,
            history: Vec::new(),
            history_pos: None,
            temp_buffer: None,
        }
    }

    /// The prompt: the working directory (`~` at home), then a red `›`.
    pub fn prompt(&self) -> (res: String)
        ensures
            res@ == prompt_text(self.ctx.pwd@),
    {
        let mut out = if str_eq(self.ctx.pwd.as_str(), "/home/inparsian") {
            owned("~")
        } else {
            owned(self.ctx.pwd.as_str())
        };
        push_str(&mut out, " ");
        push_str(&mut out, ANSI_RED);
        push_str(&mut out, "›");
        push_str(&mut out, ANSI_RESET);
        push_str(&mut out, " ");
        out
    }

    /// Moves the cursor by `delta` bytes, kept within the line; the terminal
    /// is told to move when the cursor moved.
    pub fn move_cursor(&mut self, delta: i32) -> (res: String)
        requires
            old(self).wf(),
            byte_len(old(self).buffer@) <= i32::MAX,
            i32::MIN <= old(self).pos + delta <= i32::MAX,
        ensures
            final(self).wf(),
            (final(self).model(), res@) == move_cursor_t(old(self).model(), delta as int),
    {
        let len = byte_count(self.buffer.as_str());
        let target: i64 = self.pos as i64 + delta as i64;
        let new_pos: usize = if target < 0 {
            0
        } else if target > len as i64 {
            len
        } else {
            target as usize
        };
        if new_pos != self.pos {
            self.pos = new_pos;
            if delta > 0 {
                owned("\x1B[C")
            } else {
                owned("\x1B[D")
            }
        } else {
            String::new()
        }
    }

    /// Deletes the character before the cursor.
    pub fn backspace(&mut self) -> (res: String)
        requires
            old(self).wf(),
            old(self).pos == 0 || old(self).at_boundary(),
        ensures
            final(self).wf(),
            (final(self).model(), res@) == backspace_t(old(self).model()),
    {
        if self.pos == 0 {
            return String::new();
        }
        let (head, rest) = split_at_byte(self.buffer.as_str(), self.pos);
        let hv = chars_of(head.as_str());
        proof {
            if hv@.len() == 0 {
                assert(encode_utf8(hv@) =~= Seq::<u8>::empty());
            }
        }
        let kept = string_from_chars(&hv, 0, hv.len() - 1);
        assert(kept@ =~= before_byte(old(self).buffer@, old(self).pos as int).drop_last());
        let new_pos = byte_count(kept.as_str());
        let mut buffer = kept;
        push_str(&mut buffer, rest.as_str());
        proof {
            crate::text::lemma_split_chars(kept@, rest@);
        }
        self.buffer = buffer;
        self.pos = new_pos;
        let count = chars_of(rest.as_str()).len();
        if count == 0 {
            owned("\x1B[D\x1B[K")
        } else {
            let mut out = owned("\x1B[D\x1B[K");
            push_str(&mut out, rest.as_str());
            push_str(&mut out, "\x1B[");
            let digits = decimal_string(count as u64);
            push_str(&mut out, digits.as_str());
            push_str(&mut out, "D");
            assert(out@ =~= "\x1B[D\x1B[K"@ + rest@ + "\x1B["@ + decimal(rest@.len()) + "D"@);
            out
        }
    }

    /// Shows the history entry that `history_pos` selects (if any) as the
    /// line, with the cursor at its end.
    pub fn update_line_from_history(&mut self) -> (res: String)
        requires
            old(self).history_ok(),
            old(self).completion_state matches Some(st) ==> st.index < st.candidates@.len(),
        ensures
            final(self).wf(),
            (final(self).model(), res@) == update_line_t(old(self).model()),
    {
        match self.history_pos {
            Some(idx) => {
                self.buffer = owned(self.history[idx].as_str());
            },
            None => {},
        }
        self.pos = byte_count(self.buffer.as_str());
        let mut out = owned("\r");
        push_str(&mut out, self.prompt().as_str());
        push_str(&mut out, self.buffer.as_str());
        push_str(&mut out, "\x1B[K");
        out
    }

    /// Up: the previous history entry; from the newest when not browsing
    /// (or at the oldest), keeping the line being typed aside.
    pub fn history_up(&mut self) -> (res: String)
        requires
            old(self).wf(),
        ensures
            final(self).wf(),
            (final(self).model(), res@) == history_up_t(old(self).model()),
    {
        if self.history.len() == 0 {
            return String::new();
        }
        match self.history_pos {
            Some(idx) if idx > 0 => {
                self.history_pos = Some(idx - 1);
            },
            _ => {
                self.temp_buffer = Some(owned(self.buffer.as_str()));
                self.history_pos = Some(self.history.len() - 1);
            },
        }
        self.update_line_from_history()
    }

    /// Down: the next history entry; past the newest, back to the line that
    /// was being typed.
    pub fn history_down(&mut self) -> (res: String)
        requires
            old(self).wf(),
        ensures
            final(self).wf(),
            (final(self).model(), res@) == history_down_t(old(self).model()),
    {
        let idx = match self.history_pos {
            Some(i) => i,
            None => {
                return String::new();
            },
        };
        let n = self.history.len();
        if idx + 1 >= n {
            self.history_pos = None;
            self.buffer = match &self.temp_buffer {
                Some(t) => owned(t.as_str()),
                None => String::new(),
            };
            self.temp_buffer = None;
        } else {
            self.history_pos = Some(idx + 1);
        }
        self.update_line_from_history()
    }

    /// Redraws the whole line and puts the cursor back where it was.
    pub fn redraw_line(&self) -> (res: String)
        requires
            self.at_boundary(),
        ensures
            res@ == redraw(self.model()),
    {
        let mut out = owned("\r");
        push_str(&mut out, self.prompt().as_str());
        push_str(&mut out, self.buffer.as_str());
        push_str(&mut out, "\x1B[K");
        let (_head, tail) = split_at_byte(self.buffer.as_str(), self.pos);
        let tail_chars = chars_of(tail.as_str()).len();
        if tail_chars > 0 {
            push_str(&mut out, "\x1B[");
            push_str(&mut out, decimal_string(tail_chars as u64).as_str());
            push_str(&mut out, "D");
        }
        out
    }
}

/// Whether `c` is a control character (see `control`).
pub fn is_control(c: char) -> (res: bool)
    ensures
        res == control(c),
{
    c <= '\u{1f}' || ('\u{7f}' <= c && c <= '\u{9f}')
}

fn is_printable(key: &str) -> (res: bool)
    ensures
        res == printable(key@),
{
    let v = chars_of(key);
    let mut i: usize = 0;
    while i < v.len()
        invariant
            i <= v@.len(),
            v@ == key@,
            forall|j: int| 0 <= j < i ==> !control(#[trigger] v@[j]),
        decreases v@.len() - i,
    {
        if is_control(v[i]) {
            return false;
        }
        i = i + 1;
    }
    true
}

fn emit(outs: &mut Vec<String>, out: String)
    ensures
        strings_view(final(outs)@) == strings_view(old(outs)@) + emitted(out@),
{
    let ghost before = strings_view(outs@);
    if out.as_str().is_empty() {
        assert(strings_view(outs@) =~= before + emitted(out@));
    } else {
        outs.push(out);
        assert(strings_view(outs@) =~= before + emitted(out@));
    }
}

/// Tab and Shift+Tab are none of the keys that `key_ok` tests before them.
proof fn lemma_tab_keys()
    ensures
        "\t"@ != "\x1B[C"@ && "\t"@ != "\x1B[D"@ && "\t"@ != "\u{7f}"@,
        "\x1B[Z"@ != "\x1B[C"@ && "\x1B[Z"@ != "\x1B[D"@ && "\x1B[Z"@ != "\u{7f}"@ && "\x1B[Z"@ != "\t"@,
{
    reveal_strlit("\t");
    reveal_strlit("\x1B[Z");
    reveal_strlit("\x1B[C");
    reveal_strlit("\x1B[D");
    reveal_strlit("\u{7f}");
    assert("\t"@.len() == 1 && "\u{7f}"@.len() == 1 && "\x1B[Z"@.len() == 3);
    assert("\x1B[C"@.len() == 3 && "\x1B[D"@.len() == 3);
    assert("\t"@[0] != "\u{7f}"@[0]);
    assert("\x1B[Z"@[2] != "\x1B[C"@[2] && "\x1B[Z"@[2] != "\x1B[D"@[2]);
}

impl Shell {
    /// Runs a command line in this shell's context and hands back what the
    /// terminal shows.
    pub fn handle_cmd(&mut self, cmd: &str) -> (res: String)
        ensures
            res@ == super::execution::line_outcome(old(self).ctx.model(), cmd@).0.output
                + super::execution::line_outcome(old(self).ctx.model(), cmd@).0.error,
            final(self).ctx.model() == super::execution::line_outcome(old(self).ctx.model(), cmd@).1,
            final(self).buffer == old(self).buffer,
            final(self).pos == old(self).pos,
            final(self).history == old(self).history,
            final(self).history_pos == old(self).history_pos,
            final(self).temp_buffer == old(self).temp_buffer,
            final(self).completion_state == old(self).completion_state,
            final(self).completion_menu_lines == old(self).completion_menu_lines,
    {
        super::execution::handle_cmd(&mut self.ctx, cmd)
    }

    /// Types `key` at the cursor.
    fn insert_text(&mut self, key: &str) -> (res: String)
        requires
            old(self).wf(),
            old(self).at_boundary(),
        ensures
            final(self).wf(),
            (final(self).model(), res@) == insert_t(old(self).model(), key@),
    {
        let (lead, rest) = split_at_byte(self.buffer.as_str(), self.pos);
        let mut nb = lead;
        push_str(&mut nb, key);
        proof {
            crate::text::lemma_encode_concat(lead@, key@);
        }
        let np = byte_count(nb.as_str());
        let ghost front = nb@;
        push_str(&mut nb, rest.as_str());
        proof {
            crate::text::lemma_split_chars(front, rest@);
        }
        self.buffer = nb;
        self.pos = np;
        let mut output = owned(key);
        push_str(&mut output, "\x1B[K");
        push_str(&mut output, rest.as_str());
        let shift = byte_count(rest.as_str());
        if shift > 0 {
            push_str(&mut output, "\x1B[");
            push_str(&mut output, decimal_string(shift as u64).as_str());
            push_str(&mut output, "D");
        }
        output
    }

    /// Enter: the line joins the history (when not empty) and runs, and the
    /// line is cleared.
    fn enter(&mut self, outs: &mut Vec<String>)
        requires
            old(self).wf(),
        ensures
            final(self).wf(),
            ({
                let (m, sent) = enter_t(old(self).model());
                &&& final(self).model() == m
                &&& strings_view(final(outs)@) == strings_view(old(outs)@) + sent
            }),
    {
        let cmd = owned(self.buffer.as_str());
        if !cmd.as_str().is_empty() {
            let ghost before = strings_view(self.history@);
            self.history.push(owned(cmd.as_str()));
            assert(strings_view(self.history@) =~= before.push(cmd@));
        }
        self.history_pos = None;
        self.buffer = String::new();
        self.pos = 0;
        let ghost start = strings_view(outs@);
        emit(outs, owned("\r\n"));
        let out = self.handle_cmd(cmd.as_str());
        emit(outs, out);
        let prompt = self.prompt();
        emit(outs, prompt);
        proof {
            assert(emitted("\r\n"@) =~= seq!["\r\n"@]) by {
                reveal_strlit("\r\n");
            }
            assert(prompt@.len() > 0) by {
                reveal_strlit(" ");
            }
            assert(emitted(prompt@) =~= seq![prompt@]);
            assert(strings_view(outs@) =~= start + (seq!["\r\n"@] + emitted(out@) + seq![prompt@]));
        }
    }

    /// Whether `key` can be handled now: the cursor, the token under it and
    /// the start of the command being typed fall on character boundaries
    /// wherever handling the key cuts the line.
    pub fn accepts(&self, key: &str) -> (res: bool)
        requires
            self.wf(),
        ensures
            res == stdin_ok(self.model(), key@),
    {
        let text = self.buffer.as_str();
        let at_cursor = text.is_char_boundary(self.pos);
        let tab = str_eq(key, "\t");
        let back_tab = str_eq(key, "\x1B[Z");
        if tab || back_tab {
            proof {
                lemma_tab_keys();
            }
            if !at_cursor {
                return false;
            }
            let (start, end) = self.current_token_bounds();
            if !text.is_char_boundary(start) || !text.is_char_boundary(end) {
                return false;
            }
            let cycles = match &self.completion_state {
                Some(st) => st.start == start && str_eq(
                    self.token_text(start, end).as_str(),
                    st.candidates[st.index].as_str(),
                ),
                None => false,
            };
            if cycles {
                return true;
            }
            let (before, _after) = split_at_byte(text, self.pos);
            let seg = segment_start_exec(before.as_str());
            return before.as_str().is_char_boundary(seg);
        }
        if self.completion_menu_lines != 0 && !at_cursor {
            return false;
        }
        if str_eq(key, "\x1B[C") || str_eq(key, "\x1B[D") {
            byte_count(text) < 2147483647
        } else if str_eq(key, "\u{7f}") {
            self.pos == 0 || at_cursor
        } else if str_eq(key, "\x1B[A") || str_eq(key, "\x1B[B") || str_eq(key, "\r") {
            true
        } else if is_printable(key) {
            at_cursor
        } else {
            true
        }
    }

    /// Handles a key typed in the terminal and gives what the terminal is
    /// sent, in order (nothing empty is sent).
    pub fn handle_stdin(&mut self, key: &str) -> (res: Vec<String>)
        requires
            old(self).wf(),
            stdin_ok(old(self).model(), key@),
        ensures
            final(self).wf(),
            (final(self).model(), strings_view(res@)) == stdin_t(old(self).model(), key@),
    {
        let mut outs: Vec<String> = Vec::new();
        assert(strings_view(outs@) =~= Seq::<Seq<char>>::empty());
        if !(str_eq(key, "\t") || str_eq(key, "\x1B[Z")) {
            let o = self.reset_completion();
            emit(&mut outs, o);
        }
        let ghost m0 = self.model();
        let ghost e0 = strings_view(outs@);
        if str_eq(key, "\x1B[A") {
            let o = self.history_up();
            emit(&mut outs, o);
        } else if str_eq(key, "\x1B[B") {
            let o = self.history_down();
            emit(&mut outs, o);
        } else if str_eq(key, "\x1B[C") {
            let o = self.move_cursor(1);
            emit(&mut outs, o);
        } else if str_eq(key, "\x1B[D") {
            let o = self.move_cursor(-1);
            emit(&mut outs, o);
        } else if str_eq(key, "\r") {
            self.enter(&mut outs);
        } else if str_eq(key, "\u{7f}") {
            let o = self.backspace();
            emit(&mut outs, o);
        } else if str_eq(key, "\t") {
            let o = self.handle_tab_dir(false);
            emit(&mut outs, o);
        } else if str_eq(key, "\x1B[Z") {
            let o = self.handle_tab_dir(true);
            emit(&mut outs, o);
        } else if is_printable(key) {
            let o = self.insert_text(key);
            emit(&mut outs, o);
        }
        proof {
            assert(strings_view(outs@) =~= e0 + key_t(m0, key@).1);
        }
        outs
    }
}

} // verus!
