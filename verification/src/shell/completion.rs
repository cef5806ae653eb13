//! Tab completion: the token under the cursor, the candidates for it, and
//! the menu that cycles through them.
use vstd::prelude::*;
use vstd::utf8::{encode_utf8, is_char_boundary};
use crate::bins::{all_bins, bin_aliases, bin_complete, bin_name, bins, complete_path, find, find_from, Bin, Command};
use crate::consts::{ANSI_BOLD, ANSI_BRIGHT_RED, ANSI_RESET};
use crate::fs::{EntryModel, Filesystem};
use crate::order::{sort_dedup, sorted_set};
use crate::text::{
    after_byte, before_byte, byte_count, byte_len, byte_slice_exec, chars_of, decimal, decimal_string, is_prefix,
    lemma_byte_len_push, lemma_split_chars, owned, push_str, split_at_byte, starts_with, str_eq, string_from_chars,
    strings_view,
};
use super::editor::{completion_model, CompletionState, Shell};
use super::execution::{bin_exists, installed};
use super::lexer::{is_delimiter, is_whitespace, tokenize_shell, white_space, ShellOp, ShellToken, TokenModel, tokens_model, lex};
use super::model::{
    at_boundary, bounds_ok, byte_slice, clear_menu_t, command_list, complete_candidates, complete_ok, first_delimiter,
    installed_names, is_redirect, last_delimiter, menu_rows, menu_window, next_candidate_t, prefixed,
    prev_candidate_t, redraw, render_menu_t, replace_token_t, reset_completion_t, scan_tokens, tab_ok, tab_t,
    token_bounds, CompletionScan, ShellModel,
};
use super::parser::{completion_segment, segment_start};

verus! {

/// How many candidates the menu shows at most.
pub const MAX_COMPLETION_MENU_ITEMS: usize = 6;

fn is_delimiter_exec(c: char) -> (res: bool)
    ensures
        res == is_delimiter(c),
{
    is_whitespace(c) || c == ';' || c == '|' || c == '<' || c == '>' || c == '&'
}

proof fn lemma_byte_len_take(s: Seq<char>, k: int)
    requires
        0 <= k <= s.len(),
    ensures
        byte_len(s.take(k)) <= byte_len(s),
        k < s.len() ==> byte_len(s.take(k)) + 1 <= byte_len(s.take(k + 1)),
{
    lemma_split_chars(s.take(k), s.skip(k));
    assert(s.take(k) + s.skip(k) =~= s);
    if k < s.len() {
        lemma_byte_len_push(s.take(k), s[k]);
        assert(s.take(k).push(s[k]) =~= s.take(k + 1));
        vstd::utf8::char_is_scalar(s[k]);
    }
}

proof fn lemma_first_delimiter(s: Seq<char>, j: int)
    requires
        0 <= j <= s.len(),
        forall|i: int| 0 <= i < j ==> !is_delimiter(#[trigger] s[i]),
        j < s.len() ==> is_delimiter(s[j]),
    ensures
        first_delimiter(s) == if j < s.len() { Some(j) } else { None::<int> },
    decreases j,
{
    if j > 0 {
        let t = s.drop_first();
        assert forall|i: int| 0 <= i < j - 1 implies !is_delimiter(#[trigger] t[i]) by {
            assert(t[i] == s[i + 1]);
        }
        if j - 1 < t.len() {
            assert(t[j - 1] == s[j]);
        }
        lemma_first_delimiter(t, j - 1);
    } else if s.len() > 0 {
        assert(is_delimiter(s[0]));
    }
}

fn menu_rows_exec(cands: &Vec<String>, index: usize, start: usize, end: usize) -> (res: String)
    requires
        start <= end <= cands@.len(),
    ensures
        res@ == menu_rows(strings_view(cands@), index as int, start as int, end as int),
{
    let ghost cv = strings_view(cands@);
    let mut out = String::new();
    let mut i: usize = start;
    while i < end
        invariant
            start <= i <= end <= cands@.len(),
            cv == strings_view(cands@),
            out@ + menu_rows(cv, index as int, i as int, end as int) == menu_rows(cv, index as int, start as int, end as int),
        decreases end - i,
    {
        let ghost before = out@;
        assert(cands@[i as int]@ == cv[i as int]);
        push_str(&mut out, "\r\n\x1B[2K");
        if i == index {
            push_str(&mut out, ANSI_BOLD);
            push_str(&mut out, ANSI_BRIGHT_RED);
            push_str(&mut out, "> ");
            push_str(&mut out, cands[i].as_str());
            push_str(&mut out, ANSI_RESET);
        } else {
            push_str(&mut out, "  ");
            push_str(&mut out, cands[i].as_str());
        }
        assert(before + menu_rows(cv, index as int, i as int, end as int) =~= out@ + menu_rows(
            cv,
            index as int,
            i + 1,
            end as int,
        ));
        i = i + 1;
    }
    assert(out@ + Seq::<char>::empty() =~= out@);
    out
}

impl Shell {
    /// The byte offsets where the token under the cursor starts and ends.
    pub fn current_token_bounds(&self) -> (res: (usize, usize))
        requires
            self.at_boundary(),
        ensures
            (res.0 as int, res.1 as int) == token_bounds(self.buffer@, self.pos as int),
            res.0 <= self.pos <= res.1 <= byte_len(self.buffer@),
    {
        let total = byte_count(self.buffer.as_str());
        let (before, after) = split_at_byte(self.buffer.as_str(), self.pos);
        proof {
            lemma_split_chars(before@, after@);
        }
        let bv = chars_of(before.as_str());
        let mut k: usize = bv.len();
        assert(bv@.take(k as int) =~= before@);
        while k > 0 && !is_delimiter_exec(bv[k - 1])
            invariant
                k <= bv@.len(),
                bv@ == before@,
                last_delimiter(before@) == last_delimiter(bv@.take(k as int)),
            decreases k,
        {
            assert(bv@.take(k as int).drop_last() =~= bv@.take(k - 1));
            k = k - 1;
        }
        let start: usize = if k == 0 {
            0
        } else {
            assert(bv@.take(k as int).last() == bv@[k - 1]);
            let prefix = string_from_chars(&bv, 0, k - 1);
            assert(prefix@ =~= before@.take(k - 1));
            proof {
                lemma_byte_len_take(before@, k - 1);
                lemma_byte_len_take(before@, k as int);
            }
            byte_count(prefix.as_str()) + 1
        };
        let av = chars_of(after.as_str());
        let mut j: usize = 0;
        while j < av.len() && !is_delimiter_exec(av[j])
            invariant
                j <= av@.len(),
                av@ == after@,
                forall|i: int| 0 <= i < j ==> !is_delimiter(#[trigger] av@[i]),
            decreases av@.len() - j,
        {
            j = j + 1;
        }
        proof {
            lemma_first_delimiter(after@, j as int);
            lemma_byte_len_take(after@, j as int);
        }
        let rel_end = byte_count(string_from_chars(&av, 0, j).as_str());
        assert(av@.subrange(0, j as int) =~= after@.take(j as int));
        proof {
            if j == av.len() {
                assert(after@.take(j as int) =~= after@);
            }
        }
        (start, self.pos + rel_end)
    }

    /// The text of the token between two byte offsets.
    pub(crate) fn token_text(&self, start: usize, end: usize) -> (res: String)
        requires
            start <= end,
            is_char_boundary(encode_utf8(self.buffer@), start as int),
            is_char_boundary(encode_utf8(self.buffer@), end as int),
        ensures
            res@ == byte_slice(self.buffer@, start as int, end as int),
    {
        byte_slice_exec(self.buffer.as_str(), start, end)
    }

    /// Replaces the token under the cursor by `token`, puts the cursor
    /// after it, and redraws the line.
    pub fn replace_current_token(&mut self, token: &str) -> (res: String)
        requires
            old(self).wf(),
            bounds_ok(old(self).model()),
        ensures
            final(self).wf(),
            final(self).at_boundary(),
            (final(self).model(), res@) == replace_token_t(old(self).model(), token@),
    {
        let (start, end) = self.current_token_bounds();
        let (lead, _x) = split_at_byte(self.buffer.as_str(), start);
        let (_y, trail) = split_at_byte(self.buffer.as_str(), end);
        let mut nb = lead;
        push_str(&mut nb, token);
        proof {
            crate::text::lemma_encode_concat(lead@, token@);
        }
        let np = byte_count(nb.as_str());
        let ghost front = nb@;
        push_str(&mut nb, trail.as_str());
        proof {
            lemma_split_chars(front, trail@);
        }
        self.buffer = nb;
        self.pos = np;
        self.redraw_line()
    }

    /// Tab while cycling: selects the next candidate when the token under
    /// the cursor is still the selected one.
    pub fn next_completion_candidate(&mut self) -> (res: Option<String>)
        requires
            old(self).wf(),
            bounds_ok(old(self).model()),
        ensures
            final(self).wf(),
            ({
                let (m, c) = next_candidate_t(old(self).model());
                &&& final(self).model() == m
                &&& match c {
                    Some(t) => res matches Some(r) && r@ == t,
                    None => res is None,
                }
            }),
    {
        let (start, end) = self.current_token_bounds();
        let current = self.token_text(start, end);
        let st = match &mut self.completion_state {
            Some(st) => st,
            None => {
                return None;
            },
        };
        if st.start != start {
            return None;
        }
        if !str_eq(current.as_str(), st.candidates[st.index].as_str()) {
            return None;
        }
        let n = st.candidates.len();
        st.index = (st.index + 1) % n;
        Some(owned(st.candidates[st.index].as_str()))
    }

    /// Shift+Tab while cycling: selects the previous candidate when the token
    /// under the cursor is still the selected one.
    pub fn prev_completion_candidate(&mut self) -> (res: Option<String>)
        requires
            old(self).wf(),
            bounds_ok(old(self).model()),
        ensures
            final(self).wf(),
            ({
                let (m, c) = prev_candidate_t(old(self).model());
                &&& final(self).model() == m
                &&& match c {
                    Some(t) => res matches Some(r) && r@ == t,
                    None => res is None,
                }
            }),
    {
        let (start, end) = self.current_token_bounds();
        let current = self.token_text(start, end);
        let st = match &mut self.completion_state {
            Some(st) => st,
            None => {
                return None;
            },
        };
        if st.start != start {
            return None;
        }
        if !str_eq(current.as_str(), st.candidates[st.index].as_str()) {
            return None;
        }
        if st.index == 0 {
            st.index = st.candidates.len() - 1;
        } else {
            st.index = st.index - 1;
        }
        Some(owned(st.candidates[st.index].as_str()))
    }

    /// Erases the completion menu, when one is shown.
    pub fn clear_completion_menu(&mut self) -> (res: String)
        requires
            old(self).wf(),
            old(self).completion_menu_lines != 0 ==> old(self).at_boundary(),
        ensures
            final(self).wf(),
            (final(self).model(), res@) == clear_menu_t(old(self).model()),
    {
        if self.completion_menu_lines == 0 {
            return String::new();
        }
        self.completion_menu_lines = 0;
        self.completion_state = None;
        let mut out = self.redraw_line();
        push_str(&mut out, "\x1B[J");
        push_str(&mut out, self.redraw_line().as_str());
        out
    }

    /// Forgets the candidates and erases their menu.
    pub fn reset_completion(&mut self) -> (res: String)
        requires
            old(self).wf(),
            old(self).completion_menu_lines != 0 ==> old(self).at_boundary(),
        ensures
            final(self).wf(),
            (final(self).model(), res@) == reset_completion_t(old(self).model()),
    {
        self.completion_state = None;
        self.clear_completion_menu()
    }

    /// Draws the menu of candidates below the line, then the line again.
    #[verifier::rlimit(30)]
    pub fn render_completion_menu(&mut self) -> (res: String)
        requires
            old(self).wf(),
            old(self).at_boundary(),
        ensures
            final(self).wf(),
            final(self).at_boundary(),
            (final(self).model(), res@) == render_menu_t(old(self).model()),
    {
        let mut out = self.redraw_line();
        push_str(&mut out, "\x1B[J");
        let (total, index) = match &self.completion_state {
            None => {
                self.completion_menu_lines = 0;
                return out;
            },
            Some(state) => (state.candidates.len(), state.index),
        };
        if total == 0 {
            self.completion_menu_lines = 0;
            return out;
        }
        let visible = if total < MAX_COMPLETION_MENU_ITEMS { total } else { MAX_COMPLETION_MENU_ITEMS };
        let half = visible / 2;
        let mut start = if index >= half { index - half } else { 0 };
        let max_start = total - visible;
        if start > max_start {
            start = max_start;
        }
        let end = start + visible;
        assert((start as int, end as int) == menu_window(total as int, index as int));
        let summary = menu_summary(start, total - end);
        let rows = match &self.completion_state {
            Some(state) => menu_rows_exec(&state.candidates, index, start, end),
            None => String::new(),
        };
        let printed: usize = if start > 0 || total - end > 0 { 1 } else { 0 };
        let printed = printed + (end - start);
        self.completion_menu_lines = printed;
        push_str(&mut out, summary.as_str());
        push_str(&mut out, rows.as_str());
        if printed > 0 {
            push_str(&mut out, "\x1B[");
            push_str(&mut out, decimal_string(printed as u64).as_str());
            push_str(&mut out, "A\r");
        }
        push_str(&mut out, self.redraw_line().as_str());
        out
    }
}

/// The commands that complete `partial`: `cd`, and the installed commands
/// by name and alias, sorted and each once.
pub fn command_candidates(fs: &Filesystem, partial: &str) -> (res: Vec<String>)
    ensures
        strings_view(res@) == command_list(fs@, partial@),
{
    let mut out: Vec<String> = Vec::new();
    let ghost mut base: Seq<Seq<char>> = Seq::empty();
    if starts_with("cd", partial) {
        out.push(owned("cd"));
        proof {
            base = seq!["cd"@];
        }
    }
    assert(strings_view(out@) =~= base + installed_names(fs@, all_bins().take(0), partial@));
    let all = bins();
    let mut k: usize = 0;
    while k < all.len()
        invariant
            k <= all@.len(),
            all@ == all_bins(),
            base == (if is_prefix(partial@, "cd"@) { seq!["cd"@] } else { Seq::<Seq<char>>::empty() }),
            strings_view(out@) == base + installed_names(fs@, all_bins().take(k as int), partial@),
        decreases all@.len() - k,
    {
        let b = all[k];
        assert(all_bins().take(k + 1).drop_last() =~= all_bins().take(k as int));
        assert(all_bins().take(k + 1).last() == b);
        let name = b.name();
        if bin_exists(fs, name) {
            let ghost start = strings_view(out@);
            if starts_with(name, partial) {
                out.push(owned(name));
                assert(strings_view(out@) =~= start.push(name@));
            }
            let ghost mid = strings_view(out@);
            assert(mid == start + (if is_prefix(partial@, bin_name(b)) { seq![bin_name(b)] } else { Seq::<Seq<char>>::empty() }));
            let al = b.aliases();
            let mut j: usize = 0;
            assert(bin_aliases(b).take(0) =~= Seq::<Seq<char>>::empty());
            while j < al.len()
                invariant
                    j <= al@.len(),
                    al@.len() == bin_aliases(b).len(),
                    forall|i: int| 0 <= i < al@.len() ==> #[trigger] al@[i]@ == bin_aliases(b)[i],
                    strings_view(out@) == mid + prefixed(bin_aliases(b).take(j as int), partial@),
                decreases al@.len() - j,
            {
                assert(bin_aliases(b).take(j + 1).drop_last() =~= bin_aliases(b).take(j as int));
                assert(bin_aliases(b).take(j + 1).last() == al@[j as int]@);
                if starts_with(al[j], partial) {
                    let ghost before = strings_view(out@);
                    out.push(owned(al[j]));
                    assert(strings_view(out@) =~= before.push(al@[j as int]@));
                }
                j = j + 1;
            }
            assert(bin_aliases(b).take(al@.len() as int) =~= bin_aliases(b));
        }
        k = k + 1;
    }
    assert(all_bins().take(all@.len() as int) =~= all_bins());
    sort_dedup(out)
}

fn is_redirect_op(op: ShellOp) -> (res: bool)
    ensures
        res == is_redirect(op),
{
    match op {
        ShellOp::RedirectIn | ShellOp::RedirectOut | ShellOp::RedirectAppend | ShellOp::RedirectErrOut
        | ShellOp::RedirectErrAppend => true,
        _ => false,
    }
}

impl Shell {
    /// The candidates for the token under the cursor of `buffer` (the
    /// line), by what the line holds up to the cursor.
    pub fn handle_complete(&mut self, buffer: &str) -> (res: Vec<String>)
        requires
            is_char_boundary(encode_utf8(buffer@), old(self).pos as int),
            is_char_boundary(
                encode_utf8(before_byte(buffer@, old(self).pos as int)),
                segment_start(before_byte(buffer@, old(self).pos as int)),
            ),
        ensures
            strings_view(res@) == complete_candidates(old(self).ctx.model(), buffer@, old(self).pos as int),
            final(self).model() == old(self).model(),
            final(self).wf() == old(self).wf(),
    {
        let (before, _after) = split_at_byte(buffer, self.pos);
        let bv = chars_of(before.as_str());
        let ends_ws = bv.len() > 0 && is_whitespace(bv[bv.len() - 1]);
        let segment = completion_segment(before.as_str());
        let tokens = match tokenize_shell(segment.as_str()) {
            Ok(t) => t,
            Err(_) => {
                return Vec::new();
            },
        };
        let ghost tm = tokens_model(tokens@);
        let mut words: Vec<String> = Vec::new();
        let mut expecting = false;
        let mut target: Option<String> = None;
        let mut was_target = false;
        let mut k: usize = 0;
        assert(strings_view(words@) =~= Seq::<Seq<char>>::empty());
        while k < tokens.len()
            invariant
                k <= tokens@.len(),
                tm == tokens_model(tokens@),
                (CompletionScan {
                    words: strings_view(words@),
                    expecting,
                    target: super::editor::opt_string_view(target),
                    was_target,
                }) == scan_tokens(tm, k as int),
            decreases tokens@.len() - k,
        {
            assert(tm[k as int] == tokens@[k as int].model());
            match &tokens[k] {
                ShellToken::Word(w) => {
                    if expecting {
                        target = Some(owned(w.as_str()));
                        expecting = false;
                        was_target = true;
                    } else {
                        let ghost before_words = strings_view(words@);
                        words.push(owned(w.as_str()));
                        assert(strings_view(words@) =~= before_words.push(w@));
                        was_target = false;
                    }
                },
                ShellToken::Op(op) => {
                    if is_redirect_op(*op) {
                        expecting = true;
                        target = Some(String::new());
                        was_target = false;
                    } else {
                        words = Vec::new();
                        assert(strings_view(words@) =~= Seq::<Seq<char>>::empty());
                        expecting = false;
                        target = None;
                        was_target = false;
                    }
                },
            }
            k = k + 1;
        }
        if expecting || (was_target && !ends_ws) {
            let partial = match target {
                Some(t) => t,
                None => String::new(),
            };
            let args = vec![partial];
            assert(strings_view(args@) =~= seq![args@[0]@]);
            return complete_path(&self.ctx, args.as_slice(), 0, false);
        }
        if words.len() == 0 {
            proof {
                reveal_strlit("");
            }
            assert(""@ =~= Seq::<char>::empty());
            return command_candidates(&self.ctx.fs, "");
        }
        if words.len() == 1 && !ends_ws {
            return command_candidates(&self.ctx.fs, words[0].as_str());
        }
        let ghost wv = strings_view(words@);
        let mut params: Vec<String> = Vec::new();
        let mut j: usize = 1;
        while j < words.len()
            invariant
                1 <= j <= words@.len(),
                wv == strings_view(words@),
                strings_view(params@) == wv.subrange(1, j as int),
            decreases words@.len() - j,
        {
            let ghost before_params = strings_view(params@);
            params.push(owned(words[j].as_str()));
            assert(strings_view(params@) =~= before_params.push(wv[j as int]));
            assert(wv.subrange(1, j + 1) =~= wv.subrange(1, j as int).push(wv[j as int]));
            j = j + 1;
        }
        assert(wv.subrange(1, wv.len() as int) =~= wv.drop_first());
        let command = words[0].as_str();
        assert(wv[0] == command@);
        if str_eq(command, "cd") {
            return complete_path(&self.ctx, params.as_slice(), 0, true);
        }
        match find(command) {
            Some(bin) => {
                if bin_exists(&self.ctx.fs, bin.name()) {
                    let cands = bin.complete(&mut self.ctx, params.as_slice(), self.pos);
                    sort_dedup(cands)
                } else {
                    Vec::new()
                }
            },
            None => Vec::new(),
        }
    }

    /// Tab (Shift+Tab with `reverse`): cycles through the menu being shown,
    /// or computes the candidates: one is completed in place, several start
    /// a menu at the first (or last).
    pub fn handle_tab_dir(&mut self, reverse: bool) -> (res: String)
        requires
            old(self).wf(),
            tab_ok(old(self).model(), reverse),
        ensures
            final(self).wf(),
            (final(self).model(), res@) == tab_t(old(self).model(), reverse),
    {
        let cycled = if reverse {
            self.prev_completion_candidate()
        } else {
            self.next_completion_candidate()
        };
        match cycled {
            Some(next) => {
                let mut out = self.replace_current_token(next.as_str());
                let menu = self.render_completion_menu();
                push_str(&mut out, menu.as_str());
                return out;
            },
            None => {},
        }
        let buf = owned(self.buffer.as_str());
        let found = self.handle_complete(buf.as_str());
        let candidates = sort_dedup(found);
        if candidates.len() == 0 {
            self.completion_state = None;
            return self.clear_completion_menu();
        }
        if candidates.len() == 1 {
            self.completion_state = None;
            let mut out = self.replace_current_token(candidates[0].as_str());
            let menu = self.clear_completion_menu();
            push_str(&mut out, menu.as_str());
            return out;
        }
        let (start, _end) = self.current_token_bounds();
        let index = if reverse { candidates.len() - 1 } else { 0 };
        let selected = owned(candidates[index].as_str());
        self.completion_state = Some(CompletionState { start, candidates, index });
        let mut out = self.replace_current_token(selected.as_str());
        let menu = self.render_completion_menu();
        push_str(&mut out, menu.as_str());
        out
    }
}

fn menu_summary(above: usize, below: usize) -> (res: String)
    ensures
        res@ == if above > 0 || below > 0 {
            "\r\n\x1B[2K"@ + "  … "@ + decimal(above as nat) + " above, "@ + decimal(below as nat) + " below"@
        } else {
            Seq::empty()
        },
{
    if above > 0 || below > 0 {
        let mut out = owned("\r\n\x1B[2K");
        push_str(&mut out, "  … ");
        push_str(&mut out, decimal_string(above as u64).as_str());
        push_str(&mut out, " above, ");
        push_str(&mut out, decimal_string(below as u64).as_str());
        push_str(&mut out, " below");
        out
    } else {
        String::new()
    }
}

} // verus!
