//! Splitting a command line into words and operators.
use vstd::prelude::*;
use crate::text::{chars_of, owned, push_char};

verus! {

/// An operator of the command language.
#[derive(Clone, Copy, Debug, PartialEq, Eq, Structural)]
pub enum ShellOp {
    AndIf,
    OrIf,
    Sequence,
    Pipe,
    RedirectIn,
    RedirectOut,
    RedirectAppend,
    RedirectErrOut,
    RedirectErrAppend,
}

/// A word or an operator of a command line.
#[derive(Clone, Debug)]
pub enum ShellToken {
    Word(String),
    Op(ShellOp),
}

/// The model of a token: the characters of a word, or an operator.
pub enum TokenModel {
    Word(Seq<char>),
    Op(ShellOp),
}

impl ShellToken {
    pub open spec fn model(self) -> TokenModel {
        match self {
            ShellToken::Word(w) => TokenModel::Word(w@),
            ShellToken::Op(o) => TokenModel::Op(o),
        }
    }
}

pub open spec fn tokens_model(v: Seq<ShellToken>) -> Seq<TokenModel> {
    Seq::new(v.len(), |i: int| v[i].model())
}

/// Whether `c` has the Unicode `White_Space` property, which is what
/// `char::is_whitespace` decides: tab to carriage return, space, next line,
/// no-break space, ogham space, the spaces from en quad to hair space, the
/// line and paragraph separators, narrow no-break space, medium mathematical
/// space and ideographic space.
pub open spec fn white_space(c: char) -> bool {
    ||| '\t' <= c <= '\r'
    ||| c == ' '
    ||| c == '\u{85}'
    ||| c == '\u{a0}'
    ||| c == '\u{1680}'
    ||| '\u{2000}' <= c <= '\u{200a}'
    ||| c == '\u{2028}'
    ||| c == '\u{2029}'
    ||| c == '\u{202f}'
    ||| c == '\u{205f}'
    ||| c == '\u{3000}'
}

/// Whether `c` is white space (see `white_space`).
pub fn is_whitespace(c: char) -> (res: bool)
    ensures
        res == white_space(c),
{
    ('\t' <= c && c <= '\r') || c == ' ' || c == '\u{85}' || c == '\u{a0}' || c == '\u{1680}' || ('\u{2000}' <= c
        && c <= '\u{200a}') || c == '\u{2028}' || c == '\u{2029}' || c == '\u{202f}' || c == '\u{205f}' || c
        == '\u{3000}'
}

/// The characters that end a word.
pub open spec fn is_delimiter(c: char) -> bool {
    white_space(c) || c == ';' || c == '|' || c == '<' || c == '>' || c == '&'
}

/// Why a command line cannot be split into tokens.
#[derive(Clone, Copy, Debug, PartialEq, Eq, Structural)]
pub enum LexError {
    /// A single `&`, which the language has no use for.
    StrayAmpersand,
    /// A quote left open, or a backslash at the very end.
    Unfinished,
}

/// Reads a word from position `i`: single quotes keep everything up to the
/// next single quote, double quotes keep everything but honour backslash
/// escapes, and outside quotes a backslash keeps the next character and the
/// word ends at white space or at one of `; | < > &`. Gives the word, where
/// reading stopped, and whether a quote or escape was left unfinished.
pub open spec fn scan_word(chars: Seq<char>, i: int, word: Seq<char>, single: bool, double: bool, escape: bool) -> (Seq<char>, int, bool)
    decreases chars.len() - i,
{
    if i < 0 || i >= chars.len() {
        (word, i, escape || single || double)
    } else {
        let c = chars[i];
        if escape {
            scan_word(chars, i + 1, word.push(c), single, double, false)
        } else if single {
            if c == '\'' {
                scan_word(chars, i + 1, word, false, double, false)
            } else {
                scan_word(chars, i + 1, word.push(c), single, double, false)
            }
        } else if double {
            if c == '\\' {
                scan_word(chars, i + 1, word, single, double, true)
            } else if c == '"' {
                scan_word(chars, i + 1, word, single, false, false)
            } else {
                scan_word(chars, i + 1, word.push(c), single, double, false)
            }
        } else if c == '\\' {
            scan_word(chars, i + 1, word, false, false, true)
        } else if c == '\'' {
            scan_word(chars, i + 1, word, true, false, false)
        } else if c == '"' {
            scan_word(chars, i + 1, word, false, true, false)
        } else if is_delimiter(c) {
            (word, i, false)
        } else {
            scan_word(chars, i + 1, word.push(c), false, false, false)
        }
    }
}

/// The two-character operators.
pub open spec fn pair_op(a: char, b: char) -> Option<ShellOp> {
    if a == '&' && b == '&' {
        Some(ShellOp::AndIf)
    } else if a == '|' && b == '|' {
        Some(ShellOp::OrIf)
    } else if a == '>' && b == '>' {
        Some(ShellOp::RedirectAppend)
    } else if a == '2' && b == '>' {
        Some(ShellOp::RedirectErrOut)
    } else {
        None
    }
}

/// The one-character operators.
pub open spec fn single_op(c: char) -> Option<ShellOp> {
    if c == ';' {
        Some(ShellOp::Sequence)
    } else if c == '|' {
        Some(ShellOp::Pipe)
    } else if c == '<' {
        Some(ShellOp::RedirectIn)
    } else if c == '>' {
        Some(ShellOp::RedirectOut)
    } else {
        None
    }
}

/// The tokens of `chars` from position `i` on, after the tokens `acc`.
/// White space separates tokens; `2>>` and then the two-character operators
/// are tried before the one-character ones; a word that reads as empty
/// (such as `''`) gives no token.
pub open spec fn lex_from(chars: Seq<char>, i: int, acc: Seq<TokenModel>) -> Result<Seq<TokenModel>, LexError>
    decreases chars.len() - i,
{
    if i < 0 || i >= chars.len() {
        Ok(acc)
    } else {
        let c = chars[i];
        if white_space(c) {
            lex_from(chars, i + 1, acc)
        } else if i + 2 < chars.len() && c == '2' && chars[i + 1] == '>' && chars[i + 2] == '>' {
            lex_from(chars, i + 3, acc.push(TokenModel::Op(ShellOp::RedirectErrAppend)))
        } else if i + 1 < chars.len() && pair_op(c, chars[i + 1]) is Some {
            lex_from(chars, i + 2, acc.push(TokenModel::Op(pair_op(c, chars[i + 1])->0)))
        } else if single_op(c) is Some {
            lex_from(chars, i + 1, acc.push(TokenModel::Op(single_op(c)->0)))
        } else if c == '&' {
            Err(LexError::StrayAmpersand)
        } else {
            let (w, j, unfinished) = scan_word(chars, i, Seq::empty(), false, false, false);
            if unfinished {
                Err(LexError::Unfinished)
            } else if i < j <= chars.len() {
                lex_from(chars, j, if w.len() > 0 { acc.push(TokenModel::Word(w)) } else { acc })
            } else {
                Ok(acc)
            }
        }
    }
}

/// The tokens of a command line.
pub open spec fn lex(line: Seq<char>) -> Result<Seq<TokenModel>, LexError> {
    lex_from(line, 0, Seq::empty())
}

/// The message that a lexing error is reported with.
pub open spec fn lex_message(e: LexError) -> Seq<char> {
    match e {
        LexError::StrayAmpersand => "syntax error near unexpected token '&'"@,
        LexError::Unfinished => "Invalid quotes or escape sequence"@,
    }
}

proof fn lemma_scan_word_advances(chars: Seq<char>, i: int, word: Seq<char>, single: bool, double: bool, escape: bool)
    ensures
        ({
            let (w, j, u) = scan_word(chars, i, word, single, double, escape);
            &&& (0 <= i <= chars.len() ==> i <= j <= chars.len())
            &&& (0 <= i < chars.len() && (escape || single || double || !is_delimiter(chars[i]))
                ==> j > i)
        }),
    decreases chars.len() - i,
{
    if 0 <= i < chars.len() {
        let c = chars[i];
        if escape {
            lemma_scan_word_advances(chars, i + 1, word.push(c), single, double, false);
        } else if single {
            lemma_scan_word_advances(chars, i + 1, word, false, double, false);
            lemma_scan_word_advances(chars, i + 1, word.push(c), single, double, false);
        } else if double {
            lemma_scan_word_advances(chars, i + 1, word, single, double, true);
            lemma_scan_word_advances(chars, i + 1, word, single, false, false);
            lemma_scan_word_advances(chars, i + 1, word.push(c), single, double, false);
        } else {
            lemma_scan_word_advances(chars, i + 1, word, false, false, true);
            lemma_scan_word_advances(chars, i + 1, word, true, false, false);
            lemma_scan_word_advances(chars, i + 1, word, false, true, false);
            lemma_scan_word_advances(chars, i + 1, word.push(c), false, false, false);
        }
    }
}

fn single_op_exec(c: char) -> (res: Option<ShellOp>)
    ensures
        res == single_op(c),
{
    if c == ';' {
        Some(ShellOp::Sequence)
    } else if c == '|' {
        Some(ShellOp::Pipe)
    } else if c == '<' {
        Some(ShellOp::RedirectIn)
    } else if c == '>' {
        Some(ShellOp::RedirectOut)
    } else {
        None
    }
}

fn pair_op_exec(a: char, b: char) -> (res: Option<ShellOp>)
    ensures
        res == pair_op(a, b),
{
    if a == '&' && b == '&' {
        Some(ShellOp::AndIf)
    } else if a == '|' && b == '|' {
        Some(ShellOp::OrIf)
    } else if a == '>' && b == '>' {
        Some(ShellOp::RedirectAppend)
    } else if a == '2' && b == '>' {
        Some(ShellOp::RedirectErrOut)
    } else {
        None
    }
}

/// Splits a command line into words and operators (see `lex_from`).
pub fn tokenize_shell(input: &str) -> (res: Result<Vec<ShellToken>, String>)
    ensures
        match lex(input@) {
            Ok(t) => res is Ok && tokens_model(res->Ok_0@) == t,
            Err(e) => res is Err && res->Err_0@ == lex_message(e),
        },
{
    let chars = chars_of(input);
    let mut tokens: Vec<ShellToken> = Vec::new();
    let mut i: usize = 0;
    assert(tokens_model(tokens@) =~= Seq::<TokenModel>::empty());
    while i < chars.len()
        invariant
            chars@ == input@,
            i <= chars@.len(),
            lex(input@) == lex_from(chars@, i as int, tokens_model(tokens@)),
        decreases chars@.len() - i,
    {
        let ghost acc = tokens_model(tokens@);
        let ch = chars[i];
        if is_whitespace(ch) {
            i = i + 1;
            continue;
        }
        if chars.len() - i > 2 && ch == '2' && chars[i + 1] == '>' && chars[i + 2] == '>' {
            tokens.push(ShellToken::Op(ShellOp::RedirectErrAppend));
            assert(tokens_model(tokens@) =~= acc.push(TokenModel::Op(ShellOp::RedirectErrAppend)));
            i = i + 3;
            continue;
        }
        if chars.len() - i > 1 {
            match pair_op_exec(ch, chars[i + 1]) {
                Some(op) => {
                    tokens.push(ShellToken::Op(op));
                    assert(tokens_model(tokens@) =~= acc.push(TokenModel::Op(op)));
                    i = i + 2;
                    continue;
                },
                None => {},
            }
        }
        match single_op_exec(ch) {
            Some(op) => {
                tokens.push(ShellToken::Op(op));
                assert(tokens_model(tokens@) =~= acc.push(TokenModel::Op(op)));
                i = i + 1;
                continue;
            },
            None => {},
        }
        if ch == '&' {
            return Err(owned("syntax error near unexpected token '&'"));
        }
        let ghost i0 = i as int;
        let mut word = String::new();
        let mut in_single = false;
        let mut in_double = false;
        let mut escape = false;
        while i < chars.len()
            invariant
                chars@ == input@,
                i0 <= i <= chars@.len(),
                scan_word(chars@, i0, Seq::empty(), false, false, false) == scan_word(
                    chars@,
                    i as int,
                    word@,
                    in_single,
                    in_double,
                    escape,
                ),
            ensures
                i0 <= i <= chars@.len(),
                scan_word(chars@, i0, Seq::empty(), false, false, false) == (
                    word@,
                    i as int,
                    escape || in_single || in_double,
                ),
            decreases chars@.len() - i,
        {
            let c = chars[i];
            if escape {
                push_char(&mut word, c);
                escape = false;
                i = i + 1;
                continue;
            }
            if in_single {
                if c == '\'' {
                    in_single = false;
                } else {
                    push_char(&mut word, c);
                }
                i = i + 1;
                continue;
            }
            if in_double {
                if c == '\\' {
                    escape = true;
                } else if c == '"' {
                    in_double = false;
                } else {
                    push_char(&mut word, c);
                }
                i = i + 1;
                continue;
            }
            if c == '\\' {
                escape = true;
                i = i + 1;
            } else if c == '\'' {
                in_single = true;
                i = i + 1;
            } else if c == '"' {
                in_double = true;
                i = i + 1;
            } else if is_whitespace(c) || c == ';' || c == '|' || c == '<' || c == '>' || c == '&' {
                break;
            } else {
                push_char(&mut word, c);
                i = i + 1;
            }
        }
        proof {
            lemma_scan_word_advances(chars@, i0, Seq::empty(), false, false, false);
            assert(!is_delimiter(chars@[i0]));
        }
        if escape || in_single || in_double {
            return Err(owned("Invalid quotes or escape sequence"));
        }
        if !word.as_str().is_empty() {
            tokens.push(ShellToken::Word(word));
            assert(tokens_model(tokens@) =~= acc.push(TokenModel::Word(word@)));
        }
    }
    Ok(tokens)
}

} // verus!
