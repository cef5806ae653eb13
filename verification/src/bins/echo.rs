//! `echo`: prints its arguments.
use vstd::prelude::*;
use super::{ok_outcome, Command, CommandContext, CommandResult};
use crate::text::{chars_of, owned, push_char, push_str, str_eq, strings_view};

verus! {

/// Prints its arguments, separated by spaces.
pub struct Echo;

/// The `echo` command.
pub const ECHO: Echo = Echo;

/// Whether `a` is one of the options `echo` takes.
pub open spec fn is_echo_flag(a: Seq<char>) -> bool {
    a == "-n"@ || a == "-e"@ || a == "-ne"@ || a == "-en"@
}

/// The number of leading arguments that are options.
pub open spec fn flags_end(args: Seq<Seq<char>>, i: int) -> int
    decreases args.len() - i,
{
    if 0 <= i < args.len() && is_echo_flag(args[i]) {
        flags_end(args, i + 1)
    } else {
        i
    }
}

/// Whether the first `n` arguments keep the final newline, and whether they
/// ask for escapes to be interpreted.
pub open spec fn flags_state(args: Seq<Seq<char>>, n: int) -> (bool, bool)
    decreases n,
{
    if n <= 0 {
        (true, false)
    } else {
        let (newline, escapes) = flags_state(args, n - 1);
        let a = args[n - 1];
        (newline && !(a == "-n"@ || a == "-ne"@ || a == "-en"@), escapes || a == "-e"@ || a == "-ne"@ || a == "-en"@)
    }
}

/// The words joined by `sep`.
pub open spec fn join_with(words: Seq<Seq<char>>, sep: Seq<char>) -> Seq<char>
    decreases words.len(),
{
    if words.len() == 0 {
        Seq::empty()
    } else if words.len() == 1 {
        words[0]
    } else {
        join_with(words.drop_last(), sep) + sep + words.last()
    }
}

/// `s` with every two-character sequence `a b` replaced by `r`, reading from
/// the left and never reusing a replaced character.
pub open spec fn replace_pair(s: Seq<char>, a: char, b: char, r: char) -> Seq<char>
    decreases s.len(),
{
    if s.len() < 2 {
        s
    } else if s[0] == a && s[1] == b {
        seq![r] + replace_pair(s.skip(2), a, b, r)
    } else {
        seq![s[0]] + replace_pair(s.skip(1), a, b, r)
    }
}

/// The escapes `\\`, `\n`, `\r`, `\t` and `\0` replaced, one kind after the other.
pub open spec fn unescape(s: Seq<char>) -> Seq<char> {
    let s1 = replace_pair(s, '\\', '\\', '\\');
    let s2 = replace_pair(s1, '\\', 'n', '\n');
    let s3 = replace_pair(s2, '\\', 'r', '\r');
    let s4 = replace_pair(s3, '\\', 't', '\t');
    replace_pair(s4, '\\', '0', '\0')
}

/// What `echo` prints for `args`.
pub open spec fn echo_text(args: Seq<Seq<char>>) -> Seq<char> {
    let n = flags_end(args, 0);
    let (newline, escapes) = flags_state(args, n);
    let joined = join_with(args.subrange(n, args.len() as int), " "@);
    let body = if escapes { unescape(joined) } else { joined };
    if newline { body + "\r\n"@ } else { body }
}

proof fn lemma_flags_end(args: Seq<Seq<char>>, i: int)
    requires
        0 <= i <= args.len(),
        forall|j: int| 0 <= j < i ==> is_echo_flag(args[j]),
    ensures
        i <= flags_end(args, i) <= args.len(),
        flags_end(args, 0) == flags_end(args, i),
    decreases i,
{
    if i > 0 {
        lemma_flags_end(args, i - 1);
    }
    lemma_flags_end_bound(args, i);
}

proof fn lemma_flags_end_bound(args: Seq<Seq<char>>, i: int)
    requires
        0 <= i <= args.len(),
    ensures
        i <= flags_end(args, i) <= args.len(),
    decreases args.len() - i,
{
    if i < args.len() && is_echo_flag(args[i]) {
        lemma_flags_end_bound(args, i + 1);
    }
}

fn replace_pair_exec(s: &str, a: char, b: char, r: char) -> (res: String)
    ensures
        res@ == replace_pair(s@, a, b, r),
{
    let v = chars_of(s);
    let mut out = String::new();
    let mut i: usize = 0;
    assert(v@.skip(0) =~= v@);
    assert(out@ + replace_pair(v@, a, b, r) =~= replace_pair(v@, a, b, r));
    while i < v.len()
        invariant
            i <= v@.len(),
            v@ == s@,
            out@ + replace_pair(v@.skip(i as int), a, b, r) == replace_pair(s@, a, b, r),
        decreases v@.len() - i,
    {
        let ghost rest = v@.skip(i as int);
        if i + 1 < v.len() && v[i] == a && v[i + 1] == b {
            assert(rest.skip(2) =~= v@.skip(i + 2));
            push_char(&mut out, r);
            assert(out@ + replace_pair(v@.skip(i + 2), a, b, r) =~= replace_pair(s@, a, b, r));
            i = i + 2;
        } else {
            assert(rest.skip(1) =~= v@.skip(i + 1));
            proof {
                if rest.len() < 2 {
                    assert(rest.len() == 1);
                    assert(replace_pair(rest, a, b, r) == rest);
                    assert(rest =~= seq![v@[i as int]] + v@.skip(i + 1));
                    assert(v@.skip(i + 1).len() == 0);
                    assert(replace_pair(v@.skip(i + 1), a, b, r) =~= Seq::<char>::empty());
                }
            }
            push_char(&mut out, v[i]);
            assert(out@ + replace_pair(v@.skip(i + 1), a, b, r) =~= replace_pair(s@, a, b, r));
            i = i + 1;
        }
    }
    assert(v@.skip(i as int) =~= Seq::<char>::empty());
    assert(out@ + Seq::<char>::empty() =~= out@);
    out
}

fn is_flag(a: &String) -> (res: bool)
    ensures
        res == is_echo_flag(a@),
{
    str_eq(a.as_str(), "-n") || str_eq(a.as_str(), "-e") || str_eq(a.as_str(), "-ne") || str_eq(a.as_str(), "-en")
}

/// What `echo` prints for `args`.
pub fn echo_output(args: &[String]) -> (res: String)
    ensures
        res@ == echo_text(strings_view(args@)),
{
    let ghost av = strings_view(args@);
    proof {
        reveal_strlit("-n");
        reveal_strlit("-e");
        reveal_strlit("-ne");
        reveal_strlit("-en");
    }
    let mut newline = true;
    let mut escapes = false;
    let mut i: usize = 0;
    while i < args.len() && is_flag(&args[i])
        invariant
            i <= args@.len(),
            av == strings_view(args@),
            forall|j: int| 0 <= j < i ==> is_echo_flag(av[j]),
            (newline, escapes) == flags_state(av, i as int),
        decreases args@.len() - i,
    {
        let a = args[i].as_str();
        proof {
            reveal_strlit("-n");
            reveal_strlit("-e");
            reveal_strlit("-ne");
            reveal_strlit("-en");
            assert(av[i as int] == a@);
            assert(is_echo_flag(a@));
            assert("-n"@[1] != "-e"@[1]);
            assert("-n"@.len() != "-ne"@.len() && "-n"@.len() != "-en"@.len());
            assert("-e"@.len() != "-ne"@.len() && "-e"@.len() != "-en"@.len());
        }
        let ghost prev = flags_state(av, i as int);
        assert(flags_state(av, i + 1) == (
            prev.0 && !(a@ == "-n"@ || a@ == "-ne"@ || a@ == "-en"@),
            prev.1 || a@ == "-e"@ || a@ == "-ne"@ || a@ == "-en"@,
        ));
        if str_eq(a, "-n") {
            newline = false;
        } else if str_eq(a, "-e") {
            escapes = true;
        } else {
            newline = false;
            escapes = true;
        }
        i = i + 1;
    }
    proof {
        lemma_flags_end(av, i as int);
        if i < args@.len() {
            assert(!is_echo_flag(av[i as int]));
        }
        assert(flags_end(av, i as int) == i);
    }
    let start = i;
    let mut out = String::new();
    while i < args.len()
        invariant
            start <= i <= args@.len(),
            av == strings_view(args@),
            out@ == join_with(av.subrange(start as int, i as int), " "@),
        decreases args@.len() - i,
    {
        assert(av.subrange(start as int, i + 1).drop_last() =~= av.subrange(start as int, i as int));
        if i > start {
            push_str(&mut out, " ");
        } else {
            assert(av.subrange(start as int, i + 1) =~= seq![av[i as int]]);
        }
        push_str(&mut out, args[i].as_str());
        i = i + 1;
    }
    if escapes {
        out = replace_pair_exec(out.as_str(), '\\', '\\', '\\');
        out = replace_pair_exec(out.as_str(), '\\', 'n', '\n');
        out = replace_pair_exec(out.as_str(), '\\', 'r', '\r');
        out = replace_pair_exec(out.as_str(), '\\', 't', '\t');
        out = replace_pair_exec(out.as_str(), '\\', '0', '\0');
    }
    if newline {
        push_str(&mut out, "\r\n");
    }
    out
}

impl Command for Echo {
    fn name(&self) -> (res: &'static str)
        ensures
            res@ == "echo"@,
    {
        "echo"
    }

    fn aliases(&self) -> (res: &'static [&'static str])
        ensures
            res@.len() == 0,
    {
        &[]
    }

    fn run(&self, ctx: &mut CommandContext, args: &[String], stdin: Option<&str>) -> (res: CommandResult)
        ensures
            res.model() == ok_outcome(echo_text(strings_view(args@))),
            final(ctx).model() == old(ctx).model(),
    {
        CommandResult::ok(echo_output(args))
    }

    fn complete(&self, ctx: &mut CommandContext, args: &[String], cursor: usize) -> (res: Vec<String>)
        ensures
            res@.len() == 0,
            final(ctx).model() == old(ctx).model(),
    {
        Vec::new()
    }
}

} // verus!
