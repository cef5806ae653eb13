//! `uname`: prints facts about the system, chosen by options.
use vstd::prelude::*;
use super::{ok_outcome, Command, CommandContext, CommandResult, Outcome};
use crate::bins::echo::join_with;
use crate::order::{sort_dedup, strictly_sorted};
use crate::text::{chars_of, is_prefix, owned, push_char, push_str, starts_with, str_eq, strings_view};

verus! {

/// Prints facts about the system, chosen by its options.
pub struct Uname;

/// The `uname` command.
pub const UNAME: Uname = Uname;

pub const KERNEL_NAME: &'static str = "Linux";

pub const NODE_NAME: &'static str = "I-USE-AWCH-UWU";

pub const KERNEL_RELEASE_NAME: &'static str = "7.1.5-arch1-2";

pub const KERNEL_VERSION_NAME: &'static str = "#1 SMP PREEMPT_DYNAMIC Tue, 28 Jul 2026 13:49:51 +0000";

pub const MACHINE_NAME: &'static str = "x86_64";

pub const PROCESSOR_NAME: &'static str = "unknown";

pub const HARDWARE_PLATFORM_NAME: &'static str = "x86_64";

pub const OPERATING_SYSTEM_NAME: &'static str = "GNU/Linux";

/// The text of `uname --help`.
pub const HELP_TEXT: &'static str = "Usage: uname [OPTION]...\r\nPrint certain system information.  With no OPTION, same as -s.\r\n\r\n  -a, --all                print all information, in the following order,\r\n                             except omit -p and -i if unknown\r\n  -s, --kernel-name        print the kernel name\r\n  -n, --nodename           print the network node hostname\r\n  -r, --kernel-release     print the kernel release\r\n  -v, --kernel-version     print the kernel version\r\n  -m, --machine            print the machine hardware name\r\n  -p, --processor          print the processor type (non-portable)\r\n  -i, --hardware-platform  print the hardware platform (non-portable)\r\n  -o, --operating-system   print the operating system\r\n      --help\r\n         display this help and exit\r\n      --version\r\n         output version information and exit\r\n\r\nReport bugs to: bug-coreutils@gnu.org\r\nGNU coreutils home page: <https://www.gnu.org/software/coreutils/>\r\nGeneral help using GNU software: <https://www.gnu.org/gethelp/>\r\nFull documentation <https://www.gnu.org/software/coreutils/uname>\r\nor available locally via: info '(coreutils) uname invocation'";

/// The text of `uname --version`.
pub const VERSION_TEXT: &'static str = "uname (GNU coreutils) 9.11\r\nCopyright (C) 2026 Free Software Foundation, Inc.\r\nLicense GPLv3+: GNU GPL version 3 or later <https://gnu.org/licenses/gpl.html>.\r\nThis is free software: you are free to change and redistribute it.\r\nThere is NO WARRANTY, to the extent permitted by law.\r\n\r\nWritten by David MacKenzie.";

/// The long options, which may be abbreviated when the abbreviation is unique.
pub open spec fn longs() -> Seq<Seq<char>> {
    seq![
        "--all"@,
        "--kernel-name"@,
        "--nodename"@,
        "--kernel-release"@,
        "--kernel-version"@,
        "--machine"@,
        "--processor"@,
        "--hardware-platform"@,
        "--operating-system"@,
        "--help"@,
        "--version"@,
    ]
}

/// The short options.
pub open spec fn shorts() -> Seq<Seq<char>> {
    seq!["-a"@, "-s"@, "-n"@, "-r"@, "-v"@, "-m"@, "-p"@, "-i"@, "-o"@]
}

fn longs_exec() -> (res: [&'static str; 11])
    ensures
        res@.len() == 11,
        forall|i: int| 0 <= i < 11 ==> #[trigger] res@[i]@ == longs()[i],
{
    [
        "--all",
        "--kernel-name",
        "--nodename",
        "--kernel-release",
        "--kernel-version",
        "--machine",
        "--processor",
        "--hardware-platform",
        "--operating-system",
        "--help",
        "--version",
    ]
}

fn shorts_exec() -> (res: [&'static str; 9])
    ensures
        res@.len() == 9,
        forall|i: int| 0 <= i < 9 ==> #[trigger] res@[i]@ == shorts()[i],
{
    ["-a", "-s", "-n", "-r", "-v", "-m", "-p", "-i", "-o"]
}

/// The facts that a resolved long option prints; `--all` leaves out the
/// processor and the platform when they are unknown.
pub open spec fn option_pieces(opt: Seq<char>) -> Seq<Seq<char>> {
    if opt == "--all"@ {
        let a = seq![KERNEL_NAME@, NODE_NAME@, KERNEL_RELEASE_NAME@, KERNEL_VERSION_NAME@, MACHINE_NAME@];
        let b = if PROCESSOR_NAME@ != "unknown"@ { a.push(PROCESSOR_NAME@) } else { a };
        let c = if HARDWARE_PLATFORM_NAME@ != "unknown"@ { b.push(HARDWARE_PLATFORM_NAME@) } else { b };
        c.push(OPERATING_SYSTEM_NAME@)
    } else if opt == "--kernel-name"@ {
        seq![KERNEL_NAME@]
    } else if opt == "--nodename"@ {
        seq![NODE_NAME@]
    } else if opt == "--kernel-release"@ {
        seq![KERNEL_RELEASE_NAME@]
    } else if opt == "--kernel-version"@ {
        seq![KERNEL_VERSION_NAME@]
    } else if opt == "--machine"@ {
        seq![MACHINE_NAME@]
    } else if opt == "--processor"@ {
        seq![PROCESSOR_NAME@]
    } else if opt == "--hardware-platform"@ {
        seq![HARDWARE_PLATFORM_NAME@]
    } else if opt == "--operating-system"@ {
        seq![OPERATING_SYSTEM_NAME@]
    } else {
        Seq::empty()
    }
}

/// The long option that a short option letter stands for.
pub open spec fn short_option(c: char) -> Option<Seq<char>> {
    if c == 'a' {
        Some("--all"@)
    } else if c == 's' {
        Some("--kernel-name"@)
    } else if c == 'n' {
        Some("--nodename"@)
    } else if c == 'r' {
        Some("--kernel-release"@)
    } else if c == 'v' {
        Some("--kernel-version"@)
    } else if c == 'm' {
        Some("--machine"@)
    } else if c == 'p' {
        Some("--processor"@)
    } else if c == 'i' {
        Some("--hardware-platform"@)
    } else if c == 'o' {
        Some("--operating-system"@)
    } else {
        None
    }
}

/// The facts that a run of short option letters prints, or the first
/// letter that is no option.
pub open spec fn short_pieces(s: Seq<char>) -> Result<Seq<Seq<char>>, char>
    decreases s.len(),
{
    if s.len() == 0 {
        Ok(Seq::empty())
    } else {
        match short_pieces(s.drop_last()) {
            Err(c) => Err(c),
            Ok(r) => match short_option(s.last()) {
                None => Err(s.last()),
                Some(o) => Ok(r + option_pieces(o)),
            },
        }
    }
}

/// The options of `ls` that start with `a`, in order.
pub open spec fn with_prefix(opts: Seq<Seq<char>>, a: Seq<char>) -> Seq<Seq<char>>
    decreases opts.len(),
{
    if opts.len() == 0 {
        Seq::empty()
    } else {
        let r = with_prefix(opts.drop_last(), a);
        if is_prefix(a, opts.last()) { r.push(opts.last()) } else { r }
    }
}

/// The names in single quotes, separated by spaces.
pub open spec fn quoted_list(names: Seq<Seq<char>>) -> Seq<char>
    decreases names.len(),
{
    if names.len() == 0 {
        Seq::empty()
    } else if names.len() == 1 {
        "'"@ + names[0] + "'"@
    } else {
        quoted_list(names.drop_last()) + " "@ + "'"@ + names.last() + "'"@
    }
}

/// An error followed by the hint to ask for help.
pub open spec fn with_hint(msg: Seq<char>) -> Seq<char> {
    msg + "\r\nTry 'uname --help' for more information.\r\n"@
}

/// Reads the arguments from `i` on, collecting the facts to print, until
/// one makes `uname` stop early (help, version, or an error), with the text
/// it prints then.
pub open spec fn scan_uname(args: Seq<Seq<char>>, i: int, pieces: Seq<Seq<char>>, end_of_options: bool) -> Result<Seq<Seq<char>>, Seq<char>>
    decreases args.len() - i,
{
    if i < 0 || i >= args.len() {
        Ok(pieces)
    } else {
        let a = args[i];
        if end_of_options {
            Err(with_hint("uname: extra operand '"@ + a + "'"@))
        } else if a == "--"@ {
            scan_uname(args, i + 1, pieces, true)
        } else if a == "--help"@ {
            Err(HELP_TEXT@ + "\r\n"@)
        } else if a == "--version"@ {
            Err(VERSION_TEXT@ + "\r\n"@)
        } else if is_prefix("--"@, a) {
            let candidates = with_prefix(longs(), a);
            if longs().contains(a) {
                scan_uname(args, i + 1, pieces + option_pieces(a), end_of_options)
            } else if candidates.len() == 1 {
                scan_uname(args, i + 1, pieces + option_pieces(candidates[0]), end_of_options)
            } else if candidates.len() > 0 {
                Err(
                    with_hint(
                            "uname: option '"@ + a + "' is ambiguous; possibilities: "@ + quoted_list(candidates),
                        ),
                )
            } else {
                Err(with_hint("uname: unrecognized option '"@ + a + "'"@))
            }
        } else if a.len() > 0 && a[0] == '-' {
            if a.len() == 1 {
                Err(with_hint("uname: unrecognized option '-'"@))
            } else {
                match short_pieces(a.drop_first()) {
                    Err(c) => Err(
                        with_hint("uname: invalid option -- '"@ + seq![c] + "'"@),
                    ),
                    Ok(r) => scan_uname(args, i + 1, pieces + r, end_of_options),
                }
            }
        } else {
            Err(with_hint("uname: extra operand '"@ + a + "'"@))
        }
    }
}

/// What `uname` hands back: the kernel name with no argument; otherwise the
/// chosen facts separated by spaces (the kernel name when none was chosen),
/// or the text of the argument that stopped it.
pub open spec fn uname_outcome(args: Seq<Seq<char>>) -> Outcome {
    if args.len() == 0 {
        ok_outcome(KERNEL_NAME@ + "\r\n"@)
    } else {
        match scan_uname(args, 0, Seq::empty(), false) {
            Err(text) => ok_outcome(text),
            Ok(pieces) => {
                let shown = if pieces.len() == 0 { seq![KERNEL_NAME@] } else { pieces };
                ok_outcome(join_with(shown, " "@) + "\r\n"@)
            },
        }
    }
}

/// The options that complete the last argument: every option when there is
/// none, the long ones after `--`, the short ones after `-`, nothing once an
/// argument is `--` or the last one is no option.
pub open spec fn uname_candidates(args: Seq<Seq<char>>) -> Seq<Seq<char>> {
    if args.contains("--"@) {
        Seq::empty()
    } else if args.len() == 0 {
        longs() + shorts()
    } else if is_prefix("--"@, args.last()) {
        with_prefix(longs(), args.last())
    } else if is_prefix("-"@, args.last()) {
        with_prefix(shorts(), args.last())
    } else {
        Seq::empty()
    }
}

/// The facts of `v`, each as characters.
pub open spec fn strs_view(v: Seq<&str>) -> Seq<Seq<char>> {
    Seq::new(v.len(), |i: int| v[i]@)
}

fn push_option_output(opt: &str, out: &mut Vec<&'static str>)
    ensures
        strs_view(final(out)@) == strs_view(old(out)@) + option_pieces(opt@),
{
    let ghost before = strs_view(out@);
    if str_eq(opt, "--all") {
        out.push(KERNEL_NAME);
        out.push(NODE_NAME);
        out.push(KERNEL_RELEASE_NAME);
        out.push(KERNEL_VERSION_NAME);
        out.push(MACHINE_NAME);
        let ghost a = seq![KERNEL_NAME@, NODE_NAME@, KERNEL_RELEASE_NAME@, KERNEL_VERSION_NAME@, MACHINE_NAME@];
        assert(strs_view(out@) =~= before + a);
        let ghost mut b = a;
        if !str_eq(PROCESSOR_NAME, "unknown") {
            out.push(PROCESSOR_NAME);
            proof {
                b = a.push(PROCESSOR_NAME@);
            }
        }
        assert(strs_view(out@) =~= before + b);
        let ghost mut c = b;
        if !str_eq(HARDWARE_PLATFORM_NAME, "unknown") {
            out.push(HARDWARE_PLATFORM_NAME);
            proof {
                c = b.push(HARDWARE_PLATFORM_NAME@);
            }
        }
        assert(strs_view(out@) =~= before + c);
        out.push(OPERATING_SYSTEM_NAME);
        assert(strs_view(out@) =~= before + c.push(OPERATING_SYSTEM_NAME@));
        return;
    }
    let one: Option<&'static str> = if str_eq(opt, "--kernel-name") {
        Some(KERNEL_NAME)
    } else if str_eq(opt, "--nodename") {
        Some(NODE_NAME)
    } else if str_eq(opt, "--kernel-release") {
        Some(KERNEL_RELEASE_NAME)
    } else if str_eq(opt, "--kernel-version") {
        Some(KERNEL_VERSION_NAME)
    } else if str_eq(opt, "--machine") {
        Some(MACHINE_NAME)
    } else if str_eq(opt, "--processor") {
        Some(PROCESSOR_NAME)
    } else if str_eq(opt, "--hardware-platform") {
        Some(HARDWARE_PLATFORM_NAME)
    } else if str_eq(opt, "--operating-system") {
        Some(OPERATING_SYSTEM_NAME)
    } else {
        None
    };
    match one {
        Some(f) => {
            out.push(f);
            assert(strs_view(out@) =~= before + seq![f@]);
        },
        None => {
            assert(strs_view(out@) =~= before + Seq::<Seq<char>>::empty());
        },
    }
}

fn short_option_exec(c: char) -> (res: Option<&'static str>)
    ensures
        match short_option(c) {
            None => res is None,
            Some(o) => res is Some && res->0@ == o,
        },
{
    if c == 'a' {
        Some("--all")
    } else if c == 's' {
        Some("--kernel-name")
    } else if c == 'n' {
        Some("--nodename")
    } else if c == 'r' {
        Some("--kernel-release")
    } else if c == 'v' {
        Some("--kernel-version")
    } else if c == 'm' {
        Some("--machine")
    } else if c == 'p' {
        Some("--processor")
    } else if c == 'i' {
        Some("--hardware-platform")
    } else if c == 'o' {
        Some("--operating-system")
    } else {
        None
    }
}

fn hinted(msg: String) -> (res: String)
    ensures
        res@ == with_hint(msg@),
{
    let mut m = msg;
    push_str(&mut m, "\r\nTry 'uname --help' for more information.\r\n");
    m
}

fn quoted_list_exec(names: &Vec<&'static str>) -> (res: String)
    ensures
        res@ == quoted_list(strs_view(names@)),
{
    let ghost nv = strs_view(names@);
    let mut out = String::new();
    let mut k: usize = 0;
    while k < names.len()
        invariant
            k <= names@.len(),
            nv == strs_view(names@),
            out@ == quoted_list(nv.take(k as int)),
        decreases names@.len() - k,
    {
        assert(nv.take(k + 1).drop_last() =~= nv.take(k as int));
        let ghost before = out@;
        if k > 0 {
            push_str(&mut out, " ");
        }
        push_str(&mut out, "'");
        push_str(&mut out, names[k]);
        push_str(&mut out, "'");
        proof {
            if k == 0 {
                assert(out@ =~= "'"@ + nv.take(1)[0] + "'"@);
            } else {
                assert(out@ =~= before + " "@ + "'"@ + nv.take(k + 1).last() + "'"@);
            }
        }
        k = k + 1;
    }
    assert(nv.take(names@.len() as int) =~= nv);
    out
}

fn joined(pieces: &Vec<&'static str>) -> (res: String)
    ensures
        res@ == join_with(strs_view(pieces@), " "@),
{
    let ghost pv = strs_view(pieces@);
    let mut out = String::new();
    let mut k: usize = 0;
    while k < pieces.len()
        invariant
            k <= pieces@.len(),
            pv == strs_view(pieces@),
            out@ == join_with(pv.take(k as int), " "@),
        decreases pieces@.len() - k,
    {
        assert(pv.take(k + 1).drop_last() =~= pv.take(k as int));
        if k > 0 {
            push_str(&mut out, " ");
        } else {
            assert(pv.take(1) =~= seq![pv[0]]);
        }
        push_str(&mut out, pieces[k]);
        k = k + 1;
    }
    assert(pv.take(pieces@.len() as int) =~= pv);
    out
}

/// What `uname` prints for `args`, and whether it failed.
pub fn uname_run(args: &[String]) -> (res: CommandResult)
    ensures
        res.model() == uname_outcome(strings_view(args@)),
{
    if args.len() == 0 {
        let mut out = owned(KERNEL_NAME);
        push_str(&mut out, "\r\n");
        return CommandResult::ok(out);
    }
    let ghost av = strings_view(args@);
    let mut pieces: Vec<&'static str> = Vec::new();
    let mut end_of_options = false;
    let mut k: usize = 0;
    assert(strs_view(pieces@) =~= Seq::<Seq<char>>::empty());
    while k < args.len()
        invariant
            k <= args@.len(),
            av == strings_view(args@),
            args@.len() > 0,
            scan_uname(av, 0, Seq::empty(), false) == scan_uname(av, k as int, strs_view(pieces@), end_of_options),
        decreases args@.len() - k,
    {
        let a = args[k].as_str();
        assert(av[k as int] == a@);
        if end_of_options {
            let mut m = owned("uname: extra operand '");
            push_str(&mut m, a);
            push_str(&mut m, "'");
            return CommandResult::ok(hinted(m));
        }
        if str_eq(a, "--") {
            end_of_options = true;
            k = k + 1;
            continue;
        }
        if str_eq(a, "--help") {
            let mut m = owned(HELP_TEXT);
            push_str(&mut m, "\r\n");
            return CommandResult::ok(m);
        }
        if str_eq(a, "--version") {
            let mut m = owned(VERSION_TEXT);
            push_str(&mut m, "\r\n");
            return CommandResult::ok(m);
        }
        if starts_with(a, "--") {
            let longs = longs_exec();
            let mut exact: Option<&'static str> = None;
            let mut matching: Vec<&'static str> = Vec::new();
            let mut j: usize = 0;
            assert(strs_view(matching@) =~= Seq::<Seq<char>>::empty());
            while j < 11
                invariant
                    j <= 11,
                    longs@.len() == 11,
                    forall|i: int| 0 <= i < 11 ==> #[trigger] longs@[i]@ == crate::bins::uname::longs()[i],
                    strs_view(matching@) == with_prefix(crate::bins::uname::longs().take(j as int), a@),
                    match exact {
                        Some(e) => e@ == a@ && crate::bins::uname::longs().take(j as int).contains(a@),
                        None => !crate::bins::uname::longs().take(j as int).contains(a@),
                    },
                decreases 11 - j,
            {
                let ghost ls = crate::bins::uname::longs();
                assert(ls.take(j + 1).drop_last() =~= ls.take(j as int));
                assert(ls.take(j + 1).last() == longs@[j as int]@);
                let o = longs[j];
                if exact.is_none() && str_eq(o, a) {
                    exact = Some(o);
                    assert(ls.take(j + 1)[j as int] == a@);
                }
                proof {
                    if ls.take(j as int).contains(a@) {
                        let i = choose|i: int| 0 <= i < j && #[trigger] ls.take(j as int)[i] == a@;
                        assert(ls.take(j + 1)[i] == a@);
                    }
                    if ls.take(j + 1).contains(a@) && !ls.take(j as int).contains(a@) {
                        let i = choose|i: int| 0 <= i < j + 1 && #[trigger] ls.take(j + 1)[i] == a@;
                        if i < j {
                            assert(ls.take(j as int)[i] == a@);
                        }
                    }
                }
                if starts_with(o, a) {
                    let ghost before = strs_view(matching@);
                    matching.push(o);
                    assert(strs_view(matching@) =~= before.push(o@));
                }
                j = j + 1;
            }
            assert(crate::bins::uname::longs().take(11) =~= crate::bins::uname::longs());
            let resolved: &str = match exact {
                Some(e) => e,
                None => {
                    if matching.len() == 1 {
                        matching[0]
                    } else if matching.len() > 0 {
                        let mut m = owned("uname: option '");
                        push_str(&mut m, a);
                        push_str(&mut m, "' is ambiguous; possibilities: ");
                        let q = quoted_list_exec(&matching);
                        push_str(&mut m, q.as_str());
                        return CommandResult::ok(hinted(m));
                    } else {
                        let mut m = owned("uname: unrecognized option '");
                        push_str(&mut m, a);
                        push_str(&mut m, "'");
                        return CommandResult::ok(hinted(m));
                    }
                },
            };
            push_option_output(resolved, &mut pieces);
            k = k + 1;
            continue;
        }
        let v = chars_of(a);
        if v.len() > 0 && v[0] == '-' {
            if v.len() == 1 {
                return CommandResult::ok(hinted(owned("uname: unrecognized option '-'")));
            }
            let ghost rest = v@.drop_first();
            let ghost start = strs_view(pieces@);
            let mut i: usize = 1;
            assert(rest.take(0) =~= Seq::<char>::empty());
            assert(strs_view(pieces@).subrange(start.len() as int, strs_view(pieces@).len() as int) =~= Seq::<Seq<char>>::empty());
            assert(strs_view(pieces@).subrange(0, start.len() as int) =~= start);
            while i < v.len()
                invariant
                    1 <= i <= v@.len(),
                    rest == v@.drop_first(),
                    v@ == a@,
                    a@.len() > 1 && a@[0] == '-',
                    av == strings_view(args@),
                    k < args@.len(),
                    av[k as int] == a@,
                    !end_of_options,
                    a@ != "--"@ && a@ != "--help"@ && a@ != "--version"@,
                    !is_prefix("--"@, a@),
                    scan_uname(av, 0, Seq::empty(), false) == scan_uname(av, k as int, start, end_of_options),
                    short_pieces(rest.take(i - 1)) == Ok::<Seq<Seq<char>>, char>(
                        strs_view(pieces@).subrange(start.len() as int, strs_view(pieces@).len() as int),
                    ),
                    strs_view(pieces@).subrange(0, start.len() as int) == start,
                    start.len() <= strs_view(pieces@).len(),
                decreases v@.len() - i,
            {
                let c = v[i];
                assert(rest.take(i as int).drop_last() =~= rest.take(i - 1));
                assert(rest.take(i as int).last() == c);
                match short_option_exec(c) {
                    None => {
                        let mut m = owned("uname: invalid option -- '");
                        push_char(&mut m, c);
                        push_str(&mut m, "'");
                        proof {
                            lemma_short_pieces_err(rest, i as int, c);
                            assert(m@ =~= "uname: invalid option -- '"@ + seq![c] + "'"@);
                        }
                        return CommandResult::ok(hinted(m));
                    },
                    Some(o) => {
                        let ghost before = strs_view(pieces@);
                        push_option_output(o, &mut pieces);
                        assert(strs_view(pieces@).subrange(start.len() as int, strs_view(pieces@).len() as int)
                            =~= before.subrange(start.len() as int, before.len() as int) + option_pieces(o@));
                        assert(strs_view(pieces@).subrange(0, start.len() as int) =~= before.subrange(0, start.len() as int));
                    },
                }
                i = i + 1;
            }
            assert(rest.take(v@.len() - 1) =~= rest);
            assert(strs_view(pieces@) =~= start + strs_view(pieces@).subrange(start.len() as int, strs_view(pieces@).len() as int));
            k = k + 1;
            continue;
        }
        let mut m = owned("uname: extra operand '");
        push_str(&mut m, a);
        push_str(&mut m, "'");
        return CommandResult::ok(hinted(m));
    }
    if pieces.len() == 0 {
        pieces.push(KERNEL_NAME);
        assert(strs_view(pieces@) =~= seq![KERNEL_NAME@]);
    }
    let mut out = joined(&pieces);
    push_str(&mut out, "\r\n");
    CommandResult::ok(out)
}

proof fn lemma_short_pieces_err(rest: Seq<char>, i: int, c: char)
    requires
        1 <= i <= rest.len(),
        short_pieces(rest.take(i - 1)) is Ok,
        rest[i - 1] == c,
        short_option(c) is None,
    ensures
        short_pieces(rest) == Err::<Seq<Seq<char>>, char>(c),
    decreases rest.len() - i,
{
    assert(rest.take(i).drop_last() =~= rest.take(i - 1));
    if i == rest.len() {
        assert(rest.take(i) =~= rest);
    } else {
        lemma_short_pieces_err_up(rest, i, c);
    }
}

proof fn lemma_short_pieces_err_up(rest: Seq<char>, i: int, c: char)
    requires
        1 <= i <= rest.len(),
        short_pieces(rest.take(i)) == Err::<Seq<Seq<char>>, char>(c),
    ensures
        short_pieces(rest) == Err::<Seq<Seq<char>>, char>(c),
    decreases rest.len() - i,
{
    if i == rest.len() {
        assert(rest.take(i) =~= rest);
    } else {
        assert(rest.take(i + 1).drop_last() =~= rest.take(i));
        lemma_short_pieces_err_up(rest, i + 1, c);
    }
}

impl Command for Uname {
    fn name(&self) -> (res: &'static str)
        ensures
            res@ == "uname"@,
    {
        "uname"
    }

    fn aliases(&self) -> (res: &'static [&'static str])
        ensures
            res@.len() == 0,
    {
        &[]
    }

    fn run(&self, ctx: &mut CommandContext, args: &[String], stdin: Option<&str>) -> (res: CommandResult)
        ensures
            res.model() == uname_outcome(strings_view(args@)),
            final(ctx).model() == old(ctx).model(),
    {
        uname_run(args)
    }

    fn complete(&self, ctx: &mut CommandContext, args: &[String], cursor: usize) -> (res: Vec<String>)
        ensures
            strictly_sorted(strings_view(res@)),
            strings_view(res@).to_set() == uname_candidates(strings_view(args@)).to_set(),
            final(ctx).model() == old(ctx).model(),
    {
        let ghost av = strings_view(args@);
        let mut k: usize = 0;
        while k < args.len()
            invariant
                k <= args@.len(),
                av == strings_view(args@),
                forall|i: int| 0 <= i < k ==> av[i] != "--"@,
            decreases args@.len() - k,
        {
            assert(av[k as int] == args@[k as int]@);
            if str_eq(args[k].as_str(), "--") {
                assert(av.contains("--"@));
                let res: Vec<String> = Vec::new();
                assert(strings_view(res@).to_set() =~= Set::<Seq<char>>::empty());
                assert(uname_candidates(av).to_set() =~= Set::<Seq<char>>::empty());
                return res;
            }
            k = k + 1;
        }
        assert(!av.contains("--"@));
        let longs = longs_exec();
        let shorts = shorts_exec();
        let mut out: Vec<String> = Vec::new();
        let ghost ls = crate::bins::uname::longs();
        let ghost ss = crate::bins::uname::shorts();
        if args.len() == 0 {
            let mut j: usize = 0;
            while j < 11
                invariant
                    j <= 11,
                    longs@.len() == 11,
                    ls == crate::bins::uname::longs(),
                    forall|i: int| 0 <= i < 11 ==> #[trigger] longs@[i]@ == ls[i],
                    strings_view(out@) == ls.take(j as int),
                decreases 11 - j,
            {
                assert(longs@[j as int]@ == ls[j as int]);
                let ghost before = strings_view(out@);
                out.push(owned(longs[j]));
                assert(strings_view(out@) =~= before.push(ls[j as int]));
                assert(ls.take(j + 1) =~= ls.take(j as int).push(ls[j as int]));
                j = j + 1;
            }
            let mut j: usize = 0;
            while j < 9
                invariant
                    j <= 9,
                    shorts@.len() == 9,
                    ls == crate::bins::uname::longs(),
                    ss == crate::bins::uname::shorts(),
                    forall|i: int| 0 <= i < 9 ==> #[trigger] shorts@[i]@ == ss[i],
                    strings_view(out@) == ls + ss.take(j as int),
                decreases 9 - j,
            {
                assert(shorts@[j as int]@ == ss[j as int]);
                let ghost before = strings_view(out@);
                out.push(owned(shorts[j]));
                assert(strings_view(out@) =~= before.push(ss[j as int]));
                assert(ls + ss.take(j + 1) =~= (ls + ss.take(j as int)).push(ss[j as int]));
                j = j + 1;
            }
            assert(ss.take(9) =~= ss);
            return sort_dedup(out);
        }
        let cur = args[args.len() - 1].as_str();
        assert(av.last() == cur@);
        if starts_with(cur, "--") {
            let mut j: usize = 0;
            while j < 11
                invariant
                    j <= 11,
                    longs@.len() == 11,
                    ls == crate::bins::uname::longs(),
                    forall|i: int| 0 <= i < 11 ==> #[trigger] longs@[i]@ == ls[i],
                    strings_view(out@) == with_prefix(ls.take(j as int), cur@),
                decreases 11 - j,
            {
                assert(ls.take(j + 1).drop_last() =~= ls.take(j as int));
                if starts_with(longs[j], cur) {
                    let ghost before = strings_view(out@);
                    out.push(owned(longs[j]));
                    assert(strings_view(out@) =~= before.push(ls[j as int]));
                }
                j = j + 1;
            }
            assert(ls.take(11) =~= ls);
        } else if starts_with(cur, "-") {
            let mut j: usize = 0;
            while j < 9
                invariant
                    j <= 9,
                    shorts@.len() == 9,
                    ss == crate::bins::uname::shorts(),
                    forall|i: int| 0 <= i < 9 ==> #[trigger] shorts@[i]@ == ss[i],
                    strings_view(out@) == with_prefix(ss.take(j as int), cur@),
                decreases 9 - j,
            {
                assert(ss.take(j + 1).drop_last() =~= ss.take(j as int));
                if starts_with(shorts[j], cur) {
                    let ghost before = strings_view(out@);
                    out.push(owned(shorts[j]));
                    assert(strings_view(out@) =~= before.push(ss[j as int]));
                }
                j = j + 1;
            }
            assert(ss.take(9) =~= ss);
        } else {
            assert(strings_view(out@) =~= Seq::<Seq<char>>::empty());
        }
        sort_dedup(out)
    }
}

} // verus!
