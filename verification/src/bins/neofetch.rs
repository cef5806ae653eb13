//! `neofetch`: prints the system's logo and facts.
use vstd::prelude::*;
use super::{ok_outcome, Command, CommandContext, CommandResult};
use crate::consts::{ANSI_BOLD, ANSI_BRIGHT_CYAN, ANSI_CYAN, ANSI_DIM, ANSI_RESET};
use crate::text::{owned, push_str};

verus! {

/// Prints the logo beside a few facts about the system.
pub struct Neofetch;

/// The `neofetch` command.
pub const NEOFETCH: Neofetch = Neofetch;

/// The lines of the logo.
pub open spec fn logo() -> Seq<Seq<char>> {
    seq![
        "      /\\      "@,
        "     /  \\     "@,
        "    /\\   \\    "@,
        "   /      \\   "@,
        "  /   ,,   \\  "@,
        " /   |  |  -\\ "@,
        "/_-''    ''-_\\"@,
    ]
}

/// The facts, each a label and a value.
pub open spec fn fields() -> Seq<(Seq<char>, Seq<char>)> {
    seq![
        ("OS"@, "Arch Linux x86_64"@),
        ("Host"@, "Samsung Galaxy Note 7"@),
        ("Kernel"@, "7.1.5-arch1-2"@),
        ("Uptime"@, "9783 days, 12 hours, 69 mins"@),
        ("Packages"@, "69 (pacman)"@),
        ("Shell"@, "/bin/sheesh 4.2.0"@),
        ("Terminal"@, "1337 hax0r terminal"@),
        ("CPU"@, "AMD Ryzen 7 5800X (16) @ 3.800GHz"@),
        ("GPU"@, "NVIDIA GeForce RTX 3060 Ti"@),
        ("Memory"@, "3161MiB / 32016MiB"@),
        ("Disk"@, "69G / 420G"@),
    ]
}

/// The text beside line `i` of the logo: the user and host, a rule, then the facts.
pub open spec fn info_line(i: int) -> Seq<char> {
    if i == 0 {
        ANSI_BOLD@ + ANSI_CYAN@ + "inparsian"@ + ANSI_RESET@ + "@"@ + ANSI_BOLD@ + ANSI_CYAN@ + "I-USE-AWCH-UWU"@
    } else if i == 1 {
        ANSI_RESET@ + ANSI_DIM@ + "---------------"@
    } else {
        ANSI_CYAN@ + fields()[i - 2].0 + ANSI_RESET@ + ": "@ + fields()[i - 2].1
    }
}

/// Line `i` of the logo, blank below its end.
pub open spec fn logo_line(i: int) -> Seq<char> {
    if i < 7 { logo()[i] } else { "              "@ }
}

/// The first `n` lines of what `neofetch` prints.
pub open spec fn neofetch_lines(n: int) -> Seq<char>
    decreases n,
{
    if n <= 0 {
        Seq::empty()
    } else {
        neofetch_lines(n - 1) + ANSI_RESET@ + ANSI_BOLD@ + ANSI_BRIGHT_CYAN@ + logo_line(n - 1) + "     "@
            + ANSI_RESET@ + info_line(n - 1) + "\r\n"@
    }
}

/// What `neofetch` prints: thirteen lines, as many as there are facts and headings.
pub open spec fn neofetch_text() -> Seq<char> {
    neofetch_lines(13)
}

fn info_line_exec(i: usize) -> (res: String)
    requires
        i < 13,
    ensures
        res@ == info_line(i as int),
{
    let facts: [(&str, &str); 11] = [
        ("OS", "Arch Linux x86_64"),
        ("Host", "Samsung Galaxy Note 7"),
        ("Kernel", "7.1.5-arch1-2"),
        ("Uptime", "9783 days, 12 hours, 69 mins"),
        ("Packages", "69 (pacman)"),
        ("Shell", "/bin/sheesh 4.2.0"),
        ("Terminal", "1337 hax0r terminal"),
        ("CPU", "AMD Ryzen 7 5800X (16) @ 3.800GHz"),
        ("GPU", "NVIDIA GeForce RTX 3060 Ti"),
        ("Memory", "3161MiB / 32016MiB"),
        ("Disk", "69G / 420G"),
    ];
    if i == 0 {
        let mut s = owned(ANSI_BOLD);
        push_str(&mut s, ANSI_CYAN);
        push_str(&mut s, "inparsian");
        push_str(&mut s, ANSI_RESET);
        push_str(&mut s, "@");
        push_str(&mut s, ANSI_BOLD);
        push_str(&mut s, ANSI_CYAN);
        push_str(&mut s, "I-USE-AWCH-UWU");
        s
    } else if i == 1 {
        let mut s = owned(ANSI_RESET);
        push_str(&mut s, ANSI_DIM);
        push_str(&mut s, "---------------");
        s
    } else {
        let (label, value) = facts[i - 2];
        assert(label@ == fields()[i - 2].0 && value@ == fields()[i - 2].1);
        let mut s = owned(ANSI_CYAN);
        push_str(&mut s, label);
        push_str(&mut s, ANSI_RESET);
        push_str(&mut s, ": ");
        push_str(&mut s, value);
        s
    }
}

/// What `neofetch` prints.
pub fn neofetch_output() -> (res: String)
    ensures
        res@ == neofetch_text(),
{
    let art: [&str; 7] = [
        "      /\\      ",
        "     /  \\     ",
        "    /\\   \\    ",
        "   /      \\   ",
        "  /   ,,   \\  ",
        " /   |  |  -\\ ",
        "/_-''    ''-_\\",
    ];
    let mut out = String::new();
    let mut i: usize = 0;
    while i < 13
        invariant
            i <= 13,
            art@.len() == 7,
            forall|j: int| 0 <= j < 7 ==> art@[j]@ == #[trigger] logo()[j],
            out@ == neofetch_lines(i as int),
        decreases 13 - i,
    {
        let l: &str = if i < 7 { art[i] } else { "              " };
        assert(l@ == logo_line(i as int));
        push_str(&mut out, ANSI_RESET);
        push_str(&mut out, ANSI_BOLD);
        push_str(&mut out, ANSI_BRIGHT_CYAN);
        push_str(&mut out, l);
        push_str(&mut out, "     ");
        push_str(&mut out, ANSI_RESET);
        let info = info_line_exec(i);
        push_str(&mut out, info.as_str());
        push_str(&mut out, "\r\n");
        i = i + 1;
    }
    out
}

impl Command for Neofetch {
    fn name(&self) -> (res: &'static str)
        ensures
            res@ == "neofetch"@,
    {
        "neofetch"
    }

    fn aliases(&self) -> (res: &'static [&'static str])
        ensures
            res@.len() == 1,
            res@[0]@ == "fastfetch"@,
    {
        &["fastfetch"]
    }

    fn run(&self, ctx: &mut CommandContext, args: &[String], stdin: Option<&str>) -> (res: CommandResult)
        ensures
            res.model() == ok_outcome(neofetch_text()),
            final(ctx).model() == old(ctx).model(),
    {
        CommandResult::ok(neofetch_output())
    }

    fn complete(&self, ctx: &mut CommandContext, args: &[String], cursor: usize) -> (res: Vec<String>)
        ensures
            res@.len() == 0,
            final(ctx).model() == old(ctx).model(),
    {
        Vec::new()
    }
}

} // verus!
