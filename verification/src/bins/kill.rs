//! `kill`: stops a process.
use vstd::prelude::*;
use super::{err_outcome, ok_outcome, processes_view, Command, CommandContext, CommandResult, ContextModel, Outcome, ProcessEntry};
use crate::text::{chars_of, decimal, decimal_string, owned, push_str, strings_view};

verus! {

/// Stops the process whose id is its first argument.
pub struct Kill;

/// The `kill` command.
pub const KILL: Kill = Kill;

/// Whether `c` is a decimal digit.
pub open spec fn is_digit(c: char) -> bool {
    '0' <= c <= '9'
}

/// The number that the decimal digits `d` spell.
pub open spec fn digits_value(d: Seq<char>) -> nat
    decreases d.len(),
{
    if d.len() == 0 {
        0
    } else {
        digits_value(d.drop_last()) * 10 + ((d.last() as u32) - ('0' as u32)) as nat
    }
}

/// The `u32` that `s` spells as `str::parse` reads it: an optional `+`,
/// then at least one digit and nothing else, and a value that fits.
pub open spec fn parse_u32(s: Seq<char>) -> Option<u32> {
    if all_digits(unsigned_digits(s)) && digits_value(unsigned_digits(s)) <= u32::MAX {
        Some(digits_value(unsigned_digits(s)) as u32)
    } else {
        None
    }
}

/// What follows an optional leading `+`.
pub open spec fn unsigned_digits(s: Seq<char>) -> Seq<char> {
    if s.len() > 0 && s[0] == '+' { s.skip(1) } else { s }
}

/// Whether `d` is a nonempty run of decimal digits.
pub open spec fn all_digits(d: Seq<char>) -> bool {
    d.len() > 0 && forall|i: int| 0 <= i < d.len() ==> is_digit(#[trigger] d[i])
}

proof fn lemma_digits_value_grows(d: Seq<char>, k: int)
    requires
        0 <= k <= d.len(),
        forall|i: int| 0 <= i < d.len() ==> is_digit(d[i]),
    ensures
        digits_value(d.take(k)) <= digits_value(d),
    decreases d.len(),
{
    if k < d.len() {
        assert(d.drop_last().take(k) =~= d.take(k));
        lemma_digits_value_grows(d.drop_last(), k);
    } else {
        assert(d.take(k) =~= d);
    }
}

/// The `u32` that `s` spells, as `str::parse::<u32>` reads it.
pub fn parse_u32_exec(s: &str) -> (res: Option<u32>)
    ensures
        res == parse_u32(s@),
{
    let v = chars_of(s);
    let start: usize = if v.len() > 0 && v[0] == '+' { 1 } else { 0 };
    let ghost d = unsigned_digits(s@);
    assert(d =~= v@.skip(start as int));
    if start >= v.len() {
        return None;
    }
    let mut value: u64 = 0;
    let mut i: usize = start;
    assert(d.take(0) =~= Seq::<char>::empty());
    while i < v.len()
        invariant
            start <= i <= v@.len(),
            v@ == s@,
            d == v@.skip(start as int),
            d == unsigned_digits(s@),
            value == digits_value(d.take(i - start)),
            value <= u32::MAX,
            forall|j: int| 0 <= j < i - start ==> is_digit(d[j]),
        decreases v@.len() - i,
    {
        let c = v[i];
        assert(d[i - start] == c);
        if !('0' <= c && c <= '9') {
            assert(!is_digit(d[i - start]));
            assert(!all_digits(d));
            return None;
        }
        assert(d.take(i - start + 1).drop_last() =~= d.take(i - start));
        assert(d.take(i - start + 1).last() == c);
        let dv: u64 = ((c as u32) - ('0' as u32)) as u64;
        value = value * 10 + dv;
        assert(value == digits_value(d.take(i - start + 1)));
        if value > 4294967295u64 {
            proof {
                if all_digits(d) {
                    lemma_digits_value_grows(d, i - start + 1);
                    assert(digits_value(d) > u32::MAX);
                }
            }
            return None;
        }
        i = i + 1;
    }
    assert(d.take(d.len() as int) =~= d);
    Some(value as u32)
}

/// Whether a process with id `pid` runs.
pub open spec fn has_pid(procs: Seq<(u32, Seq<char>)>, pid: u32) -> bool {
    exists|i: int| 0 <= i < procs.len() && (#[trigger] procs[i]).0 == pid
}

/// The processes other than those with id `pid`, in order.
pub open spec fn without_pid(procs: Seq<(u32, Seq<char>)>, pid: u32) -> Seq<(u32, Seq<char>)>
    decreases procs.len(),
{
    if procs.len() == 0 {
        Seq::empty()
    } else {
        let r = without_pid(procs.drop_last(), pid);
        if procs.last().0 == pid { r } else { r.push(procs.last()) }
    }
}

/// What `kill` hands back and the context after it: the process whose id the
/// first argument spells leaves the table and is recorded as stopped; an
/// error when there is no argument, it spells no id, or no such process runs.
pub open spec fn kill_outcome(ctx: ContextModel, args: Seq<Seq<char>>) -> (Outcome, ContextModel) {
    if args.len() == 0 {
        (err_outcome("kill: not enough arguments\r\n"@), ctx)
    } else {
        match parse_u32(args[0]) {
            None => (err_outcome("kill: cannot find process \""@ + args[0] + "\"\r\n"@), ctx),
            Some(pid) => if has_pid(ctx.processes, pid) {
                (
                    ok_outcome(Seq::empty()),
                    ContextModel {
                        processes: without_pid(ctx.processes, pid),
                        killed: ctx.killed.push(pid),
                        ..ctx
                    },
                )
            } else {
                (
                    err_outcome("kill: sending signal to "@ + decimal(pid as nat) + " failed: No such process\r\n"@),
                    ctx,
                )
            },
        }
    }
}

fn stop_process(procs: &mut Vec<ProcessEntry>, pid: u32) -> (found: bool)
    ensures
        found == has_pid(processes_view(old(procs)@), pid),
        processes_view(final(procs)@) == without_pid(processes_view(old(procs)@), pid),
{
    let ghost pv = processes_view(procs@);
    let mut kept: Vec<ProcessEntry> = Vec::new();
    let mut found = false;
    let mut all: Vec<ProcessEntry> = Vec::new();
    std::mem::swap(&mut all, procs);
    let mut k: usize = 0;
    while k < all.len()
        invariant
            k <= all@.len(),
            pv == processes_view(all@),
            processes_view(kept@) == without_pid(pv.take(k as int), pid),
            found == has_pid(pv.take(k as int), pid),
        decreases all@.len() - k,
    {
        assert(pv.take(k + 1).drop_last() =~= pv.take(k as int));
        assert(pv.take(k + 1).last() == pv[k as int]);
        let id = all[k].id;
        if id == pid {
            found = true;
            assert(pv.take(k + 1)[k as int].0 == pid);
        } else {
            proof {
                if has_pid(pv.take(k + 1), pid) {
                    let i = choose|i: int| 0 <= i < k + 1 && (#[trigger] pv.take(k + 1)[i]).0 == pid;
                    assert(pv.take(k as int)[i].0 == pid);
                }
            }
            let entry = ProcessEntry { id, name: owned(all[k].name.as_str()) };
            let ghost before = processes_view(kept@);
            kept.push(entry);
            assert(processes_view(kept@) =~= before.push(pv[k as int]));
        }
        proof {
            if found && !has_pid(pv.take(k as int), pid) {
                assert(pv.take(k + 1)[k as int].0 == pid);
            }
            if has_pid(pv.take(k as int), pid) {
                let i = choose|i: int| 0 <= i < k && (#[trigger] pv.take(k as int)[i]).0 == pid;
                assert(pv.take(k + 1)[i].0 == pid);
            }
        }
        k = k + 1;
    }
    assert(pv.take(all@.len() as int) =~= pv);
    *procs = kept;
    found
}

impl Command for Kill {
    fn name(&self) -> (res: &'static str)
        ensures
            res@ == "kill"@,
    {
        "kill"
    }

    fn aliases(&self) -> (res: &'static [&'static str])
        ensures
            res@.len() == 0,
    {
        &[]
    }

    fn run(&self, ctx: &mut CommandContext, args: &[String], stdin: Option<&str>) -> (res: CommandResult)
        ensures
            (res.model(), final(ctx).model()) == kill_outcome(old(ctx).model(), strings_view(args@)),
    {
        if args.len() == 0 {
            return CommandResult::err(owned("kill: not enough arguments\r\n"));
        }
        match parse_u32_exec(args[0].as_str()) {
            None => {
                let mut m = owned("kill: cannot find process \"");
                push_str(&mut m, args[0].as_str());
                push_str(&mut m, "\"\r\n");
                CommandResult::err(m)
            },
            Some(pid) => {
                let ghost before = ctx.model();
                let mut procs: Vec<ProcessEntry> = Vec::new();
                std::mem::swap(&mut procs, &mut ctx.processes);
                let ghost old_view = processes_view(procs@);
                let found = stop_process(&mut procs, pid);
                if found {
                    ctx.processes = procs;
                    ctx.killed.push(pid);
                    CommandResult::ok(String::new())
                } else {
                    proof {
                        lemma_without_absent(old_view, pid);
                    }
                    ctx.processes = procs;
                    let mut m = owned("kill: sending signal to ");
                    push_str(&mut m, decimal_string(pid as u64).as_str());
                    push_str(&mut m, " failed: No such process\r\n");
                    CommandResult::err(m)
                }
            },
        }
    }

    fn complete(&self, ctx: &mut CommandContext, args: &[String], cursor: usize) -> (res: Vec<String>)
        ensures
            res@.len() == 0,
            final(ctx).model() == old(ctx).model(),
    {
        Vec::new()
    }
}

proof fn lemma_without_absent(procs: Seq<(u32, Seq<char>)>, pid: u32)
    requires
        !has_pid(procs, pid),
    ensures
        without_pid(procs, pid) == procs,
    decreases procs.len(),
{
    if procs.len() > 0 {
        assert(!has_pid(procs.drop_last(), pid)) by {
            if has_pid(procs.drop_last(), pid) {
                let i = choose|i: int| 0 <= i < procs.len() - 1 && (#[trigger] procs.drop_last()[i]).0 == pid;
                assert(procs[i].0 == pid);
            }
        }
        lemma_without_absent(procs.drop_last(), pid);
        assert(procs.last().0 != pid);
        assert(procs.drop_last().push(procs.last()) =~= procs);
    }
}

} // verus!
