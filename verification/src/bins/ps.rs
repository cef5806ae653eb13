//! `ps`: lists the processes.
use vstd::prelude::*;
use super::{ok_outcome, processes_view, Command, CommandContext, CommandResult};
use crate::text::{decimal, decimal_string, pad_right, push_padded, push_str};

verus! {

/// Lists the running processes.
pub struct Ps;

/// The `ps` command.
pub const PS: Ps = Ps;

/// One line per process: its id in a column of five, a space, its name in a
/// column of ten.
pub open spec fn ps_rows(procs: Seq<(u32, Seq<char>)>) -> Seq<char>
    decreases procs.len(),
{
    if procs.len() == 0 {
        Seq::empty()
    } else {
        ps_rows(procs.drop_last()) + pad_right(decimal(procs.last().0 as nat), 5) + " "@ + pad_right(
            procs.last().1,
            10,
        ) + "\r\n"@
    }
}

/// What `ps` prints: a header, then a line per process.
pub open spec fn ps_text(procs: Seq<(u32, Seq<char>)>) -> Seq<char> {
    pad_right("PID"@, 5) + " "@ + pad_right("COMMAND"@, 10) + "\r\n"@ + ps_rows(procs)
}

impl Command for Ps {
    fn name(&self) -> (res: &'static str)
        ensures
            res@ == "ps"@,
    {
        "ps"
    }

    fn aliases(&self) -> (res: &'static [&'static str])
        ensures
            res@.len() == 0,
    {
        &[]
    }

    fn run(&self, ctx: &mut CommandContext, args: &[String], stdin: Option<&str>) -> (res: CommandResult)
        ensures
            res.model() == ok_outcome(ps_text(old(ctx).model().processes)),
            final(ctx).model() == old(ctx).model(),
    {
        let mut out = String::new();
        push_padded(&mut out, "PID", 5);
        push_str(&mut out, " ");
        push_padded(&mut out, "COMMAND", 10);
        push_str(&mut out, "\r\n");
        let ghost head = out@;
        let ghost pv = processes_view(ctx.processes@);
        let mut k: usize = 0;
        while k < ctx.processes.len()
            invariant
                k <= pv.len(),
                pv == processes_view(ctx.processes@),
                out@ == head + ps_rows(pv.take(k as int)),
            decreases pv.len() - k,
        {
            assert(pv.take(k + 1).drop_last() =~= pv.take(k as int));
            assert(pv.take(k + 1).last() == pv[k as int]);
            let id = decimal_string(ctx.processes[k].id as u64);
            push_padded(&mut out, id.as_str(), 5);
            push_str(&mut out, " ");
            push_padded(&mut out, ctx.processes[k].name.as_str(), 10);
            push_str(&mut out, "\r\n");
            assert(out@ =~= head + ps_rows(pv.take(k + 1)));
            k = k + 1;
        }
        assert(pv.take(pv.len() as int) =~= pv);
        CommandResult::ok(out)
    }

    fn complete(&self, ctx: &mut CommandContext, args: &[String], cursor: usize) -> (res: Vec<String>)
        ensures
            res@.len() == 0,
            final(ctx).model() == old(ctx).model(),
    {
        Vec::new()
    }
}

} // verus!
