use vstd::prelude::*;

use crate::command::args_error;
use crate::config::{first_match, lemma_first_match_exists, lemma_first_match_unique, ProgramConfig};
use crate::supervisor::{instance_of, registered, shutdown_steps, start_all, status_report, Instance, StopStep};
use crate::text::decimal;

verus! {

/// `l` is the launch of every instance of program `p` of `cfg`: one launch,
/// of `p`, naming `p_1` to `p_<numprocs>`, with `numprocs` that of the first
/// program named `p`.
pub open spec fn launches_every_instance(
    l: Seq<(Seq<char>, Seq<Seq<char>>)>,
    cfg: Seq<(String, ProgramConfig)>,
    p: Seq<char>,
) -> bool {
    &&& l.len() == 1
    &&& l[0].0 == p
    &&& exists|i: int| {
        &&& first_match(cfg, p, i)
        &&& l[0].1.len() == cfg[i].1.numprocs
        &&& forall|k: int| 0 <= k < l[0].1.len() ==> #[trigger] l[0].1[k] == p + "_"@ + decimal((k + 1) as nat)
    }
}

proof fn lemma_launch_of_configured(cfg: Seq<(String, ProgramConfig)>, p: Seq<char>)
    requires
        exists|i: int| 0 <= i < cfg.len() && cfg[i].0@ == p,
    ensures
        launches_every_instance(seq![crate::supervisor::program_launch(cfg, p)], cfg, p),
{
    crate::config::lemma_first_match_exists(cfg, p);
    let i = choose|i: int| first_match(cfg, p, i);
    let j = choose|j: int| first_match(cfg, p, j);
    lemma_first_match_unique(cfg, p, i, j);
    let l = seq![crate::supervisor::program_launch(cfg, p)];
    assert(first_match(cfg, p, i) && l[0].1.len() == cfg[i].1.numprocs);
}

/// Starting names one after another: the answer and the launches of a request
/// are those of its first names followed by those of its last name.
pub proof fn law_start_composes(
    cfg: Seq<(String, ProgramConfig)>,
    ps: Seq<Instance>,
    st: Seq<Seq<char>>,
    args: Seq<Seq<char>>,
    p: Seq<char>,
    restart: bool,
    fresh: bool,
)
    ensures
        ({
            let (t1, l1, s1) = start_all(cfg, ps, st, args, restart, fresh);
            let (t2, l2, s2) = start_all(cfg, ps, s1, seq![p], restart, fresh);
            start_all(cfg, ps, st, args.push(p), restart, fresh) == (t1 + t2, l1 + l2, s2)
        }),
{
    assert(args.push(p).drop_last() =~= args);
    assert(args.push(p).last() == p);
    let (t1, l1, s1) = start_all(cfg, ps, st, args, restart, fresh);
    lemma_start_single(cfg, ps, s1, p, restart, fresh);
    let (t2, l2, reg) = crate::supervisor::start_step(cfg, ps, p, restart);
    let s2 = if !reg { s1 } else if fresh { registered(s1, p) } else { s1.push(p) };
    assert(start_all(cfg, ps, st, args.push(p), restart, fresh) == (t1 + t2, l1 + l2, s2));
}

proof fn lemma_start_single(
    cfg: Seq<(String, ProgramConfig)>,
    ps: Seq<Instance>,
    st: Seq<Seq<char>>,
    p: Seq<char>,
    restart: bool,
    fresh: bool,
)
    ensures
        ({
            let (t2, l2, reg) = crate::supervisor::start_step(cfg, ps, p, restart);
            start_all(cfg, ps, st, seq![p], restart, fresh) == (
                t2,
                l2,
                if !reg { st } else if fresh { registered(st, p) } else { st.push(p) },
            )
        }),
{
    assert(seq![p].drop_last() =~= Seq::<Seq<char>>::empty());
    assert(seq![p].last() == p);
    let e = Seq::<Seq<char>>::empty();
    assert(start_all(cfg, ps, st, e, restart, fresh) == (
        Seq::<char>::empty(),
        Seq::<(Seq<char>, Seq<Seq<char>>)>::empty(),
        st,
    ));
    let (t2, l2, reg) = crate::supervisor::start_step(cfg, ps, p, restart);
    assert(Seq::<char>::empty() + t2 =~= t2);
    assert(Seq::<(Seq<char>, Seq<Seq<char>>)>::empty() + l2 =~= l2);
}

/// `start p`: a program that is not configured is reported not found; one with
/// an instance in the Running state is reported already running and not
/// launched; otherwise (every instance of it stopped, or none in the table) it
/// is reported started, all its instances are launched, and it gets a fresh
/// start record.
pub proof fn law_start_one(cfg: Seq<(String, ProgramConfig)>, ps: Seq<Instance>, st: Seq<Seq<char>>, p: Seq<char>)
    ensures
        ({
            let (t, l, s) = start_all(cfg, ps, st, seq![p], false, true);
            &&& !(exists|i: int| 0 <= i < cfg.len() && cfg[i].0@ == p) ==> {
                &&& t == "Program "@ + p + " not found in configuration\n"@
                &&& l.len() == 0
                &&& s == st
            }
            &&& (exists|i: int| 0 <= i < cfg.len() && cfg[i].0@ == p) && (exists|i: int|
                0 <= i < ps.len() && instance_of(#[trigger] ps[i].name@, p) && ps[i].state is Running)
                ==> {
                &&& t == "Program "@ + p + " is already running.\n"@
                &&& l.len() == 0
                &&& s == st
            }
            &&& (exists|i: int| 0 <= i < cfg.len() && cfg[i].0@ == p) && (forall|i: int|
                0 <= i < ps.len() && instance_of(#[trigger] ps[i].name@, p) ==> ps[i].state is Stopped)
                ==> {
                &&& t == "Program "@ + p + " started\n"@
                &&& launches_every_instance(l, cfg, p)
                &&& s == registered(st, p)
            }
        }),
{
    lemma_start_single(cfg, ps, st, p, false, true);
    if exists|i: int| 0 <= i < cfg.len() && cfg[i].0@ == p {
        lemma_launch_of_configured(cfg, p);
        if forall|i: int| 0 <= i < ps.len() && instance_of(#[trigger] ps[i].name@, p) ==> ps[i].state is Stopped {
            assert(!crate::supervisor::running_match(ps, p));
        }
    }
}

/// `restart p` of a configured program always launches all its instances and
/// answers that it restarted, whatever the table holds; an unknown program is
/// reported not found.
pub proof fn law_restart_one(cfg: Seq<(String, ProgramConfig)>, ps: Seq<Instance>, st: Seq<Seq<char>>, p: Seq<char>)
    ensures
        ({
            let (t, l, s) = start_all(cfg, ps, st, seq![p], true, true);
            &&& (exists|i: int| 0 <= i < cfg.len() && cfg[i].0@ == p) ==> {
                &&& t == "Program "@ + p + " restarted\n"@
                &&& launches_every_instance(l, cfg, p)
                &&& s == registered(st, p)
            }
            &&& !(exists|i: int| 0 <= i < cfg.len() && cfg[i].0@ == p) ==> {
                &&& t == "Program "@ + p + " not found in configuration\n"@
                &&& l.len() == 0
            }
        }),
{
    lemma_start_single(cfg, ps, st, p, true, true);
    if exists|i: int| 0 <= i < cfg.len() && cfg[i].0@ == p {
        lemma_launch_of_configured(cfg, p);
    }
}

/// What `restart` answers and launches does not depend on the process table.
pub proof fn law_restart_ignores_table(
    cfg: Seq<(String, ProgramConfig)>,
    ps1: Seq<Instance>,
    ps2: Seq<Instance>,
    st: Seq<Seq<char>>,
    args: Seq<Seq<char>>,
)
    ensures
        start_all(cfg, ps1, st, args, true, true) == start_all(cfg, ps2, st, args, true, true),
    decreases args.len(),
{
    if args.len() > 0 {
        law_restart_ignores_table(cfg, ps1, ps2, st, args.drop_last());
    }
}

/// A shutdown kills the child of every instance that holds one, and nothing
/// else.
pub proof fn law_shutdown_kills_every_child(ps: Seq<Instance>)
    ensures
        forall|i: int|
            0 <= i < ps.len() && ps[i].pid is Some ==> shutdown_steps(ps).contains(
                StopStep::Kill(ps[i].name, ps[i].pid->0),
            ),
        forall|j: int|
            0 <= j < shutdown_steps(ps).len() ==> exists|i: int|
                0 <= i < ps.len() && ps[i].pid is Some && #[trigger] shutdown_steps(ps)[j]
                    == StopStep::Kill(ps[i].name, ps[i].pid->0),
    decreases ps.len(),
{
    if ps.len() > 0 {
        let init = ps.drop_last();
        law_shutdown_kills_every_child(init);
        let a = shutdown_steps(init);
        let r = shutdown_steps(ps);
        assert forall|i: int| 0 <= i < ps.len() && ps[i].pid is Some implies r.contains(
            StopStep::Kill(ps[i].name, ps[i].pid->0),
        ) by {
            if i < ps.len() - 1 {
                assert(init[i] == ps[i]);
                let j = choose|j: int| 0 <= j < a.len() && a[j] == StopStep::Kill(init[i].name, init[i].pid->0);
                assert(r[j] == a[j]);
            } else {
                assert(r[a.len() as int] == StopStep::Kill(ps[i].name, ps[i].pid->0));
            }
        }
        assert forall|j: int| 0 <= j < r.len() implies exists|i: int|
            0 <= i < ps.len() && ps[i].pid is Some && #[trigger] r[j] == StopStep::Kill(ps[i].name, ps[i].pid->0) by {
            if j < a.len() {
                assert(r[j] == a[j]);
                let i = choose|i: int|
                    0 <= i < init.len() && init[i].pid is Some && #[trigger] a[j] == StopStep::Kill(init[i].name, init[i].pid->0);
                assert(init[i] == ps[i]);
            } else {
                assert(r[j] == StopStep::Kill(ps[ps.len() - 1].name, ps[ps.len() - 1].pid->0));
            }
        }
    }
}

/// The line `status` shows for an instance: its name, process id (or N/A),
/// state and last start or stop time (or N/A).
pub open spec fn shown_line(e: Instance) -> Seq<char> {
    "\n"@ + e.name@ + "       "@ + (match e.pid {
        Some(v) => decimal(v as nat),
        None => "N/A"@,
    }) + "       "@ + (if e.state is Running {
        "RUNNING"@
    } else {
        "STOPPED"@
    }) + "      "@ + (match e.start_time {
        Some(t) => t@,
        None => "N/A"@,
    }) + "\n"@
}

/// `status` answers "Nothing to display" exactly for an empty table; otherwise
/// it shows one line per instance, running or stopped, in table order.
pub proof fn law_status_lists_every_instance(ps: Seq<Instance>)
    ensures
        ps.len() == 0 ==> status_report(ps) == "Nothing to display"@,
        ps.len() > 0 ==> status_report(ps) != "Nothing to display"@,
        ps.len() == 1 ==> status_report(ps) == shown_line(ps[0]),
        ps.len() > 1 ==> status_report(ps) == status_report(ps.drop_last()) + shown_line(ps.last()),
{
    if ps.len() > 0 {
        let e = ps.last();
        assert(crate::supervisor::status_line(e) == shown_line(e)) by {
            match e.state {
                crate::supervisor::ProcState::Running => {},
                crate::supervisor::ProcState::Stopped => {},
            }
        }
        if ps.len() == 1 {
            assert(ps.drop_last() =~= Seq::<Instance>::empty());
            assert(Seq::<char>::empty() + shown_line(e) =~= shown_line(e));
            assert(ps[0] == e);
        }
        let r = status_report(ps);
        let w = crate::supervisor::status_lines(ps.drop_last());
        assert(r == w + shown_line(e));
        reveal_strlit("Nothing to display");
        reveal_strlit("\n");
        if w.len() == 0 {
            assert(r[0] == shown_line(e)[0]);
            assert(shown_line(e)[0] == '\n');
        } else {
            lemma_lines_start_with_newline(ps.drop_last());
            assert(r[0] == w[0]);
        }
        assert("Nothing to display"@[0] == 'N');
    }
}

proof fn lemma_lines_start_with_newline(ps: Seq<Instance>)
    requires
        crate::supervisor::status_lines(ps).len() > 0,
    ensures
        crate::supervisor::status_lines(ps)[0] == '\n',
    decreases ps.len(),
{
    reveal_strlit("\n");
    let w = crate::supervisor::status_lines(ps.drop_last());
    let line = crate::supervisor::status_line(ps.last());
    assert(crate::supervisor::status_lines(ps) == w + line);
    if w.len() > 0 {
        lemma_lines_start_with_newline(ps.drop_last());
    } else {
        assert(line[0] == '\n');
    }
}

/// The client refuses `start` and `restart` exactly when they name no program,
/// and `reload` exactly when it names one; every other command passes.
pub proof fn law_check_args(cmd: Seq<char>, nargs: nat)
    ensures
        (cmd == "start"@ || cmd == "restart"@) && nargs >= 1 ==> args_error(cmd, nargs) is None,
        args_error(cmd, nargs) is Some <==> (((cmd == "start"@ || cmd == "restart"@) && nargs == 0) || (
        cmd == "reload"@ && nargs > 0)),
{
    reveal_strlit("start");
    reveal_strlit("restart");
    reveal_strlit("reload");
    if cmd == "reload"@ {
        assert(cmd != "start"@ && cmd != "restart"@) by {
            assert(cmd[1] == 'e');
            assert("start"@[1] == 't');
            assert(cmd.len() == 6);
        }
    }
}

} // verus!
