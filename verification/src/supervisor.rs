use vstd::prelude::*;

use crate::command::{same_text, Command};
use crate::config::{
    first_match, has_program, lemma_first_match_unique, numprocs_of, reload_plan, Config,
    ProgramConfig,
};
use crate::text::{
    decimal, decimal_text, digits_value, is_digit, lemma_canonical_decimal, lemma_decimal_canonical,
    starts_with, views,
};

verus! {

/// Whether a program instance runs.
pub enum ProcState {
    Running,
    Stopped,
}

/// One program instance in the daemon's process table.
pub struct Instance {
    /// `<program>_<number>`.
    pub name: String,
    pub state: ProcState,
    /// The process id of its child, while the daemon holds one.
    pub pid: Option<u32>,
    /// When it was last started or stopped, as shown by `status`.
    pub start_time: Option<String>,
}

/// The daemon's state: the configuration, the programs it was asked to start,
/// and the process table.
pub struct Procs {
    pub config: Config,
    /// Programs with a start record, one record per program.
    pub status: Vec<String>,
    /// The process table, one entry per instance name.
    pub processes: Vec<Instance>,
}

/// A program instance named `x` is in `ps`.
pub open spec fn has_instance(ps: Seq<Instance>, x: Seq<char>) -> bool {
    exists|i: int| 0 <= i < ps.len() && ps[i].name@ == x
}

/// `x` names an instance of program `program`: `<program>_<n>` for a number
/// `n` from one.
pub open spec fn instance_of(x: Seq<char>, program: Seq<char>) -> bool {
    exists|n: nat| n >= 1 && x == #[trigger] instance_name(program, n)
}

/// An instance of program `name` is running.
pub open spec fn running_match(ps: Seq<Instance>, name: Seq<char>) -> bool {
    exists|i: int|
        0 <= i < ps.len() && instance_of(#[trigger] ps[i].name@, name) && ps[i].state is Running
}

/// The name of instance number `k` of program `name`.
pub open spec fn instance_name(name: Seq<char>, k: nat) -> Seq<char> {
    name + "_"@ + decimal(k)
}

/// The names of the `n` instances of program `name`, numbered from one.
pub open spec fn instance_names_spec(name: Seq<char>, n: nat) -> Seq<Seq<char>> {
    Seq::new(n, |i: int| instance_name(name, (i + 1) as nat))
}

/// `s` without the entries equal to `x`.
pub open spec fn without(s: Seq<Seq<char>>, x: Seq<char>) -> Seq<Seq<char>>
    decreases s.len(),
{
    if s.len() == 0 {
        seq![]
    } else {
        without(s.drop_last(), x) + if s.last() == x {
            seq![]
        } else {
            seq![s.last()]
        }
    }
}

/// `ps` without the instances of program `program`, in order.
pub open spec fn drop_instances(ps: Seq<Instance>, program: Seq<char>) -> Seq<Instance>
    decreases ps.len(),
{
    if ps.len() == 0 {
        seq![]
    } else {
        drop_instances(ps.drop_last(), program) + if instance_of(ps.last().name@, program) {
            seq![]
        } else {
            seq![ps.last()]
        }
    }
}

/// The table after instance entry `e` was recorded: it replaces the entry of
/// the same name, or is added at the end.
pub open spec fn recorded(ps: Seq<Instance>, e: Instance) -> Seq<Instance> {
    if has_instance(ps, e.name@) {
        ps.update(choose|j: int| 0 <= j < ps.len() && ps[j].name@ == e.name@, e)
    } else {
        ps.push(e)
    }
}

/// The start records after program `x` gets a fresh one.
pub open spec fn registered(s: Seq<Seq<char>>, x: Seq<char>) -> Seq<Seq<char>> {
    without(s, x).push(x)
}

pub open spec fn pid_text(p: Option<u32>) -> Seq<char> {
    match p {
        Some(v) => decimal(v as nat),
        None => "N/A"@,
    }
}

pub open spec fn time_text(t: Option<String>) -> Seq<char> {
    match t {
        Some(s) => s@,
        None => "N/A"@,
    }
}

pub open spec fn state_text(s: ProcState) -> Seq<char> {
    match s {
        ProcState::Running => "RUNNING"@,
        ProcState::Stopped => "STOPPED"@,
    }
}

/// The line that `status` shows for one instance.
pub open spec fn status_line(e: Instance) -> Seq<char> {
    "\n"@ + e.name@ + "       "@ + pid_text(e.pid) + "       "@ + state_text(e.state) + "      "@
        + time_text(e.start_time) + "\n"@
}

pub open spec fn status_lines(ps: Seq<Instance>) -> Seq<char>
    decreases ps.len(),
{
    if ps.len() == 0 {
        seq![]
    } else {
        status_lines(ps.drop_last()) + status_line(ps.last())
    }
}

/// The answer to `status`.
pub open spec fn status_report(ps: Seq<Instance>) -> Seq<char> {
    if ps.len() == 0 {
        "Nothing to display"@
    } else {
        status_lines(ps)
    }
}

impl Procs {
    /// No two instances share a name (as with the keys of a map).
    pub open spec fn wf(&self) -> bool {
        forall|i: int, j: int|
            0 <= i < j < self.processes.len() ==> self.processes[i].name@
                != self.processes[j].name@
    }

    /// Whether no two instances share a name.
    pub fn has_distinct_names(&self) -> (r: bool)
        ensures
            r == self.wf(),
    {
        let n = self.processes.len();
        for i in 0..n
            invariant
                n == self.processes.len(),
                forall|a: int, b: int|
                    0 <= a < b < n && a < i ==> self.processes[a].name@ != self.processes[b].name@,
        {
            for j in i + 1..n
                invariant
                    n == self.processes.len(),
                    i < n,
                    forall|a: int, b: int|
                        0 <= a < b < n && a < i ==> self.processes[a].name@
                            != self.processes[b].name@,
                    forall|b: int| i < b < j ==> self.processes[i as int].name@ != self.processes[b].name@,
            {
                if self.processes[i].name == self.processes[j].name {
                    return false;
                }
            }
        }
        true
    }

    /// A daemon with no configuration and no processes.
    pub fn new() -> (r: Procs)
        ensures
            r.wf(),
            r.config.programs@.len() == 0,
            r.status@.len() == 0,
            r.processes@.len() == 0,
    {
        Procs { config: Config::new(), status: Vec::new(), processes: Vec::new() }
    }

    /// Drops the start records of program `name`.
    pub fn unregister_status(&mut self, name: &str)
        ensures
            views(final(self).status@) == without(views(old(self).status@), name@),
            final(self).config == old(self).config,
            final(self).processes == old(self).processes,
    {
        let mut kept: Vec<String> = Vec::new();
        let target = String::from_str(name);
        for i in 0..self.status.len()
            invariant
                target@ == name@,
                views(kept@) == without(views(self.status@).subrange(0, i as int), name@),
        {
            proof {
                assert(views(self.status@).subrange(0, i + 1).drop_last() =~= views(
                    self.status@,
                ).subrange(0, i as int));
                assert(views(self.status@).subrange(0, i + 1).last() == self.status@[i as int]@);
            }
            let ghost before = kept@;
            if self.status[i] != target {
                kept.push(self.status[i].clone());
                proof {
                    assert(views(kept@) =~= views(before).push(self.status@[i as int]@));
                }
            } else {
                proof {
                    assert(views(kept@) =~= views(before) + seq![]);
                }
            }
        }
        proof {
            assert(views(self.status@).subrange(0, self.status.len() as int) =~= views(
                self.status@,
            ));
        }
        self.status = kept;
    }

    /// Adds a start record for program `name` after the others.
    pub fn add_status(&mut self, name: &str)
        ensures
            views(final(self).status@) == views(old(self).status@).push(name@),
            final(self).config == old(self).config,
            final(self).processes == old(self).processes,
    {
        let ghost before = self.status@;
        self.status.push(String::from_str(name));
        proof {
            assert(views(self.status@) =~= views(before).push(name@));
        }
    }

    /// Gives program `name` a fresh start record: earlier ones are dropped.
    pub fn register_status(&mut self, name: &str)
        ensures
            views(final(self).status@) == registered(views(old(self).status@), name@),
            final(self).config == old(self).config,
            final(self).processes == old(self).processes,
    {
        self.unregister_status(name);
        let ghost before = self.status@;
        self.status.push(String::from_str(name));
        proof {
            assert(views(self.status@) =~= views(before).push(name@));
        }
    }

    /// Removes every instance of program `program` from the table.
    pub fn remove_instances(&mut self, program: &str)
        requires
            old(self).wf(),
        ensures
            final(self).wf(),
            final(self).processes@ == drop_instances(old(self).processes@, program@),
            final(self).config == old(self).config,
            final(self).status == old(self).status,
    {
        let ghost orig = self.processes@;
        let mut rest: Vec<Instance> = Vec::new();
        std::mem::swap(&mut rest, &mut self.processes);
        let mut kept: Vec<Instance> = Vec::new();
        let n = rest.len();
        let mut i: usize = 0;
        while i < n
            invariant
                n == orig.len(),
                i <= n,
                rest.len() == n - i,
                rest@ == orig.subrange(i as int, n as int),
                kept@ == drop_instances(orig.subrange(0, i as int), program@),
                forall|a: int| 0 <= a < kept.len() ==> exists|k: int| 0 <= k < i && #[trigger] kept@[a] == orig[k],
                forall|a: int, b: int| 0 <= a < b < kept.len() ==> kept@[a].name@ != kept@[b].name@,
                forall|a: int, b: int| 0 <= a < b < orig.len() ==> orig[a].name@ != orig[b].name@,
                self.config == old(self).config,
                self.status == old(self).status,
            decreases n - i,
        {
            proof {
                assert(orig.subrange(0, i + 1).drop_last() =~= orig.subrange(0, i as int));
                assert(orig.subrange(0, i + 1).last() == orig[i as int]);
            }
            let e = rest.remove(0);
            let ghost before = kept@;
            if is_instance_of(e.name.as_str(), program) {
                proof {
                    assert(kept@ =~= before + seq![]);
                }
            } else {
                kept.push(e);
                proof {
                    assert(kept@ =~= before + seq![orig[i as int]]);
                    assert forall|a: int| 0 <= a < kept.len() implies exists|k: int| 0 <= k < i + 1 && #[trigger] kept@[a] == orig[k] by {
                        if a < before.len() {
                            assert(kept@[a] == before[a]);
                        } else {
                            assert(kept@[a] == orig[i as int]);
                        }
                    }
                    assert forall|a: int, b: int| 0 <= a < b < kept.len() implies kept@[a].name@ != kept@[b].name@ by {
                        if b == kept.len() - 1 {
                            assert(kept@[a] == before[a]);
                            let k = choose|k: int| 0 <= k < i && #[trigger] before[a] == orig[k];
                            assert(orig[k].name@ != orig[i as int].name@);
                        } else {
                            assert(kept@[a] == before[a]);
                            assert(kept@[b] == before[b]);
                        }
                    }
                }
            }
            proof {
                assert(rest@ =~= orig.subrange(i + 1, n as int));
            }
            i = i + 1;
        }
        proof {
            assert(orig.subrange(0, n as int) =~= orig);
        }
        self.processes = kept;
    }

    /// Records that instance `instance` runs as process `pid` since `time`: its
    /// entry is replaced, or added if the table has none.
    pub fn record_running(&mut self, instance: String, pid: u32, time: String)
        requires
            old(self).wf(),
        ensures
            final(self).wf(),
            final(self).config == old(self).config,
            final(self).status == old(self).status,
            final(self).processes@ == recorded(
                old(self).processes@,
                Instance {
                    name: instance,
                    state: ProcState::Running,
                    pid: Some(pid),
                    start_time: Some(time),
                },
            ),
            has_instance(old(self).processes@, instance@) ==> final(self).processes@.len()
                == old(self).processes@.len(),
            !has_instance(old(self).processes@, instance@) ==> final(self).processes@
                == old(self).processes@.push(
                Instance {
                    name: instance,
                    state: ProcState::Running,
                    pid: Some(pid),
                    start_time: Some(time),
                },
            ),
            forall|i: int|
                0 <= i < old(self).processes@.len() ==> if old(self).processes@[i].name@
                    == instance@ {
                    final(self).processes@[i] == Instance {
                        name: instance,
                        state: ProcState::Running,
                        pid: Some(pid),
                        start_time: Some(time),
                    }
                } else {
                    final(self).processes@[i] == old(self).processes@[i]
                },
    {
        let ghost name = instance;
        let mut found: Option<usize> = None;
        for i in 0..self.processes.len()
            invariant
                found is None ==> forall|k: int|
                    0 <= k < i ==> self.processes@[k].name@ != instance@,
                found matches Some(j) ==> j < self.processes.len() && self.processes@[j as int].name@
                    == instance@,
        {
            if found.is_none() && self.processes[i].name == instance {
                found = Some(i);
            }
        }
        let entry = Instance {
            name: instance,
            state: ProcState::Running,
            pid: Some(pid),
            start_time: Some(time),
        };
        let ghost ps = self.processes@;
        match found {
            Some(j) => {
                proof {
                    let c = choose|c: int| 0 <= c < ps.len() && ps[c].name@ == entry.name@;
                    assert(c == j);
                }
                self.processes.set(j, entry);
            },
            None => {
                self.processes.push(entry);
            },
        }
    }
}

/// Whether `x` names an instance of program `program`: `<program>_<n>`, with `n`
/// written in decimal from one.
pub fn is_instance_of(x: &str, program: &str) -> (r: bool)
    ensures
        r == instance_of(x@, program@),
{
    let m = program.unicode_len();
    let n = x.unicode_len();
    proof {
        reveal_strlit("_");
    }
    if !starts_with(x, program) || n < 2 || n - 2 < m || x.get_char(m) != '_' || x.get_char(m + 1) == '0' {
        proof {
            if instance_of(x@, program@) {
                let k = choose|k: nat| k >= 1 && x@ == #[trigger] instance_name(program@, k);
                lemma_decimal_canonical(k);
                let d = decimal(k);
                assert(x@ == program@ + seq!['_'] + d);
                assert(x@.subrange(0, m as int) =~= program@);
                assert(x@[m as int] == '_');
                assert(x@[m + 1] == d[0]);
            }
        }
        return false;
    }
    let mut k: usize = m + 1;
    while k < n
        invariant
            m + 1 <= k <= n,
            n == x@.len(),
            m == program@.len(),
            forall|j: int| m + 1 <= j < k ==> is_digit(#[trigger] x@[j]),
        decreases n - k,
    {
        let c = x.get_char(k);
        if !('0' <= c && c <= '9') {
            proof {
                reveal_strlit("_");
                if instance_of(x@, program@) {
                    let t = choose|t: nat| t >= 1 && x@ == #[trigger] instance_name(program@, t);
                    lemma_decimal_canonical(t);
                    let d = decimal(t);
                    assert(x@ == program@ + seq!['_'] + d);
                    assert(x@[k as int] == d[k - m - 1]);
                }
            }
            return false;
        }
        k = k + 1;
    }
    proof {
        reveal_strlit("_");
        let d = x@.skip(m + 1);
        assert forall|j: int| 0 <= j < d.len() implies is_digit(#[trigger] d[j]) by {
            assert(d[j] == x@[j + m + 1]);
        }
        assert(d[0] == x@[m + 1]);
        lemma_canonical_decimal(d);
        let v = digits_value(d);
        assert(x@.subrange(0, m as int) =~= program@);
        assert(x@ =~= instance_name(program@, v));
    }
    true
}

/// Whether an instance of program `name` is running.
pub fn is_program_running(name: &str, procs: &Procs) -> (r: bool)
    ensures
        r == running_match(procs.processes@, name@),
{
    for i in 0..procs.processes.len()
        invariant
            forall|k: int|
                0 <= k < i ==> !(instance_of(#[trigger] procs.processes@[k].name@, name@)
                    && procs.processes@[k].state is Running),
    {
        let e = &procs.processes[i];
        if is_instance_of(e.name.as_str(), name) {
            match e.state {
                ProcState::Running => {
                    return true;
                },
                ProcState::Stopped => {},
            }
        }
    }
    false
}

/// The names of the `n` instances of program `name`: `<name>_1` to `<name>_<n>`.
pub fn instance_names(name: &str, n: u32) -> (r: Vec<String>)
    ensures
        views(r@) == instance_names_spec(name@, n as nat),
{
    let mut out: Vec<String> = Vec::new();
    for i in 0..n
        invariant
            views(out@) =~= instance_names_spec(name@, i as nat),
    {
        let mut s = String::from_str(name);
        s.append("_");
        let k = decimal_text(i as u64 + 1);
        s.append(k.as_str());
        let ghost before = out@;
        out.push(s);
        proof {
            assert(views(out@) =~= views(before).push(s@));
        }
    }
    out
}

fn instance_status_line(e: &Instance) -> (r: String)
    ensures
        r@ == status_line(*e),
{
    let mut s = String::from_str("\n");
    s.append(e.name.as_str());
    s.append("       ");
    match e.pid {
        Some(p) => {
            let t = decimal_text(p as u64);
            s.append(t.as_str());
        },
        None => {
            s.append("N/A");
        },
    }
    s.append("       ");
    match e.state {
        ProcState::Running => {
            s.append("RUNNING");
        },
        ProcState::Stopped => {
            s.append("STOPPED");
        },
    }
    s.append("      ");
    match &e.start_time {
        Some(t) => {
            s.append(t.as_str());
        },
        None => {
            s.append("N/A");
        },
    }
    s.append("\n");
    s
}

/// The answer to `status`: one line per instance, with its process id, state and
/// start time, or "Nothing to display" for an empty table.
pub fn handle_status(procs: &Procs) -> (r: String)
    ensures
        r@ == status_report(procs.processes@),
{
    if procs.processes.len() == 0 {
        return String::from_str("Nothing to display");
    }
    let mut out = String::new();
    for i in 0..procs.processes.len()
        invariant
            out@ == status_lines(procs.processes@.subrange(0, i as int)),
    {
        proof {
            assert(procs.processes@.subrange(0, i + 1).drop_last() =~= procs.processes@.subrange(
                0,
                i as int,
            ));
        }
        let line = instance_status_line(&procs.processes[i]);
        out.append(line.as_str());
    }
    proof {
        assert(procs.processes@.subrange(0, procs.processes.len() as int) =~= procs.processes@);
    }
    out
}

} // verus!

verus! {

/// What stopping does for a name or an instance.
pub enum StopStep {
    /// No instance of the named program is in the table.
    Unknown(String),
    /// The instance holds no child: it is marked stopped.
    Idle(String),
    /// The instance was already dealt with earlier in the same request.
    Repeat(String),
    /// The instance's child, with this process id, is to be killed.
    Kill(String, u32),
}

/// How killing a child went.
pub enum KillOutcome {
    /// The child was killed and reaped.
    Stopped,
    /// The child was killed but could not be reaped.
    StillRunning,
    /// Killing failed with this error.
    KillFailed(String),
    /// The child could not be reached.
    LockFailed,
}

/// Instance `e` after it was stopped at `now`.
pub open spec fn stopped(e: Instance, now: String) -> Instance {
    Instance { name: e.name, state: ProcState::Stopped, pid: None, start_time: Some(now) }
}

/// An earlier name of the same request already selected instance `x`.
pub open spec fn claimed(x: Seq<char>, prev: Seq<String>) -> bool {
    exists|k: int| 0 <= k < prev.len() && instance_of(x, #[trigger] prev[k]@)
}

/// The step for one instance of the program being stopped.
pub open spec fn kill_step(e: Instance, prev: Seq<String>) -> StopStep {
    if claimed(e.name@, prev) {
        StopStep::Repeat(e.name)
    } else {
        match e.pid {
            Some(p) => StopStep::Kill(e.name, p),
            None => StopStep::Idle(e.name),
        }
    }
}

/// The steps for the instances of program `arg`, in table order.
pub open spec fn kill_steps(ps: Seq<Instance>, arg: Seq<char>, prev: Seq<String>) -> Seq<StopStep>
    decreases ps.len(),
{
    if ps.len() == 0 {
        seq![]
    } else {
        kill_steps(ps.drop_last(), arg, prev) + if instance_of(ps.last().name@, arg) {
            seq![kill_step(ps.last(), prev)]
        } else {
            seq![]
        }
    }
}

/// Some instance of program `arg` is in the table.
pub open spec fn any_match(ps: Seq<Instance>, arg: Seq<char>) -> bool {
    exists|i: int| 0 <= i < ps.len() && instance_of(#[trigger] ps[i].name@, arg)
}

/// The steps for stopping program `arg` after the names `prev`.
pub open spec fn stop_one_steps(ps: Seq<Instance>, arg: String, prev: Seq<String>) -> Seq<StopStep> {
    if any_match(ps, arg@) {
        kill_steps(ps, arg@, prev)
    } else {
        seq![StopStep::Unknown(arg)]
    }
}

/// The steps for stopping each program of `args` in turn.
pub open spec fn stop_steps(ps: Seq<Instance>, args: Seq<String>) -> Seq<StopStep>
    decreases args.len(),
{
    if args.len() == 0 {
        seq![]
    } else {
        stop_steps(ps, args.drop_last()) + stop_one_steps(ps, args.last(), args.drop_last())
    }
}

/// Entry `e` once step `s` went as `o` at `now`: an instance without a child,
/// or one whose child was killed and reaped, is stopped; any other entry stays
/// as it was.
pub open spec fn settle(e: Instance, s: StopStep, o: KillOutcome, now: String) -> Instance {
    match s {
        StopStep::Idle(n) => if e.name@ == n@ {
            stopped(e, now)
        } else {
            e
        },
        StopStep::Kill(n, _) => if e.name@ == n@ && o is Stopped {
            stopped(e, now)
        } else {
            e
        },
        _ => e,
    }
}

/// The table once the steps went as the outcomes at the same positions say.
pub open spec fn settle_all(
    ps: Seq<Instance>,
    steps: Seq<StopStep>,
    outcomes: Seq<KillOutcome>,
    now: String,
) -> Seq<Instance>
    decreases steps.len(),
{
    if steps.len() == 0 || outcomes.len() == 0 {
        ps
    } else {
        settle_all(ps, steps.drop_last(), outcomes.drop_last(), now).map_values(
            |e: Instance| settle(e, steps.last(), outcomes.last(), now),
        )
    }
}

/// The line reported for one step, given how its kill went (read only at a
/// `Kill` step).
pub open spec fn stop_line(s: StopStep, o: KillOutcome) -> Seq<char> {
    match s {
        StopStep::Unknown(n) => "Program "@ + n@ + " is not running\n"@,
        StopStep::Idle(n) => "Program "@ + n@ + " is not running\n"@,
        StopStep::Repeat(n) => "Program "@ + n@ + " is not running\n"@,
        StopStep::Kill(n, _) => match o {
            KillOutcome::Stopped => "Program "@ + n@ + " stopped.\n"@,
            KillOutcome::StillRunning => "Failed to stop program "@ + n@ + ": still running.\n"@,
            KillOutcome::KillFailed(e) => "Failed to stop program "@ + n@ + ": "@ + e@ + "\n"@,
            KillOutcome::LockFailed => "Failed to acquire lock to stop program "@ + n@ + "\n"@,
        },
    }
}

/// The report of a sequence of steps, line by line.
pub open spec fn stop_report_spec(steps: Seq<StopStep>, outcomes: Seq<KillOutcome>) -> Seq<char>
    decreases steps.len(),
{
    if steps.len() == 0 || outcomes.len() == 0 {
        seq![]
    } else {
        stop_report_spec(steps.drop_last(), outcomes.drop_last()) + stop_line(
            steps.last(),
            outcomes.last(),
        )
    }
}

fn is_claimed(x: &str, args: &Vec<String>, upto: usize) -> (r: bool)
    requires
        upto <= args.len(),
    ensures
        r == claimed(x@, args@.subrange(0, upto as int)),
{
    for k in 0..upto
        invariant
            upto <= args.len(),
            forall|j: int| 0 <= j < k ==> !instance_of(x@, #[trigger] args@[j]@),
    {
        if is_instance_of(x, args[k].as_str()) {
            proof {
                assert(args@.subrange(0, upto as int)[k as int] == args@[k as int]);
            }
            return true;
        }
    }
    proof {
        if claimed(x@, args@.subrange(0, upto as int)) {
            let j = choose|j: int|
                0 <= j < upto && instance_of(x@, #[trigger] args@.subrange(0, upto as int)[j]@);
            assert(args@.subrange(0, upto as int)[j] == args@[j]);
        }
    }
    false
}

fn stop_one(ps: &Vec<Instance>, args: &Vec<String>, i: usize) -> (r: Vec<StopStep>)
    requires
        i < args.len(),
    ensures
        r@ == stop_one_steps(ps@, args@[i as int], args@.subrange(0, i as int)),
{
    let arg = &args[i];
    let ghost prev = args@.subrange(0, i as int);
    let mut steps: Vec<StopStep> = Vec::new();
    let mut found = false;
    let n = ps.len();
    for j in 0..n
        invariant
            n == ps@.len(),
            i < args.len(),
            arg == args@[i as int],
            prev == args@.subrange(0, i as int),
            !found ==> steps@.len() == 0,
            steps@ == kill_steps(ps@.subrange(0, j as int), arg@, prev),
            found == any_match(ps@.subrange(0, j as int), arg@),
    {
        proof {
            assert(ps@.subrange(0, j + 1).drop_last() =~= ps@.subrange(0, j as int));
            assert(ps@.subrange(0, j + 1).last() == ps@[j as int]);
        }
        let ghost before = steps@;
        let e = &ps[j];
        if is_instance_of(e.name.as_str(), arg.as_str()) {
            let step = if is_claimed(e.name.as_str(), args, i) {
                StopStep::Repeat(e.name.clone())
            } else {
                match e.pid {
                    Some(p) => StopStep::Kill(e.name.clone(), p),
                    None => StopStep::Idle(e.name.clone()),
                }
            };
            steps.push(step);
            found = true;
            proof {
                assert(steps@ =~= before + seq![kill_step(ps@[j as int], prev)]);
                assert(ps@.subrange(0, j + 1)[j as int] == ps@[j as int]);
            }
        } else {
            proof {
                assert(steps@ =~= before + seq![]);
                if any_match(ps@.subrange(0, j + 1), arg@) {
                    let k = choose|k: int|
                        0 <= k < j + 1 && instance_of(#[trigger] ps@.subrange(0, j + 1)[k].name@, arg@);
                    assert(ps@.subrange(0, j as int)[k] == ps@.subrange(0, j + 1)[k]);
                }
                if found {
                    let k = choose|k: int|
                        0 <= k < j && instance_of(#[trigger] ps@.subrange(0, j as int)[k].name@, arg@);
                    assert(ps@.subrange(0, j as int)[k] == ps@.subrange(0, j + 1)[k]);
                }
            }
        }
    }
    proof {
        assert(ps@.subrange(0, n as int) =~= ps@);
    }
    if !found {
        steps.push(StopStep::Unknown(arg.clone()));
        proof {
            assert(steps@ =~= seq![StopStep::Unknown(*arg)]);
        }
    }
    steps
}

/// Plans the stop of each named program in turn: every instance of it
/// (`<name>_<n>`) gets a step, in table order, and a name without instances is
/// reported as not running. The table is not touched: `Procs::apply_stops`
/// records what the kills did.
pub fn stop_program_internal(args: &Vec<String>, procs: &Procs) -> (r: Vec<StopStep>)
    ensures
        r@ == stop_steps(procs.processes@, args@),
{
    let mut steps: Vec<StopStep> = Vec::new();
    for i in 0..args.len()
        invariant
            steps@ == stop_steps(procs.processes@, args@.subrange(0, i as int)),
    {
        proof {
            assert(args@.subrange(0, i + 1).drop_last() =~= args@.subrange(0, i as int));
            assert(args@.subrange(0, i + 1).last() == args@[i as int]);
        }
        let mut more = stop_one(&procs.processes, args, i);
        steps.append(&mut more);
    }
    proof {
        assert(args@.subrange(0, args.len() as int) =~= args@);
    }
    steps
}

impl Procs {
    /// Records what the steps of a stop did, given how each kill went (the
    /// outcome at the same position): instances without a child, and those
    /// whose child was killed and reaped, are marked stopped at `now` and lose
    /// their child; an instance whose kill failed keeps its state and child.
    pub fn apply_stops(&mut self, steps: &Vec<StopStep>, outcomes: &Vec<KillOutcome>, now: &String)
        requires
            old(self).wf(),
            steps.len() == outcomes.len(),
        ensures
            final(self).wf(),
            final(self).config == old(self).config,
            final(self).status == old(self).status,
            final(self).processes@ == settle_all(old(self).processes@, steps@, outcomes@, *now),
    {
        let ghost orig = self.processes@;
        for i in 0..steps.len()
            invariant
                steps.len() == outcomes.len(),
                self.wf(),
                self.config == old(self).config,
                self.status == old(self).status,
                orig == old(self).processes@,
                self.processes@ == settle_all(
                    orig,
                    steps@.subrange(0, i as int),
                    outcomes@.subrange(0, i as int),
                    *now,
                ),
        {
            proof {
                assert(steps@.subrange(0, i + 1).drop_last() =~= steps@.subrange(0, i as int));
                assert(outcomes@.subrange(0, i + 1).drop_last() =~= outcomes@.subrange(0, i as int));
                assert(steps@.subrange(0, i + 1).last() == steps@[i as int]);
                assert(outcomes@.subrange(0, i + 1).last() == outcomes@[i as int]);
            }
            self.settle_step(&steps[i], &outcomes[i], now);
        }
        proof {
            assert(steps@.subrange(0, steps.len() as int) =~= steps@);
            assert(outcomes@.subrange(0, steps.len() as int) =~= outcomes@);
        }
    }

    fn settle_step(&mut self, s: &StopStep, o: &KillOutcome, now: &String)
        requires
            old(self).wf(),
        ensures
            final(self).wf(),
            final(self).config == old(self).config,
            final(self).status == old(self).status,
            final(self).processes@ == old(self).processes@.map_values(
                |e: Instance| settle(e, *s, *o, *now),
            ),
    {
        let (target, act) = match s {
            StopStep::Idle(n) => (n, true),
            StopStep::Kill(n, _) => (n, matches!(o, KillOutcome::Stopped)),
            StopStep::Unknown(n) => (n, false),
            StopStep::Repeat(n) => (n, false),
        };
        let ghost orig = self.processes@;
        let n = self.processes.len();
        for j in 0..n
            invariant
                n == orig.len(),
                self.processes@.len() == n,
                orig == old(self).processes@,
                self.config == old(self).config,
                self.status == old(self).status,
                act == (match *s {
                    StopStep::Idle(_) => true,
                    StopStep::Kill(_, _) => *o is Stopped,
                    _ => false,
                }),
                target@ == (match *s {
                    StopStep::Idle(n) => n@,
                    StopStep::Kill(n, _) => n@,
                    StopStep::Unknown(n) => n@,
                    StopStep::Repeat(n) => n@,
                }),
                forall|k: int| 0 <= k < j ==> #[trigger] self.processes@[k] == settle(orig[k], *s, *o, *now),
                forall|k: int| j <= k < n ==> #[trigger] self.processes@[k] == orig[k],
                forall|k: int| 0 <= k < n ==> #[trigger] self.processes@[k].name == orig[k].name,
                forall|a: int, b: int| 0 <= a < b < n ==> orig[a].name@ != orig[b].name@,
        {
            if act && self.processes[j].name == *target {
                let fresh = Instance {
                    name: self.processes[j].name.clone(),
                    state: ProcState::Stopped,
                    pid: None,
                    start_time: Some(now.clone()),
                };
                self.processes.set(j, fresh);
            }
        }
        proof {
            assert(self.processes@ =~= orig.map_values(|e: Instance| settle(e, *s, *o, *now)));
        }
    }
}

fn stop_line_text(s: &StopStep, o: &KillOutcome) -> (r: String)
    ensures
        r@ == stop_line(*s, *o),
{
    match s {
        StopStep::Unknown(n) | StopStep::Idle(n) | StopStep::Repeat(n) => {
            let mut t = String::from_str("Program ");
            t.append(n.as_str());
            t.append(" is not running\n");
            t
        },
        StopStep::Kill(n, _) => match o {
            KillOutcome::Stopped => {
                let mut t = String::from_str("Program ");
                t.append(n.as_str());
                t.append(" stopped.\n");
                t
            },
            KillOutcome::StillRunning => {
                let mut t = String::from_str("Failed to stop program ");
                t.append(n.as_str());
                t.append(": still running.\n");
                t
            },
            KillOutcome::KillFailed(e) => {
                let mut t = String::from_str("Failed to stop program ");
                t.append(n.as_str());
                t.append(": ");
                t.append(e.as_str());
                t.append("\n");
                t
            },
            KillOutcome::LockFailed => {
                let mut t = String::from_str("Failed to acquire lock to stop program ");
                t.append(n.as_str());
                t.append("\n");
                t
            },
        },
    }
}

/// The report of the steps of a stop, given, at the same positions, how each
/// kill went (the outcome is read only at a `Kill` step).
pub fn stop_report(steps: &Vec<StopStep>, outcomes: &Vec<KillOutcome>) -> (r: String)
    requires
        steps.len() == outcomes.len(),
    ensures
        r@ == stop_report_spec(steps@, outcomes@),
{
    let mut out = String::new();
    for i in 0..steps.len()
        invariant
            steps.len() == outcomes.len(),
            out@ == stop_report_spec(
                steps@.subrange(0, i as int),
                outcomes@.subrange(0, i as int),
            ),
    {
        proof {
            assert(steps@.subrange(0, i + 1).drop_last() =~= steps@.subrange(0, i as int));
            assert(outcomes@.subrange(0, i + 1).drop_last() =~= outcomes@.subrange(0, i as int));
            assert(steps@.subrange(0, i + 1).last() == steps@[i as int]);
            assert(outcomes@.subrange(0, i + 1).last() == outcomes@[i as int]);
        }
        let line = stop_line_text(&steps[i], &outcomes[i]);
        out.append(line.as_str());
    }
    proof {
        assert(steps@.subrange(0, steps.len() as int) =~= steps@);
        assert(outcomes@.subrange(0, steps.len() as int) =~= outcomes@);
    }
    out
}

} // verus!

verus! {

/// Program instances to start: the program and the names of its instances.
pub struct Launch {
    pub program: String,
    pub instances: Vec<String>,
}

/// The program and its instance names.
pub open spec fn launch_views(ls: Seq<Launch>) -> Seq<(Seq<char>, Seq<Seq<char>>)> {
    ls.map_values(|l: Launch| (l.program@, views(l.instances@)))
}

/// The launch of every instance of the program named `name`.
pub open spec fn program_launch(cfg: Seq<(String, ProgramConfig)>, name: Seq<char>) -> (
    Seq<char>,
    Seq<Seq<char>>,
) {
    (name, instance_names_spec(name, numprocs_of(cfg, name) as nat))
}

/// What `start` (or `restart`) does for one name: its answer line, its launches,
/// and whether the program gets a start record. `start` leaves running programs
/// alone; `restart` does not look.
pub open spec fn start_step(
    cfg: Seq<(String, ProgramConfig)>,
    ps: Seq<Instance>,
    arg: Seq<char>,
    restart: bool,
) -> (Seq<char>, Seq<(Seq<char>, Seq<Seq<char>>)>, bool) {
    if !has_program(cfg, arg) {
        ("Program "@ + arg + " not found in configuration\n"@, seq![], false)
    } else if !restart && running_match(ps, arg) {
        ("Program "@ + arg + " is already running.\n"@, seq![], false)
    } else {
        (
            "Program "@ + arg + if restart {
                " restarted\n"@
            } else {
                " started\n"@
            },
            seq![program_launch(cfg, arg)],
            true,
        )
    }
}

/// The answer, the launches and the start records after starting each of `args`.
/// A started program gets a start record: with `fresh`, its earlier records are
/// dropped first (as `start` and `restart` do); without, the record is added
/// after those there are (as loading and reloading the configuration do).
pub open spec fn start_all(
    cfg: Seq<(String, ProgramConfig)>,
    ps: Seq<Instance>,
    st: Seq<Seq<char>>,
    args: Seq<Seq<char>>,
    restart: bool,
    fresh: bool,
) -> (Seq<char>, Seq<(Seq<char>, Seq<Seq<char>>)>, Seq<Seq<char>>)
    decreases args.len(),
{
    if args.len() == 0 {
        (seq![], seq![], st)
    } else {
        let (t, l, s) = start_all(cfg, ps, st, args.drop_last(), restart, fresh);
        let (t2, l2, reg) = start_step(cfg, ps, args.last(), restart);
        (
            t + t2,
            l + l2,
            if !reg {
                s
            } else if fresh {
                registered(s, args.last())
            } else {
                s.push(args.last())
            },
        )
    }
}

fn program_launch_exec(cfg: &Config, name: &String) -> (r: Option<Launch>)
    ensures
        match r {
            Some(l) => has_program(cfg.programs@, name@) && (l.program@, views(l.instances@))
                == program_launch(cfg.programs@, name@),
            None => !has_program(cfg.programs@, name@),
        },
{
    match cfg.find_program(name.as_str()) {
        None => None,
        Some(i) => {
            let instances = instance_names(name.as_str(), cfg.programs[i].1.numprocs);
            proof {
                let j = choose|j: int| first_match(cfg.programs@, name@, j);
                lemma_first_match_unique(cfg.programs@, name@, i as int, j);
            }
            Some(Launch { program: name.clone(), instances })
        },
    }
}

fn start_programs(procs: &mut Procs, args: &Vec<String>, restart: bool, fresh: bool) -> (r: (
    String,
    Vec<Launch>,
))
    ensures
        (r.0@, launch_views(r.1@), views(final(procs).status@)) == start_all(
            old(procs).config.programs@,
            old(procs).processes@,
            views(old(procs).status@),
            views(args@),
            restart,
            fresh,
        ),
        final(procs).config == old(procs).config,
        final(procs).processes == old(procs).processes,
{
    let mut text = String::new();
    let mut launches: Vec<Launch> = Vec::new();
    for i in 0..args.len()
        invariant
            procs.config == old(procs).config,
            procs.processes == old(procs).processes,
            (text@, launch_views(launches@), views(procs.status@)) == start_all(
                old(procs).config.programs@,
                old(procs).processes@,
                views(old(procs).status@),
                views(args@).subrange(0, i as int),
                restart,
                fresh,
            ),
    {
        proof {
            assert(views(args@).subrange(0, i + 1).drop_last() =~= views(args@).subrange(
                0,
                i as int,
            ));
            assert(views(args@).subrange(0, i + 1).last() == args@[i as int]@);
        }
        let arg = &args[i];
        let ghost before = launches@;
        let ghost text_before = text@;
        match program_launch_exec(&procs.config, arg) {
            None => {
                text.append("Program ");
                text.append(arg.as_str());
                text.append(" not found in configuration\n");
                proof {
                    assert(launch_views(launches@) =~= launch_views(before) + seq![]);
                }
            },
            Some(l) => {
                if !restart && is_program_running(arg.as_str(), procs) {
                    text.append("Program ");
                    text.append(arg.as_str());
                    text.append(" is already running.\n");
                    proof {
                        assert(launch_views(launches@) =~= launch_views(before) + seq![]);
                    }
                } else {
                    if fresh {
                        procs.register_status(arg.as_str());
                    } else {
                        procs.add_status(arg.as_str());
                    }
                    text.append("Program ");
                    text.append(arg.as_str());
                    if restart {
                        text.append(" restarted\n");
                    } else {
                        text.append(" started\n");
                    }
                    let ghost lv = (l.program@, views(l.instances@));
                    launches.push(l);
                    proof {
                        assert(launch_views(launches@) =~= launch_views(before) + seq![lv]);
                    }
                }
            },
        }
        proof {
            assert(text@ =~= text_before + start_step(
                old(procs).config.programs@,
                old(procs).processes@,
                args@[i as int]@,
                restart,
            ).0);
        }
    }
    proof {
        assert(views(args@).subrange(0, args.len() as int) =~= views(args@));
    }
    (text, launches)
}

} // verus!

verus! {

/// What the daemon does for one request: the children to kill, whether their
/// report opens the answer, the rest of the answer, the instances to start, and
/// whether the daemon shuts down once it has answered.
pub struct Reply {
    pub stops: Vec<StopStep>,
    pub report_stops: bool,
    pub text: String,
    pub launches: Vec<Launch>,
    pub shutdown: bool,
}

/// The requests the daemon serves.
pub enum Request {
    Start,
    Stop,
    Restart,
    Status,
    Reload,
}

/// The request named by a command word; `None` for any other word.
pub open spec fn request_of(w: Seq<char>) -> Option<Request> {
    if w == "start"@ {
        Some(Request::Start)
    } else if w == "stop"@ {
        Some(Request::Stop)
    } else if w == "restart"@ {
        Some(Request::Restart)
    } else if w == "status"@ {
        Some(Request::Status)
    } else if w == "reload"@ {
        Some(Request::Reload)
    } else {
        None
    }
}

/// The request of a command received by the daemon.
pub fn dispatch(cmd: &Command) -> (r: Option<Request>)
    ensures
        r == request_of(cmd.cmd@),
{
    if same_text(&cmd.cmd, "start") {
        Some(Request::Start)
    } else if same_text(&cmd.cmd, "stop") {
        Some(Request::Stop)
    } else if same_text(&cmd.cmd, "restart") {
        Some(Request::Restart)
    } else if same_text(&cmd.cmd, "status") {
        Some(Request::Status)
    } else if same_text(&cmd.cmd, "reload") {
        Some(Request::Reload)
    } else {
        None
    }
}

/// The kills of a shutdown: every instance that holds a child, in table order.
pub open spec fn shutdown_steps(ps: Seq<Instance>) -> Seq<StopStep>
    decreases ps.len(),
{
    if ps.len() == 0 {
        seq![]
    } else {
        shutdown_steps(ps.drop_last()) + match ps.last().pid {
            Some(p) => seq![StopStep::Kill(ps.last().name, p)],
            None => seq![],
        }
    }
}

fn shutdown_kills(procs: &Procs) -> (r: Vec<StopStep>)
    ensures
        r@ == shutdown_steps(procs.processes@),
{
    let mut steps: Vec<StopStep> = Vec::new();
    for i in 0..procs.processes.len()
        invariant
            steps@ == shutdown_steps(procs.processes@.subrange(0, i as int)),
    {
        proof {
            assert(procs.processes@.subrange(0, i + 1).drop_last() =~= procs.processes@.subrange(
                0,
                i as int,
            ));
            assert(procs.processes@.subrange(0, i + 1).last() == procs.processes@[i as int]);
        }
        let ghost before = steps@;
        let e = &procs.processes[i];
        match e.pid {
            Some(p) => {
                steps.push(StopStep::Kill(e.name.clone(), p));
                proof {
                    assert(steps@ =~= before + seq![StopStep::Kill(e.name, p)]);
                }
            },
            None => {
                proof {
                    assert(steps@ =~= before + seq![]);
                }
            },
        }
    }
    proof {
        assert(procs.processes@.subrange(0, procs.processes.len() as int) =~= procs.processes@);
    }
    steps
}

/// `start`: each named program that is configured and not running is started.
pub fn handle_start(args: &Vec<String>, procs: &mut Procs) -> (r: Reply)
    ensures
        r.stops@.len() == 0,
        !r.report_stops,
        !r.shutdown,
        final(procs).config == old(procs).config,
        final(procs).processes == old(procs).processes,
        args.len() == 0 ==> r.text@ == "No program specified to start"@ && r.launches@.len() == 0
            && final(procs).status == old(procs).status,
        args.len() > 0 ==> (r.text@, launch_views(r.launches@), views(final(procs).status@))
            == start_all(
            old(procs).config.programs@,
            old(procs).processes@,
            views(old(procs).status@),
            views(args@),
            false,
            true,
        ),
{
    if args.len() == 0 {
        return Reply {
            stops: Vec::new(),
            report_stops: false,
            text: String::from_str("No program specified to start"),
            launches: Vec::new(),
            shutdown: false,
        };
    }
    let (text, launches) = start_programs(procs, args, false, true);
    Reply { stops: Vec::new(), report_stops: false, text, launches, shutdown: false }
}

/// The arguments of a `stop` that stops the daemon itself: none, or `daemon`.
pub open spec fn stops_daemon(args: Seq<String>) -> bool {
    args.len() == 0 || (args.len() == 1 && args[0]@ == "daemon"@)
}

/// `stop`: with program names, plans the stop of their instances and reports on
/// each; with none, or with `daemon` alone, answers "Quit" and shuts the daemon
/// down, killing every child.
pub fn handle_stop(args: &Vec<String>, procs: &Procs) -> (r: Reply)
    ensures
        r.launches@.len() == 0,
        stops_daemon(args@) ==> {
            &&& r.shutdown
            &&& !r.report_stops
            &&& r.text@ == "Quit"@
            &&& r.stops@ == shutdown_steps(procs.processes@)
        },
        !stops_daemon(args@) ==> {
            &&& !r.shutdown
            &&& r.report_stops
            &&& r.text@ == Seq::<char>::empty()
            &&& r.stops@ == stop_steps(procs.processes@, args@)
        },
{
    if args.len() == 0 || (args.len() == 1 && same_text(&args[0], "daemon")) {
        let stops = shutdown_kills(procs);
        return Reply {
            stops,
            report_stops: false,
            text: String::from_str("Quit"),
            launches: Vec::new(),
            shutdown: true,
        };
    }
    let stops = stop_program_internal(args, procs);
    Reply { stops, report_stops: true, text: String::new(), launches: Vec::new(), shutdown: false }
}

/// `restart`: plans the stop of the named programs, then starts each one that is
/// configured.
pub fn handle_restart(args: &Vec<String>, procs: &mut Procs) -> (r: Reply)
    ensures
        final(procs).config == old(procs).config,
        final(procs).processes == old(procs).processes,
        !r.shutdown,
        args.len() == 0 ==> {
            &&& r.text@ == "No program specified to restart"@
            &&& !r.report_stops
            &&& r.stops@.len() == 0
            &&& r.launches@.len() == 0
            &&& final(procs).status == old(procs).status
        },
        args.len() > 0 ==> {
            &&& r.report_stops
            &&& r.stops@ == stop_steps(old(procs).processes@, args@)
            &&& (r.text@, launch_views(r.launches@), views(final(procs).status@)) == start_all(
                old(procs).config.programs@,
                old(procs).processes@,
                views(old(procs).status@),
                views(args@),
                true,
                true,
            )
        },
{
    if args.len() == 0 {
        return Reply {
            stops: Vec::new(),
            report_stops: false,
            text: String::from_str("No program specified to restart"),
            launches: Vec::new(),
            shutdown: false,
        };
    }
    let stops = stop_program_internal(args, procs);
    let (text, launches) = start_programs(procs, args, true, true);
    Reply { stops, report_stops: true, text, launches, shutdown: false }
}

/// The table, the start records and the stop steps after a reload stopped the
/// programs `names` in turn, dropping each one's records and instances.
pub open spec fn reload_stops(ps: Seq<Instance>, st: Seq<Seq<char>>, names: Seq<String>) -> (
    Seq<Instance>,
    Seq<Seq<char>>,
    Seq<StopStep>,
)
    decreases names.len(),
{
    if names.len() == 0 {
        (ps, st, seq![])
    } else {
        let (p1, s1, k1) = reload_stops(ps, st, names.drop_last());
        let n = names.last();
        (drop_instances(p1, n@), without(s1, n@), k1 + stop_one_steps(p1, n, seq![]))
    }
}

/// The names of the programs that start with the daemon, in order.
pub open spec fn autostart_names(cfg: Seq<(String, ProgramConfig)>) -> Seq<Seq<char>>
    decreases cfg.len(),
{
    if cfg.len() == 0 {
        seq![]
    } else {
        autostart_names(cfg.drop_last()) + if cfg.last().1.autostart {
            seq![cfg.last().0@]
        } else {
            seq![]
        }
    }
}

/// `reload`: programs the new configuration dropped are stopped and forgotten
/// (their start records and every instance entry go), the new configuration
/// takes over, and the programs it adds (or newly starts with the daemon) are
/// started. The answer is "Configuration reloaded".
pub fn handle_reload(procs: &mut Procs, new_config: Config) -> (r: Reply)
    requires
        old(procs).wf(),
    ensures
        final(procs).wf(),
        final(procs).config == new_config,
        !r.shutdown,
        !r.report_stops,
        r.text@ == "Configuration reloaded"@,
        ({
            let (p1, s1, k) = reload_stops(
                old(procs).processes@,
                views(old(procs).status@),
                crate::config::removed_keys(old(procs).config.programs@, new_config.programs@),
            );
            let (_t, l, s2) = start_all(
                new_config.programs@,
                p1,
                s1,
                views(crate::config::started_keys(old(procs).config.programs@, new_config.programs@)),
                true,
                false,
            );
            &&& r.stops@ == k
            &&& final(procs).processes@ == p1
            &&& views(final(procs).status@) == s2
            &&& launch_views(r.launches@) == l
        }),
{
    let plan = reload_plan(&procs.config, &new_config);
    let mut stops: Vec<StopStep> = Vec::new();
    for i in 0..plan.to_stop.len()
        invariant
            procs.wf(),
            procs.config == old(procs).config,
            (procs.processes@, views(procs.status@), stops@) == reload_stops(
                old(procs).processes@,
                views(old(procs).status@),
                plan.to_stop@.subrange(0, i as int),
            ),
    {
        proof {
            assert(plan.to_stop@.subrange(0, i + 1).drop_last() =~= plan.to_stop@.subrange(
                0,
                i as int,
            ));
            assert(plan.to_stop@.subrange(0, i + 1).last() == plan.to_stop@[i as int]);
        }
        let single: Vec<String> = vec![plan.to_stop[i].clone()];
        let mut more = stop_one(&procs.processes, &single, 0);
        proof {
            assert(single@.subrange(0, 0) =~= Seq::<String>::empty());
        }
        stops.append(&mut more);
        procs.unregister_status(plan.to_stop[i].as_str());
        procs.remove_instances(plan.to_stop[i].as_str());
    }
    proof {
        assert(plan.to_stop@.subrange(0, plan.to_stop.len() as int) =~= plan.to_stop@);
    }
    procs.config = new_config;
    let (_text, launches) = start_programs(procs, &plan.to_start, true, false);
    Reply {
        stops,
        report_stops: false,
        text: String::from_str("Configuration reloaded"),
        launches,
        shutdown: false,
    }
}

/// Takes a configuration over and starts the programs that start with the
/// daemon, adding a start record for each after those there are.
pub fn load_config(procs: &mut Procs, config: Config) -> (r: Vec<Launch>)
    ensures
        final(procs).config == config,
        final(procs).processes == old(procs).processes,
        ({
            let (_t, l, s) = start_all(
                config.programs@,
                old(procs).processes@,
                views(old(procs).status@),
                autostart_names(config.programs@),
                true,
                false,
            );
            &&& launch_views(r@) == l
            &&& views(final(procs).status@) == s
        }),
{
    procs.config = config;
    let mut names: Vec<String> = Vec::new();
    for i in 0..procs.config.programs.len()
        invariant
            views(names@) == autostart_names(procs.config.programs@.subrange(0, i as int)),
    {
        proof {
            assert(procs.config.programs@.subrange(0, i + 1).drop_last()
                =~= procs.config.programs@.subrange(0, i as int));
            assert(procs.config.programs@.subrange(0, i + 1).last() == procs.config.programs@[i as int]);
        }
        let ghost before = names@;
        if procs.config.programs[i].1.autostart {
            names.push(procs.config.programs[i].0.clone());
            proof {
                assert(views(names@) =~= views(before) + seq![procs.config.programs@[i as int].0@]);
            }
        } else {
            proof {
                assert(views(names@) =~= views(before) + seq![]);
            }
        }
    }
    proof {
        assert(procs.config.programs@.subrange(0, procs.config.programs.len() as int)
            =~= procs.config.programs@);
    }
    let (_text, launches) = start_programs(procs, &names, true, false);
    launches
}

/// The daemon's answer once the kills of `reply` were tried, their outcomes at
/// the same positions as its steps.
pub fn answer_text(reply: &Reply, outcomes: &Vec<KillOutcome>) -> (r: String)
    requires
        outcomes.len() == reply.stops.len(),
    ensures
        r@ == (if reply.report_stops {
            stop_report_spec(reply.stops@, outcomes@)
        } else {
            Seq::<char>::empty()
        }) + reply.text@,
{
    let mut out = if reply.report_stops {
        stop_report(&reply.stops, outcomes)
    } else {
        String::new()
    };
    out.append(reply.text.as_str());
    out
}

} // verus!
