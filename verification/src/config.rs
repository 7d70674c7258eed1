use vstd::prelude::*;

use crate::text::{split_whitespace, split_ws, strip, trim, views, ws_pred};

verus! {

/// How one program of the configuration file is run.
pub struct ProgramConfig {
    /// The command line that starts the program.
    pub cmd: String,
    /// How many instances to run.
    pub numprocs: u32,
    pub umask: String,
    pub workingdir: String,
    /// Whether the program starts with the daemon.
    pub autostart: bool,
    pub autorestart: String,
    pub exitcodes: Vec<i32>,
    pub startretries: u32,
    pub starttime: u32,
    pub stopsignal: String,
    pub stoptime: u32,
    pub stdout: Option<String>,
    pub stderr: Option<String>,
    /// Extra environment variables, as name and value.
    pub env: Option<Vec<(String, String)>>,
}

/// The daemon's configuration: each program under its name.
pub struct Config {
    pub programs: Vec<(String, ProgramConfig)>,
}

/// The names of the programs, in order.
pub open spec fn names(progs: Seq<(String, ProgramConfig)>) -> Seq<Seq<char>> {
    progs.map_values(|e: (String, ProgramConfig)| e.0@)
}

/// `i` is the first position of a program named `name`.
pub open spec fn first_match(progs: Seq<(String, ProgramConfig)>, name: Seq<char>, i: int) -> bool {
    &&& 0 <= i < progs.len()
    &&& progs[i].0@ == name
    &&& forall|k: int| 0 <= k < i ==> progs[k].0@ != name
}

/// Some program is named `name`.
pub open spec fn has_program(progs: Seq<(String, ProgramConfig)>, name: Seq<char>) -> bool {
    exists|i: int| 0 <= i < progs.len() && progs[i].0@ == name
}

/// The program named `name` starts with the daemon.
pub open spec fn autostart_of(progs: Seq<(String, ProgramConfig)>, name: Seq<char>) -> bool {
    exists|i: int| first_match(progs, name, i) && progs[i].1.autostart
}

impl Config {
    /// No two programs share a name (as with the keys of the file's map).
    pub open spec fn wf(&self) -> bool {
        forall|i: int, j: int|
            0 <= i < j < self.programs.len() ==> self.programs[i].0@ != self.programs[j].0@
    }

    /// A configuration without programs.
    pub fn new() -> (r: Config)
        ensures
            r.programs@ == Seq::<(String, ProgramConfig)>::empty(),
            r.wf(),
    {
        Config { programs: Vec::new() }
    }

    /// The position of the program named `name`, if there is one.
    pub fn find_program(&self, name: &str) -> (r: Option<usize>)
        ensures
            match r {
                Some(i) => first_match(self.programs@, name@, i as int),
                None => !has_program(self.programs@, name@),
            },
    {
        let target = String::from_str(name);
        for i in 0..self.programs.len()
            invariant
                target@ == name@,
                forall|k: int| 0 <= k < i ==> self.programs@[k].0@ != name@,
        {
            if self.programs[i].0 == target {
                return Some(i);
            }
        }
        None
    }
}

/// The default number of instances.
pub fn default_numprocs() -> (r: u32)
    ensures
        r == 1,
{
    1
}

/// The default umask.
pub fn default_umask() -> (r: String)
    ensures
        r@ == "022"@,
{
    String::from_str("022")
}

/// The default working directory.
pub fn default_workingdir() -> (r: String)
    ensures
        r@ == "/tmp"@,
{
    String::from_str("/tmp")
}

/// Programs start with the daemon unless told otherwise.
pub fn default_autostart() -> (r: bool)
    ensures
        r,
{
    true
}

/// The default restart policy.
pub fn default_autorestart() -> (r: String)
    ensures
        r@ == "unexpected"@,
{
    String::from_str("unexpected")
}

/// The default expected exit codes.
pub fn default_exitcodes() -> (r: Vec<i32>)
    ensures
        r@ == seq![0i32],
{
    let mut v: Vec<i32> = Vec::new();
    v.push(0);
    proof {
        assert(v@ =~= seq![0i32]);
    }
    v
}

/// The default number of start retries.
pub fn default_startretries() -> (r: u32)
    ensures
        r == 3,
{
    3
}

/// The default number of seconds a program must stay up to count as started.
pub fn default_starttime() -> (r: u32)
    ensures
        r == 1,
{
    1
}

/// The default stop signal.
pub fn default_stopsignal() -> (r: String)
    ensures
        r@ == "TERM"@,
{
    String::from_str("TERM")
}

/// The default number of seconds to wait for a program to stop.
pub fn default_stoptime() -> (r: u32)
    ensures
        r == 10,
{
    10
}

/// The program's settings after `check_config`: its command line and working
/// directory without surrounding whitespace, the rest as it was.
pub open spec fn checked_program(a: ProgramConfig, b: ProgramConfig) -> bool {
    &&& b.cmd@ == strip(a.cmd@, ws_pred())
    &&& b.workingdir@ == strip(a.workingdir@, ws_pred())
    &&& b.numprocs == a.numprocs
    &&& b.umask == a.umask
    &&& b.autostart == a.autostart
    &&& b.autorestart == a.autorestart
    &&& b.exitcodes == a.exitcodes
    &&& b.startretries == a.startretries
    &&& b.starttime == a.starttime
    &&& b.stopsignal == a.stopsignal
    &&& b.stoptime == a.stoptime
    &&& b.stdout == a.stdout
    &&& b.stderr == a.stderr
    &&& b.env == a.env
}

/// Cleans the configuration that was read: each program's command line and
/// working directory lose their surrounding whitespace.
pub fn check_config(config: &mut Config)
    ensures
        final(config).programs.len() == old(config).programs.len(),
        forall|i: int|
            #![trigger final(config).programs[i]]
            0 <= i < old(config).programs.len() ==> {
                &&& final(config).programs[i].0 == old(config).programs[i].0
                &&& checked_program(old(config).programs[i].1, final(config).programs[i].1)
            },
{
    let ghost orig = config.programs@;
    let mut rest: Vec<(String, ProgramConfig)> = Vec::new();
    std::mem::swap(&mut rest, &mut config.programs);
    let mut out: Vec<(String, ProgramConfig)> = Vec::new();
    while rest.len() > 0
        invariant
            out.len() + rest.len() == orig.len(),
            rest@ == orig.subrange(out.len() as int, orig.len() as int),
            forall|i: int|
                #![trigger out@[i]]
                0 <= i < out.len() ==> {
                    &&& out@[i].0 == orig[i].0
                    &&& checked_program(orig[i].1, out@[i].1)
                },
        decreases rest.len(),
    {
        let (name, mut prog) = rest.remove(0);
        let ghost before = prog;
        prog.cmd = trim(prog.cmd.as_str());
        prog.workingdir = trim(prog.workingdir.as_str());
        proof {
            assert(before == orig[out.len() as int].1);
        }
        out.push((name, prog));
        proof {
            assert(rest@ =~= orig.subrange(out.len() as int, orig.len() as int));
        }
    }
    config.programs = out;
}

/// Names of the programs of `old` that `new` no longer has, in order.
pub open spec fn removed_programs(
    old: Seq<(String, ProgramConfig)>,
    new: Seq<(String, ProgramConfig)>,
) -> Seq<Seq<char>>
    decreases old.len(),
{
    if old.len() == 0 {
        seq![]
    } else {
        removed_programs(old.drop_last(), new) + if has_program(new, old.last().0@) {
            seq![]
        } else {
            seq![old.last().0@]
        }
    }
}

/// A program of the new configuration that a reload starts: it starts with the
/// daemon, and the old configuration did not have it or did not start it.
pub open spec fn starts_on_reload(old: Seq<(String, ProgramConfig)>, e: (String, ProgramConfig)) -> bool {
    e.1.autostart && (!has_program(old, e.0@) || !autostart_of(old, e.0@))
}

/// Names of the programs of `new` that a reload from `old` starts, in order.
pub open spec fn started_programs(
    old: Seq<(String, ProgramConfig)>,
    new: Seq<(String, ProgramConfig)>,
) -> Seq<Seq<char>>
    decreases new.len(),
{
    if new.len() == 0 {
        seq![]
    } else {
        started_programs(old, new.drop_last()) + if starts_on_reload(old, new.last()) {
            seq![new.last().0@]
        } else {
            seq![]
        }
    }
}

/// The keys of the programs of `old` that `new` no longer has, in order.
pub open spec fn removed_keys(
    old: Seq<(String, ProgramConfig)>,
    new: Seq<(String, ProgramConfig)>,
) -> Seq<String>
    decreases old.len(),
{
    if old.len() == 0 {
        seq![]
    } else {
        removed_keys(old.drop_last(), new) + if has_program(new, old.last().0@) {
            seq![]
        } else {
            seq![old.last().0]
        }
    }
}

/// The keys of the programs of `new` that a reload from `old` starts, in order.
pub open spec fn started_keys(
    old: Seq<(String, ProgramConfig)>,
    new: Seq<(String, ProgramConfig)>,
) -> Seq<String>
    decreases new.len(),
{
    if new.len() == 0 {
        seq![]
    } else {
        started_keys(old, new.drop_last()) + if starts_on_reload(old, new.last()) {
            seq![new.last().0]
        } else {
            seq![]
        }
    }
}

pub proof fn lemma_keys_views(old: Seq<(String, ProgramConfig)>, new: Seq<(String, ProgramConfig)>)
    ensures
        crate::text::views(removed_keys(old, new)) == removed_programs(old, new),
        crate::text::views(started_keys(old, new)) == started_programs(old, new),
    decreases old.len() + new.len(),
{
    if old.len() > 0 {
        lemma_keys_views(old.drop_last(), new);
        assert(crate::text::views(removed_keys(old, new)) =~= removed_programs(old, new));
    }
    if new.len() > 0 {
        lemma_keys_views(old, new.drop_last());
        assert(crate::text::views(started_keys(old, new)) =~= started_programs(old, new));
    }
}

/// What a reload changes: the programs to stop and the programs to start.
pub struct ReloadPlan {
    pub to_stop: Vec<String>,
    pub to_start: Vec<String>,
}

fn autostart_in(progs: &Config, name: &str) -> (r: (bool, bool))
    ensures
        r.0 == has_program(progs.programs@, name@),
        r.1 == autostart_of(progs.programs@, name@),
{
    match progs.find_program(name) {
        Some(i) => (true, progs.programs[i].1.autostart),
        None => (false, false),
    }
}

/// Compares the running configuration with the one read again: programs that
/// disappeared are stopped, and programs that start with the daemon are started
/// if they are new or did not start with it before.
pub fn reload_plan(old: &Config, new: &Config) -> (p: ReloadPlan)
    ensures
        p.to_stop@ == removed_keys(old.programs@, new.programs@),
        p.to_start@ == started_keys(old.programs@, new.programs@),
        crate::text::views(p.to_stop@) == removed_programs(old.programs@, new.programs@),
        crate::text::views(p.to_start@) == started_programs(old.programs@, new.programs@),
{
    let mut to_stop: Vec<String> = Vec::new();
    for i in 0..old.programs.len()
        invariant
            to_stop@ == removed_keys(old.programs@.subrange(0, i as int), new.programs@),
    {
        proof {
            assert(old.programs@.subrange(0, i + 1).drop_last() =~= old.programs@.subrange(
                0,
                i as int,
            ));
        }
        let ghost before = to_stop@;
        let name = &old.programs[i].0;
        if new.find_program(name.as_str()).is_none() {
            to_stop.push(name.clone());
            proof {
                assert(to_stop@ =~= before.push(*name));
            }
        } else {
            proof {
                assert(to_stop@ =~= before + seq![]);
            }
        }
    }
    proof {
        assert(old.programs@.subrange(0, old.programs.len() as int) =~= old.programs@);
    }
    let mut to_start: Vec<String> = Vec::new();
    for i in 0..new.programs.len()
        invariant
            to_start@ == started_keys(old.programs@, new.programs@.subrange(0, i as int)),
    {
        proof {
            assert(new.programs@.subrange(0, i + 1).drop_last() =~= new.programs@.subrange(
                0,
                i as int,
            ));
        }
        let ghost before = to_start@;
        let name = &new.programs[i].0;
        let (known, was_auto) = autostart_in(old, name.as_str());
        if new.programs[i].1.autostart && (!known || !was_auto) {
            to_start.push(name.clone());
            proof {
                assert(to_start@ =~= before.push(*name));
            }
        } else {
            proof {
                assert(to_start@ =~= before + seq![]);
            }
        }
    }
    proof {
        assert(new.programs@.subrange(0, new.programs.len() as int) =~= new.programs@);
        lemma_keys_views(old.programs@, new.programs@);
    }
    ReloadPlan { to_stop, to_start }
}

} // verus!

verus! {

proof fn lemma_removed_members(old: Seq<(String, ProgramConfig)>, new: Seq<(String, ProgramConfig)>, x: Seq<char>)
    ensures
        removed_programs(old, new).contains(x) <==> (has_program(old, x) && !has_program(new, x)),
    decreases old.len(),
{
    if old.len() > 0 {
        let init = old.drop_last();
        lemma_removed_members(init, new, x);
        let tail = if has_program(new, old.last().0@) {
            Seq::<Seq<char>>::empty()
        } else {
            seq![old.last().0@]
        };
        let r = removed_programs(init, new) + tail;
        assert(removed_programs(old, new) == r);
        if r.contains(x) {
            let k = choose|k: int| 0 <= k < r.len() && r[k] == x;
            if k < removed_programs(init, new).len() {
                assert(removed_programs(init, new)[k] == x);
                let j = choose|j: int| 0 <= j < init.len() && init[j].0@ == x;
                assert(old[j] == init[j]);
            } else {
                assert(old[old.len() - 1].0@ == x);
            }
        }
        if has_program(old, x) && !has_program(new, x) {
            let j = choose|j: int| 0 <= j < old.len() && old[j].0@ == x;
            if j < old.len() - 1 {
                assert(init[j] == old[j]);
                let k = choose|k: int| 0 <= k < removed_programs(init, new).len() && removed_programs(init, new)[k] == x;
                assert(r[k] == x);
            } else {
                assert(r[r.len() - 1] == x);
            }
        }
    }
}

proof fn lemma_started_members(old: Seq<(String, ProgramConfig)>, new: Seq<(String, ProgramConfig)>, x: Seq<char>)
    ensures
        started_programs(old, new).contains(x) <==> exists|i: int|
            0 <= i < new.len() && #[trigger] new[i].0@ == x && starts_on_reload(old, new[i]),
    decreases new.len(),
{
    if new.len() > 0 {
        let init = new.drop_last();
        lemma_started_members(old, init, x);
        let tail = if starts_on_reload(old, new.last()) {
            seq![new.last().0@]
        } else {
            Seq::<Seq<char>>::empty()
        };
        let r = started_programs(old, init) + tail;
        assert(started_programs(old, new) == r);
        if r.contains(x) {
            let k = choose|k: int| 0 <= k < r.len() && r[k] == x;
            if k < started_programs(old, init).len() {
                assert(started_programs(old, init)[k] == x);
                let j = choose|j: int| 0 <= j < init.len() && #[trigger] init[j].0@ == x && starts_on_reload(old, init[j]);
                assert(new[j] == init[j]);
            } else {
                assert(new[new.len() - 1].0@ == x);
            }
        }
        if exists|i: int| 0 <= i < new.len() && #[trigger] new[i].0@ == x && starts_on_reload(old, new[i]) {
            let j = choose|j: int| 0 <= j < new.len() && #[trigger] new[j].0@ == x && starts_on_reload(old, new[j]);
            if j < new.len() - 1 {
                assert(init[j] == new[j]);
                let k = choose|k: int| 0 <= k < started_programs(old, init).len() && started_programs(old, init)[k] == x;
                assert(r[k] == x);
            } else {
                assert(r[r.len() - 1] == x);
            }
        }
    }
}

/// A reload stops exactly the programs that the new configuration dropped, and
/// starts only programs of the new configuration that start with the daemon and
/// were absent or not started with it before; so no program is both stopped and
/// started by one reload.
pub proof fn lemma_reload_plan_members(old: Config, new: Config, x: Seq<char>)
    ensures
        removed_programs(old.programs@, new.programs@).contains(x) <==> (has_program(
            old.programs@,
            x,
        ) && !has_program(new.programs@, x)),
        started_programs(old.programs@, new.programs@).contains(x) <==> exists|i: int|
            0 <= i < new.programs@.len() && #[trigger] new.programs@[i].0@ == x
                && new.programs@[i].1.autostart && (!has_program(old.programs@, x)
                || !autostart_of(old.programs@, x)),
        !(removed_programs(old.programs@, new.programs@).contains(x) && started_programs(
            old.programs@,
            new.programs@,
        ).contains(x)),
{
    lemma_removed_members(old.programs@, new.programs@, x);
    lemma_started_members(old.programs@, new.programs@, x);
}

proof fn lemma_started_none_same(c: Seq<(String, ProgramConfig)>, n: int)
    requires
        0 <= n <= c.len(),
        forall|i: int, j: int| 0 <= i < j < c.len() ==> c[i].0@ != c[j].0@,
    ensures
        started_programs(c, c.subrange(0, n)) =~= Seq::<Seq<char>>::empty(),
    decreases n,
{
    if n > 0 {
        assert(c.subrange(0, n).drop_last() =~= c.subrange(0, n - 1));
        lemma_started_none_same(c, n - 1);
        let e = c[n - 1];
        assert(c.subrange(0, n).last() == e);
        assert(first_match(c, e.0@, n - 1));
        if has_program(c, e.0@) && e.1.autostart {
            assert(autostart_of(c, e.0@));
        }
    }
}

/// Reloading the configuration that is already running stops nothing and
/// starts nothing.
pub proof fn lemma_reload_same_config(c: Config)
    requires
        c.wf(),
    ensures
        removed_programs(c.programs@, c.programs@) =~= Seq::<Seq<char>>::empty(),
        started_programs(c.programs@, c.programs@) =~= Seq::<Seq<char>>::empty(),
{
    let p = c.programs@;
    assert forall|x: Seq<char>| !removed_programs(p, p).contains(x) by {
        lemma_removed_members(p, p, x);
    }
    if removed_programs(p, p).len() > 0 {
        assert(removed_programs(p, p).contains(removed_programs(p, p)[0]));
    }
    lemma_started_none_same(p, p.len() as int);
    assert(p.subrange(0, p.len() as int) =~= p);
}

} // verus!

verus! {

/// There is one first position of a name.
pub proof fn lemma_first_match_unique(progs: Seq<(String, ProgramConfig)>, name: Seq<char>, i: int, j: int)
    requires
        first_match(progs, name, i),
        first_match(progs, name, j),
    ensures
        i == j,
{
}

/// A program named `name` has a first position.
pub proof fn lemma_first_match_exists(progs: Seq<(String, ProgramConfig)>, name: Seq<char>)
    requires
        has_program(progs, name),
    ensures
        exists|i: int| first_match(progs, name, i),
    decreases progs.len(),
{
    if progs[0].0@ == name {
        assert(first_match(progs, name, 0));
    } else {
        let j = choose|j: int| 0 <= j < progs.len() && progs[j].0@ == name;
        assert(progs.drop_first()[j - 1] == progs[j]);
        lemma_first_match_exists(progs.drop_first(), name);
        let k = choose|k: int| first_match(progs.drop_first(), name, k);
        assert forall|m: int| 0 <= m < k + 1 implies progs[m].0@ != name by {
            if m > 0 {
                assert(progs[m] == progs.drop_first()[m - 1]);
            }
        }
        assert(first_match(progs, name, k + 1));
    }
}

/// The number of instances of the program named `name`.
pub open spec fn numprocs_of(progs: Seq<(String, ProgramConfig)>, name: Seq<char>) -> u32 {
    progs[choose|i: int| first_match(progs, name, i)].1.numprocs
}

} // verus!

verus! {

/// A program's command line split into the program to run and its arguments
/// (whitespace separates them); `None` when the line holds no word.
pub fn command_line(cmd: &str) -> (r: Option<(String, Vec<String>)>)
    ensures
        match r {
            None => split_ws(cmd@).len() == 0,
            Some((prog, args)) => split_ws(cmd@).len() > 0 && prog@ == split_ws(cmd@)[0]
                && views(args@) == split_ws(cmd@).drop_first(),
        },
{
    let mut words = split_whitespace(cmd);
    if words.len() == 0 {
        return None;
    }
    let ghost all = words@;
    let prog = words.remove(0);
    proof {
        assert(views(all)[0] == prog@);
        assert(views(words@) =~= views(all).drop_first());
    }
    Some((prog, words))
}

} // verus!

verus! {

/// The program ended with one of the exit codes its configuration expects.
pub open spec fn expected_exit(code: Option<i32>, codes: Seq<i32>) -> bool {
    code matches Some(c) && codes.contains(c)
}

/// Whether an instance that ended is started again. An instance that ended
/// before `starttime` seconds failed to start: it is retried while fewer than
/// `startretries` retries were made. One that ran long enough is restarted as
/// `autorestart` says: `true` always, `unexpected` when its exit code is not
/// one of `exitcodes` (or it was killed by a signal), anything else never.
pub open spec fn restart_policy(p: ProgramConfig, code: Option<i32>, uptime: nat, retries: nat) -> bool {
    if uptime < p.starttime {
        retries < p.startretries
    } else if p.autorestart@ == "true"@ {
        true
    } else if p.autorestart@ == "unexpected"@ {
        !expected_exit(code, p.exitcodes@)
    } else {
        false
    }
}

/// Decides whether an instance of `program` that ended with `exit_code` (none
/// when a signal ended it), after running `uptime` seconds and being retried
/// `retries` times, is started again.
pub fn should_restart(program: &ProgramConfig, exit_code: Option<i32>, uptime: u64, retries: u32) -> (r: bool)
    ensures
        r == restart_policy(*program, exit_code, uptime as nat, retries as nat),
{
    if uptime < program.starttime as u64 {
        return retries < program.startretries;
    }
    let policy = &program.autorestart;
    if crate::command::same_text(policy, "true") {
        true
    } else if crate::command::same_text(policy, "unexpected") {
        match exit_code {
            None => true,
            Some(c) => {
                let mut expected = false;
                for i in 0..program.exitcodes.len()
                    invariant
                        expected == exists|k: int| 0 <= k < i && program.exitcodes@[k] == c,
                {
                    if program.exitcodes[i] == c {
                        expected = true;
                    }
                }
                proof {
                    if program.exitcodes@.contains(c) {
                        let k = choose|k: int| 0 <= k < program.exitcodes@.len() && program.exitcodes@[k] == c;
                    }
                }
                !expected
            },
        }
    } else {
        false
    }
}

} // verus!
