use vstd::prelude::*;

use crate::command::{client_keyword, parse_spec};
use crate::config::{lemma_reload_same_config, removed_keys, started_keys, Config};
use crate::supervisor::{
    any_match, claimed, drop_instances, has_instance, instance_name, instance_names_spec,
    instance_of, kill_step, kill_steps, recorded, registered, reload_stops, request_of,
    running_match, settle, settle_all, start_all, stop_one_steps, stop_steps, without, Instance,
    KillOutcome, ProcState, StopStep,
};
use crate::text::views;

verus! {

/// The entry a step acts on, if any.
pub open spec fn step_target(s: StopStep) -> Option<Seq<char>> {
    match s {
        StopStep::Unknown(_) => None,
        StopStep::Idle(n) => Some(n@),
        StopStep::Repeat(n) => Some(n@),
        StopStep::Kill(n, _) => Some(n@),
    }
}

/// Step `s`, gone as `o`, marks the entry named `x` stopped.
pub open spec fn stops_entry(s: StopStep, o: KillOutcome, x: Seq<char>) -> bool {
    match s {
        StopStep::Idle(n) => n@ == x,
        StopStep::Kill(n, _) => n@ == x && o is Stopped,
        _ => false,
    }
}

proof fn lemma_kill_steps_targets(ps: Seq<Instance>, arg: Seq<char>, prev: Seq<String>, j: int)
    requires
        0 <= j < kill_steps(ps, arg, prev).len(),
    ensures
        step_target(kill_steps(ps, arg, prev)[j]) matches Some(x) && instance_of(x, arg)
            && has_instance(ps, x),
    decreases ps.len(),
{
    let init = kill_steps(ps.drop_last(), arg, prev);
    if j < init.len() {
        lemma_kill_steps_targets(ps.drop_last(), arg, prev, j);
        let x = step_target(init[j])->0;
        let i = choose|i: int| 0 <= i < ps.drop_last().len() && ps.drop_last()[i].name@ == x;
        assert(ps[i] == ps.drop_last()[i]);
    } else {
        assert(ps[ps.len() - 1].name@ == ps.last().name@);
    }
}

/// Every entry that a `stop` acts on is an instance of one of the named
/// programs: stopping `web` never touches `webserver_1`.
pub proof fn lemma_stop_targets_instances(ps: Seq<Instance>, args: Seq<String>, j: int)
    requires
        0 <= j < stop_steps(ps, args).len(),
    ensures
        step_target(stop_steps(ps, args)[j]) matches Some(x) ==> has_instance(ps, x) && exists|k: int|
            0 <= k < args.len() && instance_of(x, #[trigger] args[k]@),
    decreases args.len(),
{
    let init = stop_steps(ps, args.drop_last());
    let last = stop_one_steps(ps, args.last(), args.drop_last());
    assert(stop_steps(ps, args) == init + last);
    if j < init.len() {
        lemma_stop_targets_instances(ps, args.drop_last(), j);
        assert(stop_steps(ps, args)[j] == init[j]);
        if step_target(init[j]) is Some {
            let x = step_target(init[j])->0;
            let k = choose|k: int| 0 <= k < args.drop_last().len() && instance_of(x, #[trigger] args.drop_last()[k]@);
            assert(args[k] == args.drop_last()[k]);
        }
    } else {
        assert(stop_steps(ps, args)[j] == last[j - init.len()]);
        if any_match(ps, args.last()@) {
            lemma_kill_steps_targets(ps, args.last()@, args.drop_last(), j - init.len());
            assert(args[args.len() - 1] == args.last());
        }
    }
}

proof fn lemma_settle_all_len(ps: Seq<Instance>, steps: Seq<StopStep>, outcomes: Seq<KillOutcome>, now: String)
    ensures
        settle_all(ps, steps, outcomes, now).len() == ps.len(),
    decreases steps.len(),
{
    if steps.len() > 0 && outcomes.len() > 0 {
        lemma_settle_all_len(ps, steps.drop_last(), outcomes.drop_last(), now);
    }
}

proof fn lemma_settle_all_names(ps: Seq<Instance>, steps: Seq<StopStep>, outcomes: Seq<KillOutcome>, now: String, i: int)
    requires
        0 <= i < ps.len(),
    ensures
        settle_all(ps, steps, outcomes, now).len() == ps.len(),
        settle_all(ps, steps, outcomes, now)[i].name == ps[i].name,
    decreases steps.len(),
{
    if steps.len() > 0 && outcomes.len() > 0 {
        lemma_settle_all_names(ps, steps.drop_last(), outcomes.drop_last(), now, i);
    }
}

/// An entry that no step stops (none names it, or only kills that failed do)
/// comes out of a `stop` as it went in: state, child and time.
pub proof fn lemma_settle_untouched(
    ps: Seq<Instance>,
    steps: Seq<StopStep>,
    outcomes: Seq<KillOutcome>,
    now: String,
    i: int,
)
    requires
        0 <= i < ps.len(),
        steps.len() == outcomes.len(),
        forall|j: int| 0 <= j < steps.len() ==> !stops_entry(#[trigger] steps[j], outcomes[j], ps[i].name@),
    ensures
        settle_all(ps, steps, outcomes, now)[i] == ps[i],
    decreases steps.len(),
{
    if steps.len() > 0 {
        assert forall|j: int| 0 <= j < steps.drop_last().len() implies !stops_entry(
            #[trigger] steps.drop_last()[j],
            outcomes.drop_last()[j],
            ps[i].name@,
        ) by {
            assert(steps.drop_last()[j] == steps[j]);
            assert(outcomes.drop_last()[j] == outcomes[j]);
        }
        lemma_settle_untouched(ps, steps.drop_last(), outcomes.drop_last(), now, i);
        lemma_settle_all_names(ps, steps.drop_last(), outcomes.drop_last(), now, i);
        assert(!stops_entry(steps[steps.len() - 1], outcomes[outcomes.len() - 1], ps[i].name@));
    }
}

/// `stop` leaves the instances of other programs as they were.
pub proof fn lemma_stop_spares_others(
    ps: Seq<Instance>,
    args: Seq<String>,
    outcomes: Seq<KillOutcome>,
    now: String,
    i: int,
)
    requires
        0 <= i < ps.len(),
        outcomes.len() == stop_steps(ps, args).len(),
        forall|k: int| 0 <= k < args.len() ==> !instance_of(ps[i].name@, #[trigger] args[k]@),
    ensures
        settle_all(ps, stop_steps(ps, args), outcomes, now)[i] == ps[i],
{
    let steps = stop_steps(ps, args);
    assert forall|j: int| 0 <= j < steps.len() implies !stops_entry(#[trigger] steps[j], outcomes[j], ps[i].name@) by {
        lemma_stop_targets_instances(ps, args, j);
    }
    lemma_settle_untouched(ps, steps, outcomes, now, i);
}

/// A kill that failed leaves the instance running with its child.
pub proof fn lemma_failed_kill_keeps(
    ps: Seq<Instance>,
    steps: Seq<StopStep>,
    outcomes: Seq<KillOutcome>,
    now: String,
    i: int,
)
    requires
        0 <= i < ps.len(),
        steps.len() == outcomes.len(),
        forall|j: int|
            0 <= j < steps.len() && step_target(#[trigger] steps[j]) == Some(ps[i].name@) ==> (
            steps[j] is Kill && !(outcomes[j] is Stopped)),
    ensures
        settle_all(ps, steps, outcomes, now)[i] == ps[i],
{
    assert forall|j: int| 0 <= j < steps.len() implies !stops_entry(#[trigger] steps[j], outcomes[j], ps[i].name@) by {
        if stops_entry(steps[j], outcomes[j], ps[i].name@) {
            assert(step_target(steps[j]) == Some(ps[i].name@));
        }
    }
    lemma_settle_untouched(ps, steps, outcomes, now, i);
}

proof fn lemma_settle_stops(
    ps: Seq<Instance>,
    steps: Seq<StopStep>,
    outcomes: Seq<KillOutcome>,
    now: String,
    i: int,
    j: int,
)
    requires
        0 <= i < ps.len(),
        steps.len() == outcomes.len(),
        0 <= j < steps.len(),
        stops_entry(steps[j], outcomes[j], ps[i].name@),
    ensures
        settle_all(ps, steps, outcomes, now)[i].state is Stopped,
    decreases steps.len(),
{
    lemma_settle_all_names(ps, steps.drop_last(), outcomes.drop_last(), now, i);
    if j < steps.len() - 1 {
        assert(steps.drop_last()[j] == steps[j]);
        assert(outcomes.drop_last()[j] == outcomes[j]);
        lemma_settle_stops(ps, steps.drop_last(), outcomes.drop_last(), now, i, j);
    }
}

proof fn lemma_kill_steps_contains(ps: Seq<Instance>, arg: Seq<char>, prev: Seq<String>, i: int)
    requires
        0 <= i < ps.len(),
        instance_of(ps[i].name@, arg),
    ensures
        kill_steps(ps, arg, prev).contains(kill_step(ps[i], prev)),
    decreases ps.len(),
{
    let init = kill_steps(ps.drop_last(), arg, prev);
    if i < ps.len() - 1 {
        assert(ps.drop_last()[i] == ps[i]);
        lemma_kill_steps_contains(ps.drop_last(), arg, prev, i);
        let j = choose|j: int| 0 <= j < init.len() && init[j] == kill_step(ps[i], prev);
        assert(kill_steps(ps, arg, prev)[j] == init[j]);
    } else {
        assert(kill_steps(ps, arg, prev)[init.len() as int] == kill_step(ps[i], prev));
    }
}

proof fn lemma_stop_steps_contains(ps: Seq<Instance>, args: Seq<String>, k: int, s: StopStep)
    requires
        0 <= k < args.len(),
        stop_one_steps(ps, args[k], args.subrange(0, k)).contains(s),
    ensures
        stop_steps(ps, args).contains(s),
    decreases args.len(),
{
    let init = stop_steps(ps, args.drop_last());
    let last = stop_one_steps(ps, args.last(), args.drop_last());
    assert(stop_steps(ps, args) == init + last);
    if k < args.len() - 1 {
        assert(args.drop_last()[k] == args[k]);
        assert(args.drop_last().subrange(0, k) =~= args.subrange(0, k));
        lemma_stop_steps_contains(ps, args.drop_last(), k, s);
        let j = choose|j: int| 0 <= j < init.len() && init[j] == s;
        assert(stop_steps(ps, args)[j] == s);
    } else {
        assert(args.subrange(0, k) =~= args.drop_last());
        let j = choose|j: int| 0 <= j < last.len() && last[j] == s;
        assert(stop_steps(ps, args)[init.len() + j] == s);
    }
}

/// When every kill of a `stop` succeeds, no instance of the named programs runs
/// afterwards.
pub proof fn lemma_stop_leaves_nothing_running(
    ps: Seq<Instance>,
    args: Seq<String>,
    outcomes: Seq<KillOutcome>,
    now: String,
    k: int,
)
    requires
        0 <= k < args.len(),
        outcomes.len() == stop_steps(ps, args).len(),
        forall|j: int| 0 <= j < outcomes.len() && (#[trigger] stop_steps(ps, args)[j]) is Kill ==> outcomes[j] is Stopped,
    ensures
        !running_match(settle_all(ps, stop_steps(ps, args), outcomes, now), args[k]@),
{
    let steps = stop_steps(ps, args);
    let t = settle_all(ps, steps, outcomes, now);
    lemma_settle_all_len(ps, steps, outcomes, now);
    assert forall|i: int| 0 <= i < t.len() && instance_of(#[trigger] t[i].name@, args[k]@) implies !(
    t[i].state is Running) by {
        lemma_settle_all_names(ps, steps, outcomes, now, i);
        let x = ps[i].name@;
        // the first of the names that selects this instance
        lemma_first_claim(x, args, k);
        let k0 = choose|k0: int|
            0 <= k0 <= k && instance_of(x, args[k0]@) && forall|m: int|
                0 <= m < k0 ==> !instance_of(x, #[trigger] args[m]@);
        let prev = args.subrange(0, k0);
        assert(!claimed(x, prev)) by {
            if claimed(x, prev) {
                let m = choose|m: int| 0 <= m < prev.len() && instance_of(x, #[trigger] prev[m]@);
                assert(prev[m] == args[m]);
            }
        }
        assert(any_match(ps, args[k0]@));
        lemma_kill_steps_contains(ps, args[k0]@, prev, i);
        let s = kill_step(ps[i], prev);
        lemma_stop_steps_contains(ps, args, k0, s);
        let j = choose|j: int| 0 <= j < steps.len() && steps[j] == s;
        assert(stops_entry(steps[j], outcomes[j], x));
        lemma_settle_stops(ps, steps, outcomes, now, i, j);
    }
}

proof fn lemma_first_claim(x: Seq<char>, args: Seq<String>, k: int)
    requires
        0 <= k < args.len(),
        instance_of(x, args[k]@),
    ensures
        exists|k0: int|
            0 <= k0 <= k && instance_of(x, args[k0]@) && forall|m: int|
                0 <= m < k0 ==> !instance_of(x, #[trigger] args[m]@),
    decreases k,
{
    if exists|m: int| 0 <= m < k && instance_of(x, #[trigger] args[m]@) {
        let m = choose|m: int| 0 <= m < k && instance_of(x, #[trigger] args[m]@);
        lemma_first_claim(x, args, m);
    } else {
        assert(forall|m: int| 0 <= m < k ==> !instance_of(x, #[trigger] args[m]@));
    }
}

proof fn lemma_without_drops(s: Seq<Seq<char>>, x: Seq<char>)
    ensures
        !without(s, x).contains(x),
        without(s, x).len() <= s.len(),
    decreases s.len(),
{
    if s.len() > 0 {
        lemma_without_drops(s.drop_last(), x);
        let w = without(s.drop_last(), x);
        if without(s, x).contains(x) {
            let i = choose|i: int| 0 <= i < without(s, x).len() && without(s, x)[i] == x;
            if i < w.len() {
                assert(w[i] == x);
            }
        }
    }
}

/// After a start record is made for a program, it holds exactly one, the last.
pub proof fn lemma_registered_once(s: Seq<Seq<char>>, x: Seq<char>)
    ensures
        registered(s, x).last() == x,
        forall|i: int| 0 <= i < registered(s, x).len() - 1 ==> registered(s, x)[i] != x,
{
    lemma_without_drops(s, x);
    assert forall|i: int| 0 <= i < registered(s, x).len() - 1 implies registered(s, x)[i] != x by {
        assert(registered(s, x)[i] == without(s, x)[i]);
    }
}

/// Every command the client sends to the daemon is one the daemon serves.
pub proof fn lemma_client_commands_served(w: Seq<char>)
    requires
        client_keyword(w),
        w != "help"@,
        w != "exit"@,
    ensures
        request_of(w) is Some,
{
}

/// Reloading the configuration that runs stops nothing, starts nothing and
/// changes neither the process table nor the start records.
pub proof fn lemma_reload_unchanged(
    ps: Seq<Instance>,
    st: Seq<Seq<char>>,
    c: Config,
)
    requires
        c.wf(),
    ensures
        reload_stops(ps, st, removed_keys(c.programs@, c.programs@)) == (
            ps,
            st,
            Seq::<StopStep>::empty(),
        ),
        start_all(c.programs@, ps, st, views(started_keys(c.programs@, c.programs@)), true, false) == (
            Seq::<char>::empty(),
            Seq::<(Seq<char>, Seq<Seq<char>>)>::empty(),
            st,
        ),
{
    lemma_reload_same_config(c);
    crate::config::lemma_keys_views(c.programs@, c.programs@);
    assert(removed_keys(c.programs@, c.programs@).len() == 0);
    assert(removed_keys(c.programs@, c.programs@) =~= Seq::<String>::empty());
    assert(views(started_keys(c.programs@, c.programs@)) =~= Seq::<Seq<char>>::empty());
}

} // verus!

verus! {

/// The words that splitting yields are never empty and hold no whitespace.
pub proof fn lemma_words_clean(s: Seq<char>)
    ensures
        forall|i: int|
            0 <= i < crate::text::split_ws(s).len() ==> (#[trigger] crate::text::split_ws(s)[i]).len() > 0,
        forall|i: int, k: int|
            0 <= i < crate::text::split_ws(s).len() && 0 <= k < crate::text::split_ws(s)[i].len()
                ==> !crate::text::is_ws(#[trigger] crate::text::split_ws(s)[i][k]),
    decreases s.len(),
{
    if s.len() == 0 {
    } else if crate::text::is_ws(s[0]) {
        lemma_words_clean(s.drop_first());
        assert(crate::text::split_ws(s) == crate::text::split_ws(s.drop_first()));
    } else {
        let p = |c: char| !crate::text::is_ws(c);
        crate::text::lemma_lead_bound(s, p);
        let w = crate::text::word_len(s);
        lemma_words_clean(s.skip(w as int));
        let rest = crate::text::split_ws(s.skip(w as int));
        let all = crate::text::split_ws(s);
        assert(all == seq![s.take(w as int)] + rest);
        assert forall|i: int, k: int|
            0 <= i < all.len() && 0 <= k < all[i].len() implies !crate::text::is_ws(
            #[trigger] all[i][k],
        ) by {
            if i == 0 {
                assert(all[0][k] == s[k]);
                assert(p(s[k]));
            } else {
                assert(all[i] == rest[i - 1]);
            }
        }
        assert forall|i: int| 0 <= i < all.len() implies (#[trigger] all[i]).len() > 0 by {
            if i > 0 {
                assert(all[i] == rest[i - 1]);
            }
        }
    }
}

} // verus!

verus! {

/// Each instance name of a program is an instance of that program.
pub proof fn lemma_instance_names_are_instances(name: Seq<char>, n: nat, k: int)
    requires
        0 <= k < n,
    ensures
        instance_of(instance_names_spec(name, n)[k], name),
{
    assert(instance_names_spec(name, n)[k] == instance_name(name, (k + 1) as nat));
}

/// Once an instance of a program is recorded as running, the program counts as
/// running (so a new `start` of it is refused).
pub proof fn lemma_recorded_instance_runs(
    ps: Seq<Instance>,
    program: Seq<char>,
    n: nat,
    k: int,
    instance: String,
    pid: u32,
    time: String,
)
    requires
        0 <= k < n,
        instance@ == instance_names_spec(program, n)[k],
    ensures
        running_match(
            recorded(
                ps,
                Instance {
                    name: instance,
                    state: ProcState::Running,
                    pid: Some(pid),
                    start_time: Some(time),
                },
            ),
            program,
        ),
{
    let e = Instance {
        name: instance,
        state: ProcState::Running,
        pid: Some(pid),
        start_time: Some(time),
    };
    lemma_instance_names_are_instances(program, n, k);
    let r = recorded(ps, e);
    if has_instance(ps, e.name@) {
        let j = choose|j: int| 0 <= j < ps.len() && ps[j].name@ == e.name@;
        assert(r[j] == e);
        assert(instance_of(r[j].name@, program));
    } else {
        assert(r[ps.len() as int] == e);
        assert(instance_of(r[ps.len() as int].name@, program));
    }
}

proof fn lemma_drop_instances_members(ps: Seq<Instance>, program: Seq<char>, e: Instance)
    ensures
        drop_instances(ps, program).contains(e) <==> (ps.contains(e) && !instance_of(e.name@, program)),
    decreases ps.len(),
{
    if ps.len() > 0 {
        let init = ps.drop_last();
        lemma_drop_instances_members(init, program, e);
        let d = drop_instances(init, program);
        let r = drop_instances(ps, program);
        if r.contains(e) {
            let j = choose|j: int| 0 <= j < r.len() && r[j] == e;
            if j < d.len() {
                assert(d[j] == e);
                let k = choose|k: int| 0 <= k < init.len() && init[k] == e;
                assert(ps[k] == e);
            } else {
                assert(ps[ps.len() - 1] == e);
            }
        }
        if ps.contains(e) && !instance_of(e.name@, program) {
            let k = choose|k: int| 0 <= k < ps.len() && ps[k] == e;
            if k < ps.len() - 1 {
                assert(init[k] == e);
                let j = choose|j: int| 0 <= j < d.len() && d[j] == e;
                assert(r[j] == e);
            } else {
                assert(r[d.len() as int] == e);
            }
        }
    }
}

/// After a reload dropped the programs `names`, no instance of them is left in
/// the table, and every other entry is still there.
pub proof fn lemma_reload_forgets_dropped(
    ps: Seq<Instance>,
    st: Seq<Seq<char>>,
    names: Seq<String>,
    e: Instance,
)
    ensures
        reload_stops(ps, st, names).0.contains(e) <==> (ps.contains(e) && forall|k: int|
            0 <= k < names.len() ==> !instance_of(e.name@, #[trigger] names[k]@)),
    decreases names.len(),
{
    if names.len() > 0 {
        let init = names.drop_last();
        lemma_reload_forgets_dropped(ps, st, init, e);
        let p1 = reload_stops(ps, st, init).0;
        lemma_drop_instances_members(p1, names.last()@, e);
        if ps.contains(e) && (forall|k: int| 0 <= k < init.len() ==> !instance_of(e.name@, #[trigger] init[k]@))
            && !instance_of(e.name@, names.last()@) {
            assert forall|k: int| 0 <= k < names.len() implies !instance_of(e.name@, #[trigger] names[k]@) by {
                if k < init.len() {
                    assert(init[k] == names[k]);
                }
            }
        }
        if forall|k: int| 0 <= k < names.len() ==> !instance_of(e.name@, #[trigger] names[k]@) {
            assert forall|k: int| 0 <= k < init.len() implies !instance_of(e.name@, #[trigger] init[k]@) by {
                assert(init[k] == names[k]);
            }
            assert(!instance_of(e.name@, names[names.len() - 1]@));
        }
    }
}

} // verus!

verus! {

/// The words joined by single spaces.
pub open spec fn join_words(ws: Seq<Seq<char>>) -> Seq<char>
    decreases ws.len(),
{
    if ws.len() == 0 {
        seq![]
    } else if ws.len() == 1 {
        ws[0]
    } else {
        ws[0] + seq![' '] + join_words(ws.drop_first())
    }
}

proof fn lemma_split_word_then(w: Seq<char>, s: Seq<char>)
    requires
        w.len() > 0,
        forall|k: int| 0 <= k < w.len() ==> !crate::text::is_ws(#[trigger] w[k]),
        s.len() == 0 || crate::text::is_ws(s[0]),
    ensures
        crate::text::split_ws(w + s) == seq![w] + crate::text::split_ws(s),
{
    let t = w + s;
    let p = |c: char| !crate::text::is_ws(c);
    assert forall|k: int| 0 <= k < w.len() implies p(#[trigger] t[k]) by {
        assert(t[k] == w[k]);
    }
    if s.len() > 0 {
        assert(t[w.len() as int] == s[0]);
    }
    crate::text::lemma_lead_exact(t, p, w.len());
    assert(t[0] == w[0]);
    assert(t.take(w.len() as int) =~= w);
    assert(t.skip(w.len() as int) =~= s);
}

/// Splitting words joined by single spaces gives the words back.
pub proof fn lemma_split_join(ws: Seq<Seq<char>>)
    requires
        forall|i: int| 0 <= i < ws.len() ==> (#[trigger] ws[i]).len() > 0,
        forall|i: int, k: int| 0 <= i < ws.len() && 0 <= k < ws[i].len() ==> !crate::text::is_ws(#[trigger] ws[i][k]),
    ensures
        crate::text::split_ws(join_words(ws)) == ws,
    decreases ws.len(),
{
    if ws.len() == 0 {
        assert(crate::text::split_ws(join_words(ws)) =~= ws);
    } else if ws.len() == 1 {
        assert(ws[0].len() > 0);
        lemma_split_word_then(ws[0], seq![]);
        assert(ws[0] + Seq::<char>::empty() =~= ws[0]);
        assert(crate::text::split_ws(join_words(ws)) =~= ws);
    } else {
        let rest = ws.drop_first();
        assert forall|i: int| 0 <= i < rest.len() implies (#[trigger] rest[i]).len() > 0 by {
            assert(rest[i] == ws[i + 1]);
        }
        assert forall|i: int, k: int| 0 <= i < rest.len() && 0 <= k < rest[i].len() implies !crate::text::is_ws(#[trigger] rest[i][k]) by {
            assert(rest[i] == ws[i + 1]);
        }
        lemma_split_join(rest);
        let tail = seq![' '] + join_words(rest);
        assert(ws[0].len() > 0);
        assert forall|k: int| 0 <= k < ws[0].len() implies !crate::text::is_ws(#[trigger] ws[0][k]) by {}
        assert(tail[0] == ' ');
        lemma_split_word_then(ws[0], tail);
        assert(join_words(ws) =~= ws[0] + tail);
        assert(tail.drop_first() =~= join_words(rest));
        assert(crate::text::split_ws(tail) == crate::text::split_ws(join_words(rest)));
        assert(crate::text::split_ws(join_words(ws)) =~= ws);
    }
}

/// A command line reads the same once its whitespace is normalized: leading,
/// trailing and repeated blanks do not matter.
pub proof fn lemma_parse_normalized(line: Seq<char>)
    ensures
        parse_spec(join_words(crate::text::split_ws(line))) == parse_spec(line),
{
    lemma_words_clean(line);
    lemma_split_join(crate::text::split_ws(line));
}

} // verus!
