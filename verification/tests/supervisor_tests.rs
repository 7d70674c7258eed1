use taskmaster::command::Command;
use taskmaster::config::{default_exitcodes, Config, ProgramConfig};
use taskmaster::supervisor::{
    answer_text, dispatch, handle_reload, handle_restart, handle_start, handle_status,
    handle_stop, instance_names, is_instance_of, is_program_running, load_config, stop_program_internal,
    stop_report, Instance, KillOutcome, ProcState, Procs, Request, StopStep,
};

fn program(numprocs: u32, autostart: bool) -> ProgramConfig {
    ProgramConfig {
        cmd: "/bin/sleep 100".to_string(),
        numprocs,
        umask: "022".to_string(),
        workingdir: "/tmp".to_string(),
        autostart,
        autorestart: "unexpected".to_string(),
        exitcodes: default_exitcodes(),
        startretries: 3,
        starttime: 1,
        stopsignal: "TERM".to_string(),
        stoptime: 10,
        stdout: None,
        stderr: None,
        env: None,
    }
}

fn config(entries: &[(&str, u32, bool)]) -> Config {
    Config { programs: entries.iter().map(|(n, k, a)| (n.to_string(), program(*k, *a))).collect() }
}

fn names(v: &[&str]) -> Vec<String> {
    v.iter().map(|s| s.to_string()).collect()
}

fn daemon() -> Procs {
    let mut p = Procs::new();
    p.config = config(&[("nginx", 2, true), ("web", 1, false)]);
    p
}

#[test]
fn instance_names_are_numbered_from_one() {
    assert_eq!(instance_names("nginx", 3), names(&["nginx_1", "nginx_2", "nginx_3"]));
    assert!(instance_names("nginx", 0).is_empty());
}

#[test]
fn recorded_instance_makes_program_running() {
    let mut p = daemon();
    assert!(!is_program_running("nginx", &p));
    p.record_running("nginx_1".to_string(), 42, "2024-06-01 10:00:00".to_string());
    assert!(is_program_running("nginx", &p));
    assert!(!is_program_running("web", &p));
    p.record_running("nginx_1".to_string(), 43, "t".to_string());
    assert_eq!(p.processes.len(), 1);
    assert_eq!(p.processes[0].pid, Some(43));
}

#[test]
fn start_launches_configured_programs_once() {
    let mut p = daemon();
    let r = handle_start(&names(&["nginx", "ghost"]), &mut p);
    assert_eq!(r.text, "Program nginx started\nProgram ghost not found in configuration\n");
    assert_eq!(r.launches.len(), 1);
    assert_eq!(r.launches[0].program, "nginx");
    assert_eq!(r.launches[0].instances, names(&["nginx_1", "nginx_2"]));
    assert_eq!(p.status, names(&["nginx"]));
    p.record_running("nginx_1".to_string(), 7, "t".to_string());
    let r = handle_start(&names(&["nginx"]), &mut p);
    assert_eq!(r.text, "Program nginx is already running.\n");
    assert!(r.launches.is_empty());
}

#[test]
fn start_without_programs_is_refused() {
    let mut p = daemon();
    let r = handle_start(&vec![], &mut p);
    assert_eq!(r.text, "No program specified to start");
    assert!(r.launches.is_empty() && r.stops.is_empty() && !r.shutdown);
}

#[test]
fn stop_plans_kills_and_records_their_outcomes() {
    let mut p = daemon();
    p.record_running("nginx_1".to_string(), 10, "t0".to_string());
    p.record_running("nginx_2".to_string(), 11, "t0".to_string());
    p.record_running("web_1".to_string(), 12, "t0".to_string());
    let r = handle_stop(&names(&["nginx", "nothing"]), &p);
    assert!(r.report_stops && !r.shutdown);
    assert_eq!(r.stops.len(), 3);
    assert!(matches!(&r.stops[0], StopStep::Kill(n, 10) if n == "nginx_1"));
    assert!(matches!(&r.stops[1], StopStep::Kill(n, 11) if n == "nginx_2"));
    assert!(matches!(&r.stops[2], StopStep::Unknown(n) if n == "nothing"));
    assert!(is_program_running("nginx", &p));
    let outcomes = vec![KillOutcome::Stopped, KillOutcome::KillFailed("denied".to_string()), KillOutcome::Stopped];
    p.apply_stops(&r.stops, &outcomes, &"t1".to_string());
    assert!(matches!(p.processes[0].state, ProcState::Stopped));
    assert_eq!(p.processes[0].pid, None);
    assert_eq!(p.processes[0].start_time, Some("t1".to_string()));
    assert!(matches!(p.processes[1].state, ProcState::Running));
    assert_eq!(p.processes[1].pid, Some(11));
    assert_eq!(p.processes[1].start_time, Some("t0".to_string()));
    assert!(is_program_running("nginx", &p));
    assert!(is_program_running("web", &p));
    assert_eq!(
        answer_text(&r, &outcomes),
        "Program nginx_1 stopped.\nFailed to stop program nginx_2: denied\nProgram nothing is not running\n"
    );
}

#[test]
fn stop_selects_instances_by_program_name_only() {
    let mut p = daemon();
    p.record_running("webserver_1".to_string(), 21, "t".to_string());
    let r = handle_stop(&names(&["web"]), &p);
    assert_eq!(r.stops.len(), 1);
    assert!(matches!(&r.stops[0], StopStep::Unknown(n) if n == "web"));
    assert_eq!(answer_text(&r, &vec![KillOutcome::Stopped]), "Program web is not running\n");
    p.apply_stops(&r.stops, &vec![KillOutcome::Stopped], &"n".to_string());
    assert!(matches!(p.processes[0].state, ProcState::Running));
    assert_eq!(p.processes[0].pid, Some(21));
}

#[test]
fn successful_stop_leaves_nothing_running() {
    let mut p = daemon();
    p.record_running("nginx_1".to_string(), 1, "t".to_string());
    p.record_running("nginx_2".to_string(), 2, "t".to_string());
    let r = handle_stop(&names(&["nginx"]), &p);
    let outcomes: Vec<KillOutcome> = r.stops.iter().map(|_| KillOutcome::Stopped).collect();
    p.apply_stops(&r.stops, &outcomes, &"n".to_string());
    assert!(!is_program_running("nginx", &p));
}

#[test]
fn idle_instance_is_marked_stopped() {
    let mut p = daemon();
    p.processes.push(Instance { name: "web_1".to_string(), state: ProcState::Running, pid: None, start_time: None });
    let r = handle_stop(&names(&["web"]), &p);
    assert!(matches!(&r.stops[0], StopStep::Idle(n) if n == "web_1"));
    p.apply_stops(&r.stops, &vec![KillOutcome::LockFailed], &"n".to_string());
    assert!(matches!(p.processes[0].state, ProcState::Stopped));
    assert_eq!(answer_text(&r, &vec![KillOutcome::LockFailed]), "Program web_1 is not running\n");
}

#[test]
fn stopping_twice_in_one_request_kills_once() {
    let mut p = daemon();
    p.record_running("web_1".to_string(), 5, "t".to_string());
    let steps = stop_program_internal(&names(&["web", "web"]), &p);
    assert_eq!(steps.len(), 2);
    assert!(matches!(&steps[0], StopStep::Kill(n, 5) if n == "web_1"));
    assert!(matches!(&steps[1], StopStep::Repeat(n) if n == "web_1"));
}

#[test]
fn stop_without_programs_shuts_down() {
    let mut p = daemon();
    p.record_running("web_1".to_string(), 5, "t".to_string());
    p.processes.push(Instance { name: "idle_1".to_string(), state: ProcState::Stopped, pid: None, start_time: None });
    let r = handle_stop(&vec![], &p);
    assert!(r.shutdown && !r.report_stops);
    assert_eq!(r.text, "Quit");
    assert_eq!(r.stops.len(), 1);
    assert!(matches!(&r.stops[0], StopStep::Kill(n, 5) if n == "web_1"));
}

#[test]
fn stop_daemon_shuts_down() {
    let mut p = daemon();
    p.record_running("web_1".to_string(), 5, "t".to_string());
    let r = handle_stop(&names(&["daemon"]), &p);
    assert!(r.shutdown);
    assert_eq!(answer_text(&r, &vec![KillOutcome::Stopped]), "Quit");
    let r = handle_stop(&names(&["daemon", "web"]), &p);
    assert!(!r.shutdown);
}

#[test]
fn stop_report_covers_every_outcome() {
    let steps = vec![
        StopStep::Kill("a_1".to_string(), 1),
        StopStep::Kill("b_1".to_string(), 2),
        StopStep::Kill("c_1".to_string(), 3),
        StopStep::Unknown("d".to_string()),
        StopStep::Repeat("c_1".to_string()),
    ];
    let outcomes = vec![KillOutcome::StillRunning, KillOutcome::LockFailed, KillOutcome::Stopped, KillOutcome::LockFailed, KillOutcome::Stopped];
    assert_eq!(
        stop_report(&steps, &outcomes),
        "Failed to stop program a_1: still running.\nFailed to acquire lock to stop program b_1\nProgram c_1 stopped.\nProgram d is not running\nProgram c_1 is not running\n"
    );
}

#[test]
fn restart_stops_then_starts() {
    let mut p = daemon();
    p.record_running("web_1".to_string(), 9, "t".to_string());
    let r = handle_restart(&names(&["web", "ghost"]), &mut p);
    assert!(r.report_stops);
    let outcomes = vec![KillOutcome::Stopped, KillOutcome::Stopped];
    assert_eq!(
        answer_text(&r, &outcomes),
        "Program web_1 stopped.\nProgram ghost is not running\nProgram web restarted\nProgram ghost not found in configuration\n"
    );
    assert_eq!(r.launches.len(), 1);
    assert_eq!(r.launches[0].instances, names(&["web_1"]));
    let r = handle_restart(&vec![], &mut p);
    assert_eq!(r.text, "No program specified to restart");
}

#[test]
fn status_lists_each_instance() {
    let mut p = daemon();
    assert_eq!(handle_status(&p), "Nothing to display");
    p.record_running("nginx_1".to_string(), 1234, "2024-06-01 10:00:00".to_string());
    p.processes.push(Instance { name: "web_1".to_string(), state: ProcState::Stopped, pid: None, start_time: None });
    assert_eq!(
        handle_status(&p),
        "\nnginx_1       1234       RUNNING      2024-06-01 10:00:00\n\nweb_1       N/A       STOPPED      N/A\n"
    );
}

#[test]
fn load_config_starts_autostart_programs() {
    let mut p = Procs::new();
    p.register_status("a");
    let launches = load_config(&mut p, config(&[("a", 1, true), ("b", 2, false), ("c", 2, true)]));
    assert_eq!(launches.len(), 2);
    assert_eq!(launches[0].program, "a");
    assert_eq!(launches[1].instances, names(&["c_1", "c_2"]));
    assert_eq!(p.status, names(&["a", "a", "c"]));
    assert_eq!(p.config.programs.len(), 3);
}

#[test]
fn reload_stops_dropped_and_starts_added() {
    let mut p = daemon();
    p.config = config(&[("nginx", 2, true), ("web", 1, false), ("webserver", 1, true), ("db", 1, false)]);
    p.record_running("nginx_1".to_string(), 3, "t".to_string());
    p.record_running("nginx_2".to_string(), 4, "t".to_string());
    p.record_running("webserver_1".to_string(), 5, "t".to_string());
    p.register_status("nginx");
    p.register_status("db");
    let r = handle_reload(&mut p, config(&[("webserver", 1, true), ("db", 1, true), ("cache", 1, true)]));
    assert_eq!(r.text, "Configuration reloaded");
    assert!(!r.report_stops);
    assert_eq!(r.stops.len(), 3);
    assert!(matches!(&r.stops[0], StopStep::Kill(n, 3) if n == "nginx_1"));
    assert!(matches!(&r.stops[1], StopStep::Kill(n, 4) if n == "nginx_2"));
    assert!(matches!(&r.stops[2], StopStep::Unknown(n) if n == "web"));
    assert_eq!(r.launches.len(), 2);
    assert_eq!(r.launches[0].program, "db");
    assert_eq!(r.launches[1].program, "cache");
    assert_eq!(p.status, names(&["db", "db", "cache"]));
    assert_eq!(p.processes.len(), 1);
    assert_eq!(p.processes[0].name, "webserver_1");
    assert!(is_program_running("webserver", &p));
    assert_eq!(answer_text(&r, &vec![KillOutcome::Stopped, KillOutcome::Stopped, KillOutcome::Stopped]), "Configuration reloaded");
}

#[test]
fn reload_of_same_config_changes_nothing() {
    let mut p = daemon();
    p.record_running("nginx_1".to_string(), 3, "t".to_string());
    let r = handle_reload(&mut p, config(&[("nginx", 2, true), ("web", 1, false)]));
    assert!(r.stops.is_empty());
    assert!(r.launches.is_empty());
    assert!(is_program_running("nginx", &p));
}

#[test]
fn register_status_keeps_one_record() {
    let mut p = daemon();
    p.register_status("a");
    p.register_status("b");
    p.register_status("a");
    assert_eq!(p.status, names(&["b", "a"]));
    p.unregister_status("a");
    assert_eq!(p.status, names(&["b"]));
}

#[test]
fn remove_instances_drops_one_program() {
    let mut p = daemon();
    p.record_running("web_1".to_string(), 1, "t".to_string());
    p.record_running("web_2".to_string(), 2, "t".to_string());
    p.record_running("webserver_1".to_string(), 3, "t".to_string());
    p.remove_instances("web");
    assert_eq!(p.processes.len(), 1);
    assert_eq!(p.processes[0].name, "webserver_1");
}

#[test]
fn instance_names_follow_program_then_number() {
    assert!(is_instance_of("web_1", "web"));
    assert!(is_instance_of("web_12", "web"));
    assert!(!is_instance_of("webserver_1", "web"));
    assert!(!is_instance_of("web_", "web"));
    assert!(!is_instance_of("web_0", "web"));
    assert!(!is_instance_of("web_01", "web"));
    assert!(!is_instance_of("web_1x", "web"));
    assert!(!is_instance_of("web", "web"));
    assert!(is_instance_of("a_b_3", "a_b"));
}

#[test]
fn dispatch_maps_command_words() {
    let c = |w: &str| Command { cmd: w.to_string(), args: vec![] };
    assert!(matches!(dispatch(&c("start")), Some(Request::Start)));
    assert!(matches!(dispatch(&c("stop")), Some(Request::Stop)));
    assert!(matches!(dispatch(&c("restart")), Some(Request::Restart)));
    assert!(matches!(dispatch(&c("status")), Some(Request::Status)));
    assert!(matches!(dispatch(&c("reload")), Some(Request::Reload)));
    assert!(dispatch(&c("help")).is_none());
}

#[test]
fn every_command_the_client_sends_is_served() {
    for w in ["start", "stop", "restart", "reload", "status"] {
        match taskmaster::command::client_step(format!("{} prog", w)) {
            taskmaster::command::ClientStep::Send(c) => assert!(dispatch(&c).is_some(), "word {}", w),
            _ => panic!("expected {} to be sent", w),
        }
    }
}

#[test]
fn instance_names_start_with_the_program() {
    for n in instance_names("db", 12) {
        assert!(n.starts_with("db_"));
    }
}
