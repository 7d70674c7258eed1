use taskmaster::config::{
    check_config, command_line, default_autorestart, default_autostart, default_exitcodes,
    default_numprocs, default_startretries, default_starttime, default_stopsignal,
    default_stoptime, default_umask, default_workingdir, reload_plan, should_restart, Config,
    ProgramConfig,
};

fn program(cmd: &str, numprocs: u32, autostart: bool) -> ProgramConfig {
    ProgramConfig {
        cmd: cmd.to_string(),
        numprocs,
        umask: default_umask(),
        workingdir: default_workingdir(),
        autostart,
        autorestart: default_autorestart(),
        exitcodes: default_exitcodes(),
        startretries: default_startretries(),
        starttime: default_starttime(),
        stopsignal: default_stopsignal(),
        stoptime: default_stoptime(),
        stdout: None,
        stderr: None,
        env: None,
    }
}

fn config(entries: &[(&str, bool)]) -> Config {
    Config {
        programs: entries.iter().map(|(n, a)| (n.to_string(), program("/bin/true", 1, *a))).collect(),
    }
}

#[test]
fn defaults_match_the_documented_values() {
    assert_eq!(default_numprocs(), 1);
    assert_eq!(default_umask(), "022");
    assert_eq!(default_workingdir(), "/tmp");
    assert!(default_autostart());
    assert_eq!(default_autorestart(), "unexpected");
    assert_eq!(default_exitcodes(), vec![0]);
    assert_eq!(default_startretries(), 3);
    assert_eq!(default_starttime(), 1);
    assert_eq!(default_stopsignal(), "TERM");
    assert_eq!(default_stoptime(), 10);
}

#[test]
fn check_config_trims_command_and_directory() {
    let mut p = program("  /usr/local/bin/nginx -c /etc/nginx/test.conf \n", 2, true);
    p.workingdir = " /tmp ".to_string();
    let mut c = Config { programs: vec![("nginx".to_string(), p)] };
    check_config(&mut c);
    assert_eq!(c.programs.len(), 1);
    assert_eq!(c.programs[0].0, "nginx");
    assert_eq!(c.programs[0].1.cmd, "/usr/local/bin/nginx -c /etc/nginx/test.conf");
    assert_eq!(c.programs[0].1.workingdir, "/tmp");
    assert_eq!(c.programs[0].1.numprocs, 2);
}

#[test]
fn find_program_gives_the_first_position() {
    let c = config(&[("a", true), ("b", false)]);
    assert_eq!(c.find_program("b"), Some(1));
    assert_eq!(c.find_program("c"), None);
    assert!(Config::new().programs.is_empty());
}

#[test]
fn reload_plan_stops_dropped_and_starts_new_autostart_programs() {
    let old = config(&[("a", true), ("b", false), ("c", true)]);
    let new = config(&[("b", true), ("c", true), ("d", true), ("e", false)]);
    let plan = reload_plan(&old, &new);
    assert_eq!(plan.to_stop, vec!["a".to_string()]);
    assert_eq!(plan.to_start, vec!["b".to_string(), "d".to_string()]);
}

#[test]
fn reload_plan_of_same_config_is_empty() {
    let c = config(&[("a", true), ("b", false)]);
    let plan = reload_plan(&c, &config(&[("a", true), ("b", false)]));
    assert!(plan.to_stop.is_empty());
    assert!(plan.to_start.is_empty());
}

#[test]
fn command_line_splits_program_and_arguments() {
    assert_eq!(
        command_line("/usr/local/bin/nginx -c /etc/nginx/test.conf"),
        Some(("/usr/local/bin/nginx".to_string(), vec!["-c".to_string(), "/etc/nginx/test.conf".to_string()]))
    );
    assert_eq!(command_line("  "), None);
}

#[test]
fn restart_policy_follows_the_configuration() {
    let mut p = program("/bin/true", 1, true);
    p.starttime = 5;
    p.startretries = 2;
    p.exitcodes = vec![0, 2];
    assert!(should_restart(&p, Some(1), 1, 0));
    assert!(should_restart(&p, Some(1), 1, 1));
    assert!(!should_restart(&p, Some(1), 1, 2));
    assert!(!should_restart(&p, Some(0), 10, 5));
    assert!(!should_restart(&p, Some(2), 10, 0));
    assert!(should_restart(&p, Some(3), 10, 0));
    assert!(should_restart(&p, None, 10, 0));
    p.autorestart = "true".to_string();
    assert!(should_restart(&p, Some(0), 10, 9));
    p.autorestart = "false".to_string();
    assert!(!should_restart(&p, Some(3), 10, 0));
}
