use taskmaster::command::{client_step, interpret_reply, ClientStep, Command};

#[test]
fn parse_reads_command_and_arguments() {
    let c = Command::parse("restart  nginx web".to_string()).unwrap();
    assert_eq!(c.cmd, "restart");
    assert_eq!(c.args, vec!["nginx".to_string(), "web".to_string()]);
}

#[test]
fn parse_accepts_every_client_word() {
    for w in ["start", "stop", "restart", "reload", "status", "exit", "help"] {
        let c = Command::parse(format!("  {}  ", w)).unwrap();
        assert_eq!(c.cmd, w);
        assert!(c.args.is_empty());
    }
}

#[test]
fn parse_refuses_unknown_words_and_blank_lines() {
    assert!(Command::parse("launch nginx".to_string()).is_none());
    assert!(Command::parse("".to_string()).is_none());
    assert!(Command::parse("   ".to_string()).is_none());
    assert!(Command::parse("Start nginx".to_string()).is_none());
}

#[test]
fn new_command_is_empty() {
    let c = Command::new();
    assert_eq!(c.cmd, "");
    assert!(c.args.is_empty());
}

#[test]
fn to_vec_of_strings_copies_words() {
    assert_eq!(Command::to_vec_of_strings(vec!["a", "bc"]), vec!["a".to_string(), "bc".to_string()]);
    assert!(Command::to_vec_of_strings(vec![]).is_empty());
}

#[test]
fn check_args_requires_programs_for_start_and_restart() {
    let c = Command { cmd: "start".to_string(), args: vec![] };
    assert_eq!(c.check_args(), Err("start command need to take at least one argument, please retry".to_string()));
    let c = Command { cmd: "restart".to_string(), args: vec![] };
    assert_eq!(c.check_args(), Err("restart command need to take at least one argument, please retry".to_string()));
    let c = Command { cmd: "start".to_string(), args: vec!["x".to_string()] };
    assert_eq!(c.check_args(), Ok(()));
}

#[test]
fn check_args_refuses_arguments_to_reload() {
    let c = Command { cmd: "reload".to_string(), args: vec!["x".to_string()] };
    assert_eq!(c.check_args(), Err("reload command does not take arguments, please retry".to_string()));
    let c = Command { cmd: "reload".to_string(), args: vec![] };
    assert_eq!(c.check_args(), Ok(()));
    let c = Command { cmd: "stop".to_string(), args: vec![] };
    assert_eq!(c.check_args(), Ok(()));
}

#[test]
fn client_step_sends_daemon_commands() {
    match client_step("stop nginx".to_string()) {
        ClientStep::Send(c) => {
            assert_eq!(c.cmd, "stop");
            assert_eq!(c.args, vec!["nginx".to_string()]);
        }
        _ => panic!("expected a command to send"),
    }
}

#[test]
fn client_step_handles_help_exit_and_garbage() {
    assert!(matches!(client_step("help".to_string()), ClientStep::Help));
    assert!(matches!(client_step(" exit now".to_string()), ClientStep::Exit));
    assert!(matches!(client_step("hello".to_string()), ClientStep::Invalid));
    assert!(matches!(client_step("".to_string()), ClientStep::Invalid));
}

#[test]
fn interpret_reply_strips_padding_and_spots_quit() {
    let mut buf = String::from("Quit");
    buf.push_str(&"\0".repeat(20));
    assert_eq!(interpret_reply(&buf), ("Quit".to_string(), true));
    assert_eq!(interpret_reply("Program a stopped.\n\0\0"), ("Program a stopped.\n".to_string(), false));
}

#[test]
fn normalized_line_parses_alike() {
    let line = "   restart \t nginx    web  ";
    let normal = line.split_whitespace().collect::<Vec<_>>().join(" ");
    let a = Command::parse(line.to_string()).unwrap();
    let b = Command::parse(normal).unwrap();
    assert_eq!(a.cmd, b.cmd);
    assert_eq!(a.args, b.args);
    assert!(Command::parse("  dance ".to_string()).is_none() && Command::parse("dance".to_string()).is_none());
}
