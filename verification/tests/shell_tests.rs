use taskmaster::shell::{interpret_line, launch_command, treat_args_commands, ShellCommand, ShellStep};

fn words(v: &[&str]) -> Vec<String> {
    v.iter().map(|s| s.to_string()).collect()
}

#[test]
fn launch_command_picks_the_command() {
    assert!(matches!(launch_command(words(&["a"]), "start"), ShellCommand::Start(a) if a == words(&["a"])));
    assert!(matches!(launch_command(words(&["a"]), "restart"), ShellCommand::Restart(_)));
    assert!(matches!(launch_command(words(&["a"]), "stop"), ShellCommand::Stop(_)));
    assert!(matches!(launch_command(words(&["reload"]), "reload"), ShellCommand::Reload));
    assert!(matches!(launch_command(words(&["status"]), "status"), ShellCommand::Status));
}

#[test]
fn treat_args_needs_a_program_for_start() {
    match treat_args_commands(words(&["start"]), "start") {
        Err(m) => assert_eq!(m, "Error: start command needs at least one argument"),
        Ok(_) => panic!("expected an error"),
    }
    match treat_args_commands(words(&["stop", "a", "b"]), "stop") {
        Ok(ShellCommand::Stop(a)) => assert_eq!(a, words(&["a", "b"])),
        _ => panic!("expected stop"),
    }
}

#[test]
fn treat_args_refuses_arguments_to_status() {
    match treat_args_commands(words(&["status", "x"]), "status") {
        Err(m) => assert_eq!(m, "Error: status command should have no arguments"),
        Ok(_) => panic!("expected an error"),
    }
    assert!(matches!(treat_args_commands(words(&["reload"]), "reload"), Ok(ShellCommand::Reload)));
}

#[test]
fn interpret_line_covers_every_branch() {
    assert!(matches!(interpret_line("restart web"), ShellStep::Run(ShellCommand::Restart(a)) if a == words(&["web"])));
    assert!(matches!(interpret_line("help"), ShellStep::Help));
    assert!(matches!(interpret_line("exit"), ShellStep::Exit));
    match interpret_line("") {
        ShellStep::Print(m) => assert_eq!(m, "No command entered, use help!"),
        _ => panic!(),
    }
    match interpret_line("dance now") {
        ShellStep::Print(m) => assert_eq!(m, "incorrect command :dance :Use help !"),
        _ => panic!(),
    }
    match interpret_line("stop") {
        ShellStep::Print(m) => assert_eq!(m, "Error: stop command needs at least one argument"),
        _ => panic!(),
    }
}
