use vstd::prelude::*;

use crate::command::same_text;
use crate::text::{split_whitespace, split_ws, views};

verus! {

/// A command of the stand-alone control shell, with the programs it names.
pub enum ShellCommand {
    Start(Vec<String>),
    Restart(Vec<String>),
    Stop(Vec<String>),
    Reload,
    Status,
}

impl View for ShellCommand {
    /// The command word and the programs it names.
    type V = (Seq<char>, Seq<Seq<char>>);

    open spec fn view(&self) -> (Seq<char>, Seq<Seq<char>>) {
        match self {
            ShellCommand::Start(a) => ("start"@, views(a@)),
            ShellCommand::Restart(a) => ("restart"@, views(a@)),
            ShellCommand::Stop(a) => ("stop"@, views(a@)),
            ShellCommand::Reload => ("reload"@, seq![]),
            ShellCommand::Status => ("status"@, seq![]),
        }
    }
}

/// What the shell does with one input line.
pub enum ShellStep {
    /// Run this command.
    Run(ShellCommand),
    /// Print the list of commands.
    Help,
    /// Leave the shell.
    Exit,
    /// Print this message and read the next line.
    Print(String),
}

/// The abstract outcome of one input line.
pub enum ShellOutcome {
    Run(Seq<char>, Seq<Seq<char>>),
    Help,
    Exit,
    Print(Seq<char>),
}

impl View for ShellStep {
    type V = ShellOutcome;

    open spec fn view(&self) -> ShellOutcome {
        match self {
            ShellStep::Run(c) => ShellOutcome::Run(c@.0, c@.1),
            ShellStep::Help => ShellOutcome::Help,
            ShellStep::Exit => ShellOutcome::Exit,
            ShellStep::Print(m) => ShellOutcome::Print(m@),
        }
    }
}

/// Commands that take program names.
pub open spec fn takes_programs(w: Seq<char>) -> bool {
    w == "start"@ || w == "restart"@ || w == "stop"@
}

/// The five commands the shell runs.
pub open spec fn shell_keyword(w: Seq<char>) -> bool {
    takes_programs(w) || w == "reload"@ || w == "status"@
}

/// The command a line makes, or the complaint about its arguments; `words` holds
/// the command word first.
pub open spec fn checked_command(words: Seq<Seq<char>>, name: Seq<char>) -> Result<
    (Seq<char>, Seq<Seq<char>>),
    Seq<char>,
> {
    if takes_programs(name) {
        if words.len() < 2 {
            Err("Error: "@ + name + " command needs at least one argument"@)
        } else {
            Ok((name, words.drop_first()))
        }
    } else {
        if words.len() != 1 {
            Err("Error: "@ + name + " command should have no arguments"@)
        } else {
            Ok((name, seq![]))
        }
    }
}

/// What the shell does with a line made of `words`.
pub open spec fn shell_spec(words: Seq<Seq<char>>) -> ShellOutcome {
    if words.len() == 0 {
        ShellOutcome::Print("No command entered, use help!"@)
    } else if shell_keyword(words[0]) {
        match checked_command(words, words[0]) {
            Ok((c, a)) => ShellOutcome::Run(c, a),
            Err(m) => ShellOutcome::Print(m),
        }
    } else if words[0] == "help"@ {
        ShellOutcome::Help
    } else if words[0] == "exit"@ {
        ShellOutcome::Exit
    } else {
        ShellOutcome::Print("incorrect command :"@ + words[0] + " :Use help !"@)
    }
}

/// The command named `command_name`, carrying `args` where it takes programs.
pub fn launch_command(args: Vec<String>, command_name: &str) -> (r: ShellCommand)
    requires
        shell_keyword(command_name@),
    ensures
        r@.0 == command_name@,
        takes_programs(command_name@) ==> r@.1 == views(args@),
        !takes_programs(command_name@) ==> r@.1 == Seq::<Seq<char>>::empty(),
{
    let name = String::from_str(command_name);
    if same_text(&name, "start") {
        ShellCommand::Start(args)
    } else if same_text(&name, "restart") {
        ShellCommand::Restart(args)
    } else if same_text(&name, "stop") {
        ShellCommand::Stop(args)
    } else if same_text(&name, "reload") {
        ShellCommand::Reload
    } else {
        ShellCommand::Status
    }
}

/// Checks the words of a line (command word first) against what the command
/// `command_name` takes: `start`, `restart` and `stop` need at least one
/// program, `reload` and `status` take none.
pub fn treat_args_commands(strs: Vec<String>, command_name: &str) -> (r: Result<
    ShellCommand,
    String,
>)
    requires
        shell_keyword(command_name@),
    ensures
        match r {
            Ok(c) => checked_command(views(strs@), command_name@) == Ok::<
                (Seq<char>, Seq<Seq<char>>),
                Seq<char>,
            >(c@),
            Err(m) => checked_command(views(strs@), command_name@) == Err::<
                (Seq<char>, Seq<Seq<char>>),
                Seq<char>,
            >(m@),
        },
{
    let name = String::from_str(command_name);
    if same_text(&name, "start") || same_text(&name, "restart") || same_text(&name, "stop") {
        if strs.len() < 2 {
            let mut m = String::from_str("Error: ");
            m.append(command_name);
            m.append(" command needs at least one argument");
            Err(m)
        } else {
            let mut rest: Vec<String> = Vec::new();
            let mut i: usize = 1;
            while i < strs.len()
                invariant
                    1 <= i <= strs.len(),
                    views(rest@) =~= views(strs@).subrange(1, i as int),
                decreases strs.len() - i,
            {
                let ghost before = rest@;
                rest.push(strs[i].clone());
                proof {
                    assert(views(rest@) =~= views(before).push(strs@[i as int]@));
                }
                i = i + 1;
            }
            proof {
                assert(views(strs@).drop_first() =~= views(strs@).subrange(
                    1,
                    strs.len() as int,
                ));
            }
            Ok(launch_command(rest, command_name))
        }
    } else {
        if strs.len() != 1 {
            let mut m = String::from_str("Error: ");
            m.append(command_name);
            m.append(" command should have no arguments");
            Err(m)
        } else {
            Ok(launch_command(strs, command_name))
        }
    }
}

/// What the stand-alone shell does with one input line.
pub fn interpret_line(line: &str) -> (r: ShellStep)
    ensures
        r@ == shell_spec(split_ws(line@)),
{
    let words = split_whitespace(line);
    if words.len() == 0 {
        return ShellStep::Print(String::from_str("No command entered, use help!"));
    }
    proof {
        assert(views(words@)[0] == words@[0]@);
    }
    let first = words[0].clone();
    let w = first.as_str();
    if same_text(&first, "start") || same_text(&first, "restart") || same_text(&first, "stop")
        || same_text(&first, "status") || same_text(&first, "reload") {
        match treat_args_commands(words, w) {
            Ok(c) => ShellStep::Run(c),
            Err(m) => ShellStep::Print(m),
        }
    } else if same_text(&first, "help") {
        ShellStep::Help
    } else if same_text(&first, "exit") {
        ShellStep::Exit
    } else {
        let mut m = String::from_str("incorrect command :");
        m.append(w);
        m.append(" :Use help !");
        ShellStep::Print(m)
    }
}

} // verus!
