use vstd::prelude::*;

use crate::text::{nul_pred, split_whitespace, split_ws, strip, trim_nul, views};

verus! {

/// A request of the control shell: a command word and its arguments.
/// It is what the client sends to the daemon and what the daemon reads back.
#[derive(Debug, Clone)]
pub struct Command {
    pub cmd: String,
    pub args: Vec<String>,
}

/// Whether `a` holds the same text as `b`.
pub fn same_text(a: &String, b: &str) -> (r: bool)
    ensures
        r == (a@ == b@),
{
    let t = String::from_str(b);
    *a == t
}

/// The command words the client accepts.
pub open spec fn client_keyword(w: Seq<char>) -> bool {
    ||| w == "start"@
    ||| w == "stop"@
    ||| w == "restart"@
    ||| w == "reload"@
    ||| w == "status"@
    ||| w == "exit"@
    ||| w == "help"@
}

/// What `Command::parse` makes of a line: `None`, or its command word and arguments.
pub open spec fn parse_spec(line: Seq<char>) -> Option<(Seq<char>, Seq<Seq<char>>)> {
    let w = split_ws(line);
    if w.len() > 0 && client_keyword(w[0]) {
        Some((w[0], w.drop_first()))
    } else {
        None
    }
}

/// The complaint about the number of arguments of a command, if there is one.
pub open spec fn args_error(cmd: Seq<char>, nargs: nat) -> Option<Seq<char>> {
    if (cmd == "start"@ || cmd == "restart"@) && nargs == 0 {
        Some(cmd + " command need to take at least one argument, please retry"@)
    } else if cmd == "reload"@ && nargs != 0 {
        Some("reload command does not take arguments, please retry"@)
    } else {
        None
    }
}

/// What the client shell does with one input line.
pub enum ClientStep {
    /// Send this command to the daemon.
    Send(Command),
    /// Print the list of commands.
    Help,
    /// Leave the shell.
    Exit,
    /// The line is not a command.
    Invalid,
}

fn is_client_keyword(w: &String) -> (r: bool)
    ensures
        r == client_keyword(w@),
{
    same_text(w, "start") || same_text(w, "stop") || same_text(w, "restart") || same_text(
        w,
        "reload",
    ) || same_text(w, "status") || same_text(w, "exit") || same_text(w, "help")
}

impl Command {
    /// A command with an empty word and no arguments.
    pub fn new() -> (r: Command)
        ensures
            r.cmd@ == Seq::<char>::empty(),
            r.args@ == Seq::<String>::empty(),
    {
        Command { cmd: String::new(), args: Vec::new() }
    }

    /// Owned copies of the given words, in order.
    pub fn to_vec_of_strings(v: Vec<&str>) -> (r: Vec<String>)
        ensures
            r.len() == v.len(),
            forall|i: int| 0 <= i < v.len() ==> #[trigger] r[i]@ == v[i]@,
    {
        let mut ret: Vec<String> = Vec::new();
        for i in 0..v.len()
            invariant
                ret.len() == i,
                forall|k: int| 0 <= k < i ==> #[trigger] ret[k]@ == v[k]@,
        {
            ret.push(String::from_str(v[i]));
        }
        ret
    }

    /// Reads a command line: its first whitespace-separated word must be one of the
    /// client's command words; the other words are its arguments.
    pub fn parse(line: String) -> (r: Option<Command>)
        ensures
            match r {
                Some(c) => parse_spec(line@) == Some((c.cmd@, views(c.args@))),
                None => parse_spec(line@) is None,
            },
    {
        let words = split_whitespace(line.as_str());
        if words.len() == 0 {
            return None;
        }
        proof {
            assert(views(words@)[0] == words@[0]@);
        }
        if !is_client_keyword(&words[0]) {
            return None;
        }
        let mut result = Self::new();
        result.cmd = words[0].clone();
        let mut args: Vec<String> = Vec::new();
        let mut i: usize = 1;
        while i < words.len()
            invariant
                1 <= i <= words.len(),
                views(args@) =~= views(words@).subrange(1, i as int),
            decreases words.len() - i,
        {
            let ghost before = args@;
            args.push(words[i].clone());
            proof {
                assert(views(args@) =~= views(before).push(words@[i as int]@));
            }
            i = i + 1;
        }
        result.args = args;
        proof {
            assert(views(words@).drop_first() =~= views(words@).subrange(1, words.len() as int));
        }
        Some(result)
    }

    /// Checks the number of arguments before the command is sent: `start` and
    /// `restart` need at least one, `reload` takes none. The error is the message
    /// shown to the user.
    pub fn check_args(&self) -> (r: Result<(), String>)
        ensures
            match r {
                Ok(()) => args_error(self.cmd@, self.args.len() as nat) is None,
                Err(m) => args_error(self.cmd@, self.args.len() as nat) == Some(m@),
            },
    {
        if (same_text(&self.cmd, "start") || same_text(&self.cmd, "restart")) && self.args.len()
            == 0 {
            let mut m = self.cmd.clone();
            m.append(" command need to take at least one argument, please retry");
            Err(m)
        } else if same_text(&self.cmd, "reload") && self.args.len() != 0 {
            Err(String::from_str("reload command does not take arguments, please retry"))
        } else {
            Ok(())
        }
    }
}

/// What the client shell does with one input line: commands for the daemon are
/// sent, `help` and `exit` act locally, anything else is refused.
pub fn client_step(line: String) -> (r: ClientStep)
    ensures
        match parse_spec(line@) {
            None => r is Invalid,
            Some((cmd, args)) => if cmd == "help"@ {
                r is Help
            } else if cmd == "exit"@ {
                r is Exit
            } else {
                r matches ClientStep::Send(c) && c.cmd@ == cmd && views(c.args@) == args
            },
        },
{
    match Command::parse(line) {
        None => ClientStep::Invalid,
        Some(c) => {
            if same_text(&c.cmd, "help") {
                ClientStep::Help
            } else if same_text(&c.cmd, "exit") {
                ClientStep::Exit
            } else {
                ClientStep::Send(c)
            }
        },
    }
}

/// The daemon's answer as read from the socket buffer: the text without the NUL
/// padding around it, and whether it tells the client to quit.
pub fn interpret_reply(raw: &str) -> (r: (String, bool))
    ensures
        r.0@ == strip(raw@, nul_pred()),
        r.1 == (r.0@ == "Quit"@),
{
    let text = trim_nul(raw);
    let quit = same_text(&text, "Quit");
    (text, quit)
}

} // verus!
