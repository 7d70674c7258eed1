use vstd::prelude::*;

use crate::text::decimal_text;

verus! {

/// The banner line of a log record.
pub open spec fn banner(from: Seq<char>) -> Seq<char> {
    "\n"@ + "###############"@ + " From "@ + from + " "@ + "###############"@ + "\n"@
}

/// The text a log record adds to the log file: a banner naming who speaks,
/// then the message.
pub fn log_record(from: &str, message: &str) -> (r: String)
    ensures
        r@ == banner(from@) + message@,
{
    let mut s = String::from_str("\n");
    s.append("###############");
    s.append(" From ");
    s.append(from);
    s.append(" ");
    s.append("###############");
    s.append("\n");
    s.append(message);
    s
}

/// How the server names a client connection in its log: by its descriptor.
pub fn client_label(fd: u32) -> (r: String)
    ensures
        r@ == "Client "@ + crate::text::decimal(fd as nat),
{
    let mut s = String::from_str("Client ");
    let n = decimal_text(fd as u64);
    s.append(n.as_str());
    s
}

} // verus!
