use vstd::prelude::*;

use std::sync::mpsc::Sender;

verus! {

#[verifier::external_type_specification]
#[verifier::external_body]
#[verifier::reject_recursive_types(T)]
pub struct ExSender<T>(std::sync::mpsc::Sender<T>);

/// Sends `message` on `sender` (`std::sync::mpsc::Sender::send`). Whether it is
/// delivered depends on the receiving side; when it is not, `send` hands the
/// message back inside its error, and so does this function.
#[verifier::external_body]
fn send_text(sender: &Sender<String>, message: String) -> (r: Result<(), String>)
    ensures
        r matches Err(m) ==> m == message,
{
    match sender.send(message) {
        Ok(()) => Ok(()),
        Err(e) => Err(e.0),
    }
}

/// A request forwarded to the daemon, with the channel on which its answer goes
/// back to the client connection that made it.
pub struct BidirectionalMessage {
    pub send_stream: Sender<String>,
    pub message: String,
}

impl BidirectionalMessage {
    /// A request carrying `message`, to be answered on `send_stream`.
    pub fn new(message: String, send_stream: Sender<String>) -> (r: BidirectionalMessage)
        ensures
            r.message == message,
            r.send_stream == send_stream,
    {
        BidirectionalMessage { send_stream, message }
    }

    /// Sends the answer `message` back; if the other side is gone, the answer is
    /// returned undelivered.
    pub fn answer(&self, message: String) -> (r: Result<(), String>)
        ensures
            r matches Err(m) ==> m == message,
    {
        send_text(&self.send_stream, message)
    }
}

} // verus!
