//! The message value exchanged between peers: text content, the sender's
//! peer identifier, and an RFC 3339 timestamp taken at send time.

use vstd::prelude::*;

verus! {

/// A broadcast message. A plain value: created once at send time, never
/// mutated afterwards.
#[derive(Clone, Debug)]
pub struct P2PMessage {
    pub content: String,
    pub sender: String,
    pub timestamp: String,
}

/// Mathematical model of a message: the three fields as character sequences.
#[verifier::ext_equal]
pub ghost struct MessageView {
    pub content: Seq<char>,
    pub sender: Seq<char>,
    pub timestamp: Seq<char>,
}

impl View for P2PMessage {
    type V = MessageView;

    open spec fn view(&self) -> MessageView {
        MessageView { content: self.content@, sender: self.sender@, timestamp: self.timestamp@ }
    }
}

/// Relies on chrono's `Utc::now().to_rfc3339()`: the current instant as an
/// RFC 3339 text timestamp. The result depends on the clock, so nothing is
/// assumed of it beyond being non-empty.
#[verifier::external_body]
fn now_rfc3339() -> (r: String)
    ensures
        r@.len() > 0,
{
    chrono::Utc::now().to_rfc3339()
}

/// Wrap outgoing text into a message stamped with the current time.
pub fn compose_message(content: String, sender: String) -> (m: P2PMessage)
    ensures
        m@.content == content@,
        m@.sender == sender@,
        m@.timestamp.len() > 0,
{
    P2PMessage { content, sender, timestamp: now_rfc3339() }
}

} // verus!
