//! An inbound chat message and the routing fields taken from it.
use vstd::prelude::*;

verus! {

/// A decoded inbound message event.
pub struct InboundMessage {
    /// Present for anything but a plain new message (an edit, a join).
    pub subtype: Option<String>,
    pub text: Option<String>,
    /// The channel identifier of the origin.
    pub channel: Option<String>,
    /// The message's own timestamp.
    pub ts: String,
    /// The timestamp of the thread's parent, for a message in a thread.
    pub thread_ts: Option<String>,
}

/// A field the routing needs is missing from a message.
#[derive(PartialEq, Eq, Structural, Debug, Clone, Copy)]
pub enum EventError {
    TextMissing,
    ChannelMissing,
}

/// The thread a reply to `m` goes to: its parent's, or its own.
pub open spec fn thread_of(m: InboundMessage) -> Seq<char> {
    match m.thread_ts {
        Some(t) => t@,
        None => m.ts@,
    }
}

pub fn extract_msg_body(msg: &InboundMessage) -> (r: Result<String, EventError>)
    ensures
        match msg.text {
            Some(t) => r.is_ok() && r.unwrap()@ == t@,
            None => r == Err::<String, EventError>(EventError::TextMissing),
        },
{
    match &msg.text {
        Some(t) => Ok(t.clone()),
        None => Err(EventError::TextMissing),
    }
}

pub fn extract_channel_id(msg: &InboundMessage) -> (r: Result<String, EventError>)
    ensures
        match msg.channel {
            Some(c) => r.is_ok() && r.unwrap()@ == c@,
            None => r == Err::<String, EventError>(EventError::ChannelMissing),
        },
{
    match &msg.channel {
        Some(c) => Ok(c.clone()),
        None => Err(EventError::ChannelMissing),
    }
}

pub fn extract_thread_ts(msg: &InboundMessage) -> (r: String)
    ensures
        r@ == thread_of(*msg),
{
    match &msg.thread_ts {
        Some(t) => t.clone(),
        None => msg.ts.clone(),
    }
}

pub fn extract_msg_ts(msg: &InboundMessage) -> (r: String)
    ensures
        r@ == msg.ts@,
{
    msg.ts.clone()
}

/// The reply target of a message: its channel and thread.
pub fn extract_channel_thread(msg: &InboundMessage) -> (r: Result<(String, String), EventError>)
    ensures
        match msg.channel {
            Some(c) => r.is_ok() && r.unwrap().0@ == c@ && r.unwrap().1@ == thread_of(*msg),
            None => r == Err::<(String, String), EventError>(EventError::ChannelMissing),
        },
{
    let channel_id = extract_channel_id(msg)?;
    let thread_ts = extract_thread_ts(msg);
    Ok((channel_id, thread_ts))
}

} // verus!
