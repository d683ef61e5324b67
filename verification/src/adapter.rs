//! What the HTTP front end answers: the greeting, and the server-sent events
//! that carry a chat reply.
use vstd::prelude::*;

verus! {

/// The answer to `GET /`.
pub fn hello_world() -> (r: &'static str)
    ensures
        r@ == "Hello, World!"@,
{
    "Hello, World!"
}

/// A piece of a chat reply on its way to the browser.
pub enum ChatEvent {
    /// A piece of reply text.
    Delta(String),
    /// The reply is complete.
    Done,
}

/// A server-sent event: its optional `event:` name and its `data:` text.
pub struct SseFrame {
    pub event: Option<String>,
    pub data: String,
}

/// The text that reports an error to the browser.
pub open spec fn error_text(e: Seq<char>) -> Seq<char> {
    "错误："@ + e
}

/// The event that reports an error to the browser.
pub fn error_event(e: &str) -> (ev: ChatEvent)
    ensures
        ev matches ChatEvent::Delta(t) && t@ == error_text(e@),
{
    let mut t = "错误：".to_owned();
    t.append(e);
    ChatEvent::Delta(t)
}

/// The event that closes a chat turn whose reply pieces were already sent
/// one by one: the end marker after a reply, or the error report.
pub fn closing_event(outcome: Result<String, String>) -> (ev: ChatEvent)
    ensures
        match outcome {
            Ok(_) => ev is Done,
            Err(e) => ev matches ChatEvent::Delta(d) && d@ == error_text(e@),
        },
{
    match outcome {
        Ok(_) => ChatEvent::Done,
        Err(e) => error_event(e.as_str()),
    }
}

/// The server-sent event for a chat event: a piece of text is sent as data,
/// the end as an event named `done` with empty data.
pub fn sse_frame(ev: &ChatEvent) -> (f: SseFrame)
    ensures
        match ev {
            ChatEvent::Delta(t) => f.event is None && f.data@ == t@,
            ChatEvent::Done => (f.event matches Some(n) && n@ == "done"@) && f.data@ == Seq::<char>::empty(),
        },
{
    match ev {
        ChatEvent::Delta(t) => SseFrame { event: None, data: t.clone() },
        ChatEvent::Done => SseFrame { event: Some("done".to_owned()), data: String::new() },
    }
}

} // verus!
