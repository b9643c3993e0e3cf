use vstd::prelude::*;

verus! {

/// What the core pushes to its observer.
#[derive(Debug, PartialEq, Eq)]
pub enum Event {
    Error { message: String },
    Notification { message: String },
    History { entries: Vec<(u8, String)> },
    StreamFragment { text: String },
}

/// `ev` is an error event with the given text.
pub open spec fn is_error_with(ev: Event, text: Seq<char>) -> bool {
    ev matches Event::Error { message } && message@ == text
}

/// `ev` is a lifecycle notification with the given text.
pub open spec fn is_notice_with(ev: Event, text: Seq<char>) -> bool {
    ev matches Event::Notification { message } && message@ == text
}

/// The notification event for a message.
pub fn notice_event(message: String) -> (r: Event)
    ensures
        is_notice_with(r, message@),
{
    Event::Notification { message }
}

/// The notification that confirms a cleared history.
pub fn history_cleared_event() -> (r: Event)
    ensures
        is_notice_with(r, "History cleared."@),
{
    notice_event("History cleared.".to_owned())
}

} // verus!
