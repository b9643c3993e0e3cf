use vstd::prelude::*;
use vstd::string::StringExecFns;

use crate::error::{error_text, CoreError};
use crate::event::{is_error_with, Event};
use crate::history::{make_turn_key, turn_key, ASSISTANT_ROLE, HUMAN_ROLE};

verus! {

/// Where an inference run stands.
#[derive(Clone, Copy, Debug, PartialEq, Eq, Structural)]
pub enum Phase {
    Streaming,
    Finished,
    Cancelled,
    Failed,
}

/// The state of a run: the human message, the reply assembled so far, and
/// the phase.
pub struct SessionState {
    pub message: Seq<char>,
    pub reply: Seq<char>,
    pub phase: Phase,
}

/// The state after a fragment arrives. A set cancellation flag ends the run
/// without taking the fragment; otherwise a streaming run appends it.
pub open spec fn after_fragment(st: SessionState, cancelled: bool, text: Seq<char>) -> SessionState {
    if st.phase != Phase::Streaming {
        st
    } else if cancelled {
        SessionState { phase: Phase::Cancelled, ..st }
    } else {
        SessionState { reply: st.reply + text, ..st }
    }
}

/// A fragment is forwarded to the observer only while the run streams and
/// the flag is clear.
pub open spec fn forwards(st: SessionState, cancelled: bool) -> bool {
    st.phase == Phase::Streaming && !cancelled
}

/// The state after the generator runs out: a streaming run is finished.
pub open spec fn after_end(st: SessionState) -> SessionState {
    if st.phase == Phase::Streaming {
        SessionState { phase: Phase::Finished, ..st }
    } else {
        st
    }
}

/// The state after the generator fails: a streaming run has failed.
pub open spec fn after_failure(st: SessionState) -> SessionState {
    if st.phase == Phase::Streaming {
        SessionState { phase: Phase::Failed, ..st }
    } else {
        st
    }
}

/// The state after a sequence of fragments, each with the flag as it was
/// read before it.
pub open spec fn after_fragments(st: SessionState, steps: Seq<(bool, Seq<char>)>) -> SessionState
    decreases steps.len(),
{
    if steps.len() == 0 {
        st
    } else {
        let prev = after_fragments(st, steps.drop_last());
        after_fragment(prev, steps.last().0, steps.last().1)
    }
}

/// How many of those fragments are forwarded to the observer.
pub open spec fn forwarded_count(st: SessionState, steps: Seq<(bool, Seq<char>)>) -> nat
    decreases steps.len(),
{
    if steps.len() == 0 {
        0
    } else {
        let prev = after_fragments(st, steps.drop_last());
        forwarded_count(st, steps.drop_last()) + if forwards(prev, steps.last().0) {
            1nat
        } else {
            0nat
        }
    }
}

/// The human turn and assistant turn a finished run stores.
pub struct TurnPair {
    pub user_key: String,
    pub user_message: String,
    pub pana_key: String,
    pub pana_message: String,
}

/// One inference run: streams fragments to the observer until the generator
/// runs out, fails, or the shared cancellation flag is seen set.
pub struct InferenceSession {
    message: String,
    reply: String,
    phase: Phase,
}

impl View for InferenceSession {
    type V = SessionState;

    closed spec fn view(&self) -> SessionState {
        SessionState { message: self.message@, reply: self.reply@, phase: self.phase }
    }
}

/// The text of the error event for a failed generation.
pub open spec fn failure_text(detail: Seq<char>) -> Seq<char> {
    "Inference failed: "@ + detail
}

impl InferenceSession {
    /// Starts a run for `message`. Without a loaded model no run starts: the
    /// observer gets a "No model loaded." error and nothing is stored.
    pub fn begin(message: String, model_loaded: bool) -> (r: Result<InferenceSession, Event>)
        ensures
            r is Ok <==> model_loaded,
            r matches Ok(s) ==> s@ == (SessionState {
                message: message@,
                reply: seq![],
                phase: Phase::Streaming,
            }),
            r matches Err(ev) ==> is_error_with(ev, error_text(CoreError::NoModelLoaded)),
    {
        if !model_loaded {
            return Err(Event::Error { message: CoreError::NoModelLoaded.message() });
        }
        Ok(InferenceSession { message, reply: String::new(), phase: Phase::Streaming })
    }

    /// Takes the next fragment, with the cancellation flag as just read.
    /// Returns the stream event to forward, if any.
    pub fn on_fragment(&mut self, cancelled: bool, text: String) -> (r: Option<Event>)
        ensures
            final(self)@ == after_fragment(old(self)@, cancelled, text@),
            r is Some <==> forwards(old(self)@, cancelled),
            r matches Some(ev) ==> ev == (Event::StreamFragment { text }),
    {
        if self.phase != Phase::Streaming {
            return None;
        }
        if cancelled {
            self.phase = Phase::Cancelled;
            return None;
        }
        self.reply.append(text.as_str());
        Some(Event::StreamFragment { text })
    }

    /// Ends the run when the generator runs out. A run still streaming is
    /// finished and hands back the pair to store, keyed by `stamp`; a
    /// cancelled or failed run stores nothing.
    pub fn finish(&mut self, stamp: u64) -> (r: Option<TurnPair>)
        ensures
            final(self)@ == after_end(old(self)@),
            r is Some <==> old(self)@.phase == Phase::Streaming,
            r matches Some(p) ==> {
                &&& p.user_key@ == turn_key(stamp as nat, HUMAN_ROLE)
                &&& p.user_message@ == old(self)@.message
                &&& p.pana_key@ == turn_key(stamp as nat, ASSISTANT_ROLE)
                &&& p.pana_message@ == old(self)@.reply
            },
    {
        if self.phase != Phase::Streaming {
            return None;
        }
        self.phase = Phase::Finished;
        Some(
            TurnPair {
                user_key: make_turn_key(stamp, HUMAN_ROLE),
                user_message: self.message.clone(),
                pana_key: make_turn_key(stamp, ASSISTANT_ROLE),
                pana_message: self.reply.clone(),
            },
        )
    }

    /// Ends the run when the generator fails. A run still streaming reports
    /// the failure as an error event; nothing is stored.
    pub fn fail(&mut self, detail: &str) -> (r: Option<Event>)
        ensures
            final(self)@ == after_failure(old(self)@),
            r is Some <==> old(self)@.phase == Phase::Streaming,
            r matches Some(ev) ==> is_error_with(ev, failure_text(detail@)),
    {
        if self.phase != Phase::Streaming {
            return None;
        }
        self.phase = Phase::Failed;
        let mut message = "Inference failed: ".to_owned();
        message.append(detail);
        Some(Event::Error { message })
    }

    /// Where the run stands.
    pub fn phase(&self) -> (r: Phase)
        ensures
            r == self@.phase,
    {
        self.phase
    }

    /// The reply assembled so far.
    pub fn reply(&self) -> (r: &String)
        ensures
            r@ == self@.reply,
    {
        &self.reply
    }
}

proof fn lemma_settled_stays(st: SessionState, steps: Seq<(bool, Seq<char>)>)
    requires
        st.phase != Phase::Streaming,
    ensures
        after_fragments(st, steps) == st,
        forwarded_count(st, steps) == 0,
    decreases steps.len(),
{
    if steps.len() > 0 {
        lemma_settled_stays(st, steps.drop_last());
    }
}

/// Once a fragment arrives with the cancellation flag set, no later fragment
/// is forwarded, whatever the flag reads afterwards, and the run stores no
/// pair when the generator then runs out.
pub proof fn lemma_cancel_stops_stream(
    st: SessionState,
    text: Seq<char>,
    later: Seq<(bool, Seq<char>)>,
)
    ensures
        forwarded_count(after_fragment(st, true, text), later) == 0,
        after_end(after_fragments(after_fragment(st, true, text), later)).phase != Phase::Finished
            || st.phase == Phase::Finished,
        st.phase == Phase::Streaming ==> after_fragments(after_fragment(st, true, text), later).phase
            == Phase::Cancelled,
{
    let c = after_fragment(st, true, text);
    lemma_settled_stays(c, later);
}

} // verus!
