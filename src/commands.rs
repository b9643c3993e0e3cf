use vstd::prelude::*;

use crate::date::current_stamp;
use crate::error::{error_text, CoreError};
use crate::event::{history_cleared_event, is_error_with, is_notice_with, Event};
use crate::history::{
    all_text, build_prompt, decimal_value, has_key_shape, history_of, keys_ascending, next_stamp,
    prompt_of, turn_key, turns_view, ASSISTANT_ROLE, HUMAN_ROLE, STAMP_DIGITS, WINDOW_ENTRIES,
};
use crate::session::{after_end, InferenceSession, Phase, SessionState, TurnPair};
use crate::store::{
    clear_tree, get_history, get_latest_adjacency_pairs, insert_adjacency_pair, newest_stamp,
    setup_tree,
};

verus! {

/// Reads the full history of a tree into the event that carries it.
pub fn sync_history(tree: &sled::Tree) -> (r: Result<Event, CoreError>)
    ensures
        r matches Ok(ev) ==> ev matches Event::History { entries } && exists|
            es: Seq<(Seq<u8>, Seq<u8>)>,
        | all_text(es) && keys_ascending(es) && turns_view(entries@) == #[trigger] history_of(es),
        r matches Err(e) ==> e == CoreError::StorageUnavailable || e == CoreError::StorageCorrupt,
{
    match get_history(tree) {
        Ok(entries) => Ok(Event::History { entries }),
        Err(e) => Err(e),
    }
}

/// Clears a tree and confirms with "History cleared.".
pub fn clear_history(tree: &sled::Tree) -> (r: Result<Event, CoreError>)
    ensures
        r matches Ok(ev) ==> is_notice_with(ev, "History cleared."@),
        r matches Err(e) ==> e == CoreError::StorageWriteFailed,
{
    match clear_tree(tree) {
        Ok(()) => Ok(history_cleared_event()),
        Err(e) => Err(e),
    }
}

/// An inference run ready to stream: today's tree, the session, and the
/// prompt to hand to the generator.
pub struct PreparedRun {
    pub tree: sled::Tree,
    pub session: InferenceSession,
    pub prompt: String,
}

/// Prepares a run for `message`: opens today's tree, reads its adjacency
/// window and builds the prompt. Without a loaded model no run starts and
/// the observer gets a "No model loaded." error.
pub fn start_inference(db: &sled::Db, message: String, model_loaded: bool) -> (r: Result<
    Result<PreparedRun, Event>,
    CoreError,
>)
    ensures
        r matches Ok(Ok(p)) ==> model_loaded && p.session@ == (SessionState {
            message: message@,
            reply: seq![],
            phase: Phase::Streaming,
        }) && exists|w: Seq<(Seq<char>, Seq<char>)>|
            w.len() <= WINDOW_ENTRIES && p.prompt@ == #[trigger] prompt_of(w, message@),
        r matches Ok(Err(ev)) ==> !model_loaded && is_error_with(
            ev,
            error_text(CoreError::NoModelLoaded),
        ),
        r matches Err(e) ==> e == CoreError::StorageUnavailable || e == CoreError::StorageCorrupt,
{
    let tree = match setup_tree(db) {
        Ok(t) => t,
        Err(e) => return Err(e),
    };
    let window = match get_latest_adjacency_pairs(&tree) {
        Ok(w) => w,
        Err(e) => return Err(e),
    };
    let prompt = build_prompt(&window, message.as_str());
    match InferenceSession::begin(message, model_loaded) {
        Ok(session) => Ok(Ok(PreparedRun { tree, session, prompt })),
        Err(ev) => Ok(Err(ev)),
    }
}

/// What a finished run appended: the exchange, the stamp its keys carry,
/// and the stamp of the tree's newest key before it, if any.
pub struct Appended {
    pub pair: TurnPair,
    pub stamp: u64,
    pub after: Option<u64>,
}

/// Ends a run whose generator ran out. A run still streaming is finished
/// and its exchange is appended as one batch, stamped past the tree's
/// newest key so that both new keys sort after it; a cancelled or failed
/// run appends nothing (`Ok(None)`). When the newest key cannot be read the
/// run is left as it was.
pub fn complete_inference(tree: &sled::Tree, session: &mut InferenceSession) -> (r: Result<
    Option<Appended>,
    CoreError,
>)
    ensures
        old(session)@.phase != Phase::Streaming ==> (r matches Ok(None)) && final(session)@ == old(
            session,
        )@,
        r == Err::<Option<Appended>, CoreError>(CoreError::StorageUnavailable) ==> final(session)@
            == old(session)@,
        old(session)@.phase == Phase::Streaming && r != Err::<Option<Appended>, CoreError>(
            CoreError::StorageUnavailable,
        ) ==> final(session)@ == after_end(old(session)@),
        r matches Ok(Some(a)) ==> {
            &&& old(session)@.phase == Phase::Streaming
            &&& a.pair.user_key@ == turn_key(a.stamp as nat, HUMAN_ROLE)
            &&& a.pair.user_message@ == old(session)@.message
            &&& a.pair.pana_key@ == turn_key(a.stamp as nat, ASSISTANT_ROLE)
            &&& a.pair.pana_message@ == old(session)@.reply
            &&& a.after matches Some(n) ==> (n < u64::MAX ==> a.stamp > n) && exists|k: Seq<u8>|
                has_key_shape(k) && n == #[trigger] decimal_value(k.take(STAMP_DIGITS as int))
        },
        r matches Ok(None) ==> old(session)@.phase != Phase::Streaming,
        r matches Err(e) ==> e == CoreError::StorageUnavailable || e == CoreError::StorageWriteFailed,
{
    if session.phase() != Phase::Streaming {
        return Ok(None);
    }
    let after = match newest_stamp(tree) {
        Ok(n) => n,
        Err(e) => return Err(e),
    };
    let stamp = next_stamp(current_stamp(), after);
    match session.finish(stamp) {
        None => Ok(None),
        Some(pair) => {
            match insert_adjacency_pair(
                pair.user_key.as_str(),
                pair.user_message.as_str(),
                pair.pana_key.as_str(),
                pair.pana_message.as_str(),
                tree,
            ) {
                Ok(()) => Ok(Some(Appended { pair, stamp, after })),
                Err(e) => Err(e),
            }
        },
    }
}

} // verus!
