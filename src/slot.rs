use vstd::prelude::*;
use vstd::string::StringExecFns;

use crate::error::CoreError;
use crate::event::{is_error_with, is_notice_with, notice_event, Event};

verus! {

/// The slot of the one in-flight download task: holds its handle, or none.
pub struct DownloadSlot<T> {
    current: Option<T>,
}

impl<T> View for DownloadSlot<T> {
    type V = Option<T>;

    closed spec fn view(&self) -> Option<T> {
        self.current
    }
}

/// The stored handle after a task starts.
pub open spec fn after_start<T>(s: Option<T>, task: T) -> Option<T> {
    Some(task)
}

/// The handle a start hands back: the one stored before it.
pub open spec fn superseded_by_start<T>(s: Option<T>) -> Option<T> {
    s
}

/// The stored handle after a stop.
pub open spec fn after_stop<T>(s: Option<T>) -> Option<T> {
    None
}

/// The handle a stop hands back for cancellation.
pub open spec fn handle_of_stop<T>(s: Option<T>) -> Option<T> {
    s
}

impl<T> DownloadSlot<T> {
    /// A slot with no task.
    pub fn new() -> (r: Self)
        ensures
            r@ is None,
    {
        DownloadSlot { current: None }
    }

    /// Stores the handle of a newly started task and hands back the one it
    /// supersedes, so that the caller can cancel it before dropping it.
    pub fn replace(&mut self, task: T) -> (prev: Option<T>)
        ensures
            final(self)@ == after_start(old(self)@, task),
            prev == superseded_by_start(old(self)@),
    {
        let prev = self.current.take();
        self.current = Some(task);
        prev
    }

    /// Takes the stored handle, leaving none behind.
    pub fn take(&mut self) -> (r: Option<T>)
        ensures
            r == handle_of_stop(old(self)@),
            final(self)@ == after_stop(old(self)@),
    {
        self.current.take()
    }

    /// Whether a task handle is stored.
    pub fn is_occupied(&self) -> (r: bool)
        ensures
            r == self@ is Some,
    {
        self.current.is_some()
    }
}

/// Once a second download starts before the first is stopped, the first
/// handle is handed back for cancellation, stopping hands back the second
/// one's handle, and stopping again hands back nothing.
pub proof fn lemma_latest_download_is_stopped<T>(s: Option<T>, a: T, b: T)
    ensures
        superseded_by_start(after_start(s, a)) == Some(a),
        handle_of_stop(after_start(after_start(s, a), b)) == Some(b),
        handle_of_stop(after_stop(after_start(after_start(s, a), b))) is None,
{
}

/// The first case where a model's metadata could not be found, the second
/// where its handle could not be constructed, the third where it was built.
pub enum LoadStep<M> {
    NotResolved,
    NotConstructed,
    Constructed(M),
}

/// The active model after a load attempt: replaced on success, unchanged on
/// failure.
pub open spec fn after_load<M>(active: Option<M>, step: LoadStep<M>) -> Option<M> {
    match step {
        LoadStep::Constructed(m) => Some(m),
        _ => active,
    }
}

/// The error a load attempt ends in, if any.
pub open spec fn load_error<M>(step: LoadStep<M>) -> Option<CoreError> {
    match step {
        LoadStep::NotResolved => Some(CoreError::ModelResolutionFailed),
        LoadStep::NotConstructed => Some(CoreError::ModelLoadFailed),
        LoadStep::Constructed(_) => None,
    }
}

/// The slot of the single active model.
pub struct ModelSlot<M> {
    active: Option<M>,
}

impl<M> View for ModelSlot<M> {
    type V = Option<M>;

    closed spec fn view(&self) -> Option<M> {
        self.active
    }
}

impl<M> ModelSlot<M> {
    /// A slot with no model loaded.
    pub fn new() -> (r: Self)
        ensures
            r@ is None,
    {
        ModelSlot { active: None }
    }

    /// Applies a load attempt. On success the new handle replaces (and drops)
    /// the old one and a "Model loaded." notification comes back; on failure
    /// the active model stays as it was.
    pub fn load(&mut self, step: LoadStep<M>) -> (r: Result<Event, CoreError>)
        ensures
            final(self)@ == after_load(old(self)@, step),
            r is Ok <==> load_error(step) is None,
            r matches Ok(ev) ==> is_notice_with(ev, "Model loaded."@),
            r matches Err(e) ==> load_error(step) == Some(e),
    {
        match step {
            LoadStep::NotResolved => Err(CoreError::ModelResolutionFailed),
            LoadStep::NotConstructed => Err(CoreError::ModelLoadFailed),
            LoadStep::Constructed(m) => {
                self.active = Some(m);
                Ok(notice_event("Model loaded.".to_owned()))
            },
        }
    }

    /// Drops the active model, if any, and confirms with "Model unloaded.".
    pub fn unload(&mut self) -> (r: Event)
        ensures
            final(self)@ is None,
            is_notice_with(r, "Model unloaded."@),
    {
        self.active = None;
        notice_event("Model unloaded.".to_owned())
    }

    /// The active model, shared without transferring ownership.
    pub fn active(&self) -> (r: Option<&M>)
        ensures
            r is None <==> self@ is None,
            r matches Some(m) ==> self@ == Some(*m),
    {
        match &self.active {
            Some(m) => Some(m),
            None => None,
        }
    }
}

/// A load that fails, whether the model cannot be resolved or its handle
/// cannot be built, leaves the previously active model in place.
pub proof fn lemma_failed_load_keeps_active<M>(active: Option<M>, step: LoadStep<M>)
    requires
        load_error(step) is Some,
    ensures
        after_load(active, step) == active,
{
}

/// Looks a model up by name in the catalog: the index of the first entry
/// with that name.
pub fn find_model(catalog: &Vec<String>, name: &String) -> (r: Option<usize>)
    ensures
        r matches Some(i) ==> i < catalog@.len() && catalog@[i as int]@ == name@ && forall|j: int|
            0 <= j < i ==> #[trigger] catalog@[j]@ != name@,
        r is None ==> forall|j: int| 0 <= j < catalog@.len() ==> #[trigger] catalog@[j]@ != name@,
{
    let mut i: usize = 0;
    while i < catalog.len()
        invariant
            i <= catalog@.len(),
            forall|j: int| 0 <= j < i ==> #[trigger] catalog@[j]@ != name@,
        decreases catalog.len() - i,
    {
        if catalog[i] == *name {
            return Some(i);
        }
        i = i + 1;
    }
    None
}

/// What to do with a download request: fetch the catalog entry at an index,
/// or report an error and fetch nothing.
pub enum DownloadPlan {
    Fetch(usize),
    Reject(Event),
}

/// Decides a download request against the catalog: an unknown name is
/// rejected with "Model not found.".
pub fn plan_download(catalog: &Vec<String>, name: &String) -> (r: DownloadPlan)
    ensures
        r matches DownloadPlan::Fetch(i) ==> i < catalog@.len() && catalog@[i as int]@ == name@
            && forall|j: int| 0 <= j < i ==> #[trigger] catalog@[j]@ != name@,
        r matches DownloadPlan::Reject(ev) ==> is_error_with(ev, "Model not found."@) && forall|
            j: int,
        | 0 <= j < catalog@.len() ==> #[trigger] catalog@[j]@ != name@,
{
    match find_model(catalog, name) {
        Some(i) => DownloadPlan::Fetch(i),
        None => DownloadPlan::Reject(Event::Error { message: "Model not found.".to_owned() }),
    }
}

/// The text of the error event for a failed transfer.
pub open spec fn download_failure_text(detail: Seq<char>) -> Seq<char> {
    "Failed to download model: "@ + detail
}

/// The error event for a transfer that failed with `detail`.
pub fn download_failed_event(detail: &str) -> (r: Event)
    ensures
        is_error_with(r, download_failure_text(detail@)),
{
    let mut message = "Failed to download model: ".to_owned();
    message.append(detail);
    Event::Error { message }
}

} // verus!
