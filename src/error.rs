use vstd::prelude::*;

verus! {

/// The failures the session core reports.
#[derive(Clone, Copy, Debug, PartialEq, Eq, Structural)]
pub enum CoreError {
    StorageUnavailable,
    StorageWriteFailed,
    StorageCorrupt,
    ModelResolutionFailed,
    ModelLoadFailed,
    NoModelLoaded,
    DownloadFailed,
    LockUnavailable,
}

/// The human-readable text of each error kind.
pub open spec fn error_text(e: CoreError) -> Seq<char> {
    match e {
        CoreError::StorageUnavailable => "Storage is unavailable."@,
        CoreError::StorageWriteFailed => "Failed to write to storage."@,
        CoreError::StorageCorrupt => "Storage holds an entry that is not valid text."@,
        CoreError::ModelResolutionFailed => "Failed to resolve the model."@,
        CoreError::ModelLoadFailed => "Failed to load the model."@,
        CoreError::NoModelLoaded => "No model loaded."@,
        CoreError::DownloadFailed => "Failed to download model."@,
        CoreError::LockUnavailable => "Something went wrong while acquiring a lock."@,
    }
}

impl CoreError {
    /// The message shown to the user for this error.
    pub fn message(&self) -> (r: String)
        ensures
            r@ == error_text(*self),
    {
        match self {
            CoreError::StorageUnavailable => "Storage is unavailable.".to_owned(),
            CoreError::StorageWriteFailed => "Failed to write to storage.".to_owned(),
            CoreError::StorageCorrupt => "Storage holds an entry that is not valid text.".to_owned(),
            CoreError::ModelResolutionFailed => "Failed to resolve the model.".to_owned(),
            CoreError::ModelLoadFailed => "Failed to load the model.".to_owned(),
            CoreError::NoModelLoaded => "No model loaded.".to_owned(),
            CoreError::DownloadFailed => "Failed to download model.".to_owned(),
            CoreError::LockUnavailable => "Something went wrong while acquiring a lock.".to_owned(),
        }
    }
}

} // verus!
