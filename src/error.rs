use vstd::prelude::*;

verus! {

/// Why an engine operation failed.
#[derive(Debug, PartialEq, Eq)]
pub enum SyncError {
    /// A transaction named an action other than create, update or delete;
    /// carries the offending action.
    InvalidAction(String),
    /// The log could not take another entry.
    Persistence,
}

} // verus!
