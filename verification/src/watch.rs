//! Watching the inputs for changes.
use vstd::prelude::*;
use notify::Error as NotifyError;

verus! {

/// The error that the file watcher reports.
#[verifier::external_type_specification]
#[verifier::external_body]
pub struct ExNotifyError(NotifyError);

/// Watching the inputs failed.
#[derive(Debug)]
pub enum WatchError {
    Notify(NotifyError),
}

} // verus!
