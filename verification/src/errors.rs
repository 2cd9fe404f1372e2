//! The error taxonomy of the migration pipeline.

use vstd::prelude::*;

verus! {

/// Everything that can abort a run. Every occurrence is fatal: no error is
/// retried or suppressed.
#[derive(Clone, Copy, Debug, PartialEq, Eq, Structural)]
pub enum HubError {
    /// Malformed key-construction input (wrong hash length).
    Validation,
    /// A buffer too short for the requested key structure.
    Decode,
    /// An open, scan, put or close failure from the underlying store.
    StoreIo,
    /// An internal queue hand-off failure; unreachable under correct
    /// shutdown sequencing.
    Pipeline,
}

impl HubError {
    /// A short stable code for each error, for operator-facing messages.
    pub fn code(&self) -> (r: &'static str)
        ensures
            self is Validation ==> r@ == "bad_request.validation_failure"@,
            self is Decode ==> r@ == "bad_request.insufficient_data"@,
            self is StoreIo ==> r@ == "unavailable.storage_failure"@,
            self is Pipeline ==> r@ == "unavailable.pipeline_failure"@,
    {
        match self {
            HubError::Validation => "bad_request.validation_failure",
            HubError::Decode => "bad_request.insufficient_data",
            HubError::StoreIo => "unavailable.storage_failure",
            HubError::Pipeline => "unavailable.pipeline_failure",
        }
    }
}

} // verus!
