//! What can go wrong.

use vstd::prelude::*;

verus! {

/// The ways an operation on the history can fail. Finding no match is not
/// among them: it is an ordinary answer.
#[derive(Debug, Clone, Copy, PartialEq, Eq, Structural)]
pub enum HistoryError {
    /// A text that had to be a URL could not be read as one.
    ParseFailure,
    /// The durable store could not be opened, read or written.
    StorageUnavailable,
}

} // verus!
