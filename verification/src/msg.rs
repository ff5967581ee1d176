//! Plain response values shared with the host's message layer.

use vstd::prelude::*;

verus! {

/// Success-or-failure marker for responses.
#[derive(Clone, Copy, Debug, PartialEq, Eq, Structural)]
pub enum ResponseStatus {
    /// The operation committed.
    Success,
    /// The operation failed and left no partial write.
    Failure,
}

} // verus!
