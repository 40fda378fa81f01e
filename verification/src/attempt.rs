//! The outcome of an operation that may have to wait for another party.

use vstd::prelude::*;

verus! {

/// What one attempt at a blocking operation came to. The operations of this
/// library never wait: where the real operation would suspend its caller,
/// the attempt changes nothing and says so, and the caller tries again once
/// another party has moved.
#[derive(Debug, PartialEq, Eq)]
pub enum Attempt<T> {
    /// The operation finished with this result.
    Ready(T),
    /// The operation would have had to wait; nothing was changed.
    WouldBlock,
}

} // verus!
