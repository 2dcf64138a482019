//! The ways a command or a query can fail.

use vstd::prelude::*;

verus! {

/// Outcome of a command or query that did not succeed.
#[derive(Clone, Copy, Debug, PartialEq, Eq, Structural)]
pub enum ContractError {
    /// The poll or contestant that was named is not in the store. The query
    /// for one poll answers so too where the entry of the poll cannot be read.
    NotFound,
    /// The caller is already among the voters of the poll.
    AlreadyVoted,
    /// A stored value is not the encoding of the record that its key calls for.
    MalformedRecord,
    /// The store cannot take the write: a counter would pass `u64::MAX`.
    StorageFailure,
}

} // verus!
