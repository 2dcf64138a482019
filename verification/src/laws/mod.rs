//! What holds of the ledger whatever commands it is given.
//!
//! The laws speak of the entries of a store and of the `spec` functions of
//! the commands, which say what the executable commands answer and leave
//! behind.

pub mod consistency;
pub mod frame;
pub mod listings;
pub mod runs;
pub mod votes;
