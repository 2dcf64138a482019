//! A poll-and-voting ledger over an ordered key-value store.
//!
//! Polls, their contestants and the votes cast on them live as byte records
//! under byte keys. Commands change the store, queries read it, and every
//! function says in its contract what it answers and how the store changes.
//!
//! * [`contract`]: the commands and queries, and what each of them does;
//! * [`ledger`]: loading and saving polls, contestants and the id counter;
//! * [`records`]: polls and contestants, and the bytes they are stored as;
//! * [`keys`]: the key of each record, and why keys never meet;
//! * [`wire`]: the byte layout of integers, flags, texts and lists;
//! * [`store`]: the store itself, and listings of the entries under a prefix;
//! * [`lex`]: the order of keys;
//! * [`laws`]: what holds of the ledger whatever commands it is given;
//! * [`error`]: the ways to fail.

pub mod contract;
pub mod error;
pub mod keys;
pub mod laws;
pub mod ledger;
pub mod lex;
pub mod records;
pub mod store;
pub mod wire;
