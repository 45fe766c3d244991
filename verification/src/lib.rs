//! An in-process key-value store core with verified state handling.
//!
//! The store maps text keys to text values. Two deployment styles share this
//! core: a shared map guarded by a lock, and an actor design in which one
//! worker owns the state and drains a bounded mailbox of commands. Everything
//! that decides — lookup, insert, removal, applying a command, the mailbox
//! discipline — lives here with contracts; the embedding application supplies
//! the lock or the channels around it.

pub mod actor;
pub mod laws;
pub mod protocol;
pub mod store;
