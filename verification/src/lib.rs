//! A single-session, multi-account task tracker: accounts register with
//! credentials, authenticate into a session, and manage a personal set of
//! tasks. The store enforces an ownership rule (only the creating account may
//! read or modify a task) and renders its whole state as two human-readable
//! snapshots that a caller can persist and restore.

use vstd::prelude::*;

pub mod codec;
pub mod errors;
pub mod store;

verus! {

/// Seconds since the Unix epoch, as the task creation timestamp.
pub type EpochSeconds = i64;

} // verus!
