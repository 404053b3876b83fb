//! Error taxonomy of the store. Domain errors are expected, recoverable
//! outcomes that a caller reports and continues from.

use vstd::prelude::*;

verus! {

/// Failure of `register`: the username is already taken.
#[derive(Debug, Clone, Copy, PartialEq, Eq, Structural)]
pub enum RegisterError {
    DuplicateAccount,
}

/// Failure of `login`: unknown username or wrong password. The two causes are
/// deliberately indistinguishable.
#[derive(Debug, Clone, Copy, PartialEq, Eq, Structural)]
pub enum LoginError {
    InvalidCredentials,
}

/// Failure of a task operation. `TaskNotFound` (no task with that id) and
/// `NotAuthorized` (the task exists but belongs to another account) are kept
/// separate so a caller can tell the two apart.
#[derive(Debug, Clone, Copy, PartialEq, Eq, Structural)]
pub enum TaskError {
    NotAuthenticated,
    TaskNotFound,
    NotAuthorized,
}

impl RegisterError {
    /// A short human-readable description.
    pub fn message(&self) -> &'static str {
        "Username already exists"
    }
}

impl LoginError {
    /// A short human-readable description.
    pub fn message(&self) -> &'static str {
        "Invalid username or password"
    }
}

impl TaskError {
    /// A short human-readable description.
    pub fn message(&self) -> &'static str {
        match self {
            TaskError::NotAuthenticated => "Not logged in",
            TaskError::TaskNotFound => "Task not found",
            TaskError::NotAuthorized => "Not authorized to modify another account's task",
        }
    }
}

} // verus!
