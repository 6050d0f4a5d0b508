use vstd::prelude::*;

verus! {

/// Which constraint of the store a write would have broken.
#[derive(Debug, Clone, Copy, PartialEq, Eq, Structural)]
pub enum StorageFault {
    /// A slice whose end does not come after its start.
    Check,
    /// A second row with a key that must be unique (a tag name, an
    /// association, a description of a slice, a second open slice).
    Unique,
    /// A row that refers to a slice or tag that does not exist.
    ForeignKey,
    /// No identifier is left to hand out.
    Exhausted,
}

/// What an operation of the ledger can fail with.
#[derive(Debug, Clone, Copy, PartialEq, Eq, Structural)]
pub enum Error {
    /// A timer is already running.
    AlreadyRunning,
    /// No timer is running.
    NotRunning,
    /// The store refused a write; nothing was changed.
    Storage(StorageFault),
    /// No slice has the given identifier.
    NotFound,
    /// Malformed text (a duration, an empty tag name).
    InvalidInput,
}

impl Error {
    /// A short message for the user.
    pub fn message(&self) -> (r: &'static str)
        ensures
            r@.len() > 0,
    {
        proof {
            reveal_strlit("Timer is already running!");
            reveal_strlit("No timer is running!");
            reveal_strlit("Storage error");
            reveal_strlit("Time slice not found");
            reveal_strlit("Invalid input");
        }
        match self {
            Error::AlreadyRunning => "Timer is already running!",
            Error::NotRunning => "No timer is running!",
            Error::Storage(_) => "Storage error",
            Error::NotFound => "Time slice not found",
            Error::InvalidInput => "Invalid input",
        }
    }
}

} // verus!
