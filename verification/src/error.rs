//! What can go wrong while locks are taken and limits are read.

use vstd::prelude::*;

verus! {

/// The errors of the lock coordinator.
///
/// The first two carry the error number that the operating system gave.
/// They arise where the file handles live; the coordinator itself reports
/// `StateViolation`.
#[derive(Clone, Copy, Debug, PartialEq, Eq, Structural)]
pub enum LockError {
    /// An advisory lock call on an open lock file failed.
    OsLock { errno: i32 },
    /// A lock file could not be created or opened.
    Open { errno: i32 },
    /// The caller asked for a transition that the state table does not
    /// have.
    StateViolation,
    /// The in-process mutex was left poisoned by an earlier panic.
    Poison,
    /// The limit on open file descriptors could not be read or raised.
    FdLimit { errno: i32 },
}

impl LockError {
    /// Whether the build can go on after this error: only a failure to read
    /// or raise the descriptor limit is survivable, by falling back to
    /// coarse locking.
    pub fn is_fatal(&self) -> (r: bool)
        ensures
            r == !(*self is FdLimit),
    {
        match self {
            LockError::FdLimit { .. } => false,
            _ => true,
        }
    }

    /// Whether only the build of the unit at hand is given up, and not the
    /// whole build.
    pub fn aborts_unit_only(&self) -> (r: bool)
        ensures
            r == (*self is OsLock || *self is Open),
    {
        match self {
            LockError::OsLock { .. } | LockError::Open { .. } => true,
            _ => false,
        }
    }
}

} // verus!
