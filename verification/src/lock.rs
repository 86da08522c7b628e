//! Lock levels.
//!
//! One empty marker file stands for each cache entry, and the operating system
//! keeps an advisory lock on it for every process: shared for those that read
//! the entry, exclusive for the one that rebuilds it. The requests themselves
//! are made by the caller, who reports how each ended. What is kept here is
//! the level that the process holds, as a value that is handed to the
//! operations that need that level.
//!
//! A [`Lock`] has no public constructor: a shared one comes from
//! [`lock_shared`], an exclusive one from [`Lock::upgrade`], and there is no
//! way from exclusive back to shared. It is given up by dropping it.

use vstd::prelude::*;

verus! {

/// The level of a lock that other holders may share.
#[derive(Debug, Clone, Copy, PartialEq, Eq, Structural)]
pub struct Shared;

/// The level of a lock that has no other holder.
#[derive(Debug, Clone, Copy, PartialEq, Eq, Structural)]
pub struct Exclusive;

/// Why a lock request failed.
#[derive(Debug, Clone, Copy, PartialEq, Eq, Structural)]
pub enum LockError {
    /// Granting the request would have left several processes waiting for
    /// each other. It is the answer that all but one of the processes get that
    /// try to upgrade at the same time.
    Deadlock,
    /// Any other failure, with the operating system's error number.
    Os(i32),
}

/// A held lock on a marker, at level `M`.
#[derive(Debug)]
pub struct Lock<M> {
    mode: M,
}

/// Takes up the answer to a request for a shared lock.
///
/// A granted request gives the lock; a refused one gives its error back.
pub fn lock_shared(outcome: Result<(), LockError>) -> (held: Result<Lock<Shared>, LockError>)
    ensures
        held is Ok <==> outcome is Ok,
        held matches Err(e) ==> outcome == Err::<(), LockError>(e),
{
    match outcome {
        Ok(()) => Ok(Lock { mode: Shared }),
        Err(e) => Err(e),
    }
}

impl Lock<Shared> {
    /// Takes up the answer to a request to make this shared lock exclusive.
    ///
    /// A granted request gives the exclusive lock in place of the shared one.
    /// After a refused one no lock is left: the shared lock is given up, so
    /// that another process can go on.
    pub fn upgrade(self, outcome: Result<(), LockError>) -> (held: Result<Lock<Exclusive>, LockError>)
        ensures
            held is Ok <==> outcome is Ok,
            held matches Err(e) ==> outcome == Err::<(), LockError>(e),
    {
        match outcome {
            Ok(()) => Ok(Lock { mode: Exclusive }),
            Err(e) => Err(e),
        }
    }
}

} // verus!
