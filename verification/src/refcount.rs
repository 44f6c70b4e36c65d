//! The process-local record of one lock file.
//!
//! Many logical holders inside one process collapse onto a single lock of
//! the operating system: the record counts the shared holders and asks for
//! a call on the file handle only when the first one arrives or the last
//! one leaves. The record decides; whoever owns the file handle waits and
//! makes the calls.

use vstd::prelude::*;
use crate::error::LockError;
use crate::state::{LockMode, LockOp};

verus! {

/// A call to make on the handle of a lock file.
#[derive(Clone, Copy, Debug, PartialEq, Eq, Structural)]
pub enum OsCall {
    /// The file is already held as needed.
    Nothing,
    LockShared,
    LockExclusive,
    Unlock,
}

/// The answer to a request to lock.
#[derive(Clone, Copy, Debug, PartialEq, Eq, Structural)]
pub enum LockStep {
    /// The request cannot be granted now. Nothing was changed; ask again
    /// when a holder has left.
    Wait,
    /// The request is granted once this call has been made on the handle.
    Proceed(OsCall),
}

/// Whether those who wait for the file are to be woken after the
/// operation `op` was answered with `step`: they are when the file was let
/// go, and not after a downgrade, which leaves the file held.
pub open spec fn wakes(op: LockOp, step: LockStep) -> bool {
    op == LockOp::Unlock && step == LockStep::Proceed(OsCall::Unlock)
}

/// Whether those who wait for the file are to be woken after the
/// operation `op` was answered with `step`.
pub fn wakes_waiters(op: LockOp, step: LockStep) -> (r: bool)
    ensures
        r == wakes(op, step),
{
    match (op, step) {
        (LockOp::Unlock, LockStep::Proceed(OsCall::Unlock)) => true,
        _ => false,
    }
}

/// The holders of one lock file inside this process.
#[derive(Clone, Copy, Debug)]
pub struct RefCountedLock {
    exclusive: bool,
    share_count: u64,
}

impl RefCountedLock {
    /// Whether one holder has the file exclusively.
    pub closed spec fn exclusive(&self) -> bool {
        self.exclusive
    }

    /// The number of shared holders.
    pub closed spec fn share_count(&self) -> nat {
        self.share_count as nat
    }

    /// An exclusive holder and shared holders never coexist.
    pub open spec fn wf(&self) -> bool {
        !(self.exclusive() && self.share_count() > 0)
    }

    /// The mode in which the process holds the file.
    pub open spec fn mode(&self) -> LockMode {
        if self.exclusive() {
            LockMode::Exclusive
        } else if self.share_count() > 0 {
            LockMode::Shared
        } else {
            LockMode::Unlocked
        }
    }

    /// The record of a file that nobody holds.
    pub fn new() -> (r: Self)
        ensures
            r.wf(),
            !r.exclusive(),
            r.share_count() == 0,
    {
        RefCountedLock { exclusive: false, share_count: 0 }
    }

    /// The mode in which the process holds the file.
    pub fn current_mode(&self) -> (m: LockMode)
        ensures
            m == self.mode(),
    {
        if self.exclusive {
            LockMode::Exclusive
        } else if self.share_count > 0 {
            LockMode::Shared
        } else {
            LockMode::Unlocked
        }
    }

    /// The number of shared holders.
    pub fn holders(&self) -> (n: u64)
        ensures
            n == self.share_count(),
    {
        self.share_count
    }

    /// Asks for the file exclusively: granted, with a call to lock it
    /// exclusively, exactly when nobody holds it.
    pub fn lock_exclusive(&mut self) -> (step: LockStep)
        requires
            old(self).wf(),
        ensures
            final(self).wf(),
            old(self).mode() != LockMode::Unlocked ==> step == LockStep::Wait && *final(self)
                == *old(self),
            old(self).mode() == LockMode::Unlocked ==> step == LockStep::Proceed(
                OsCall::LockExclusive,
            ) && final(self).exclusive() && final(self).share_count() == 0,
    {
        if self.exclusive || self.share_count > 0 {
            LockStep::Wait
        } else {
            self.exclusive = true;
            LockStep::Proceed(OsCall::LockExclusive)
        }
    }

    /// Asks for the file in shared mode: granted unless a holder has it
    /// exclusively or the count of holders is exhausted. Only the first
    /// shared holder has the file locked; the others join it.
    pub fn lock_shared(&mut self) -> (step: LockStep)
        requires
            old(self).wf(),
        ensures
            final(self).wf(),
            final(self).exclusive() == old(self).exclusive(),
            old(self).exclusive() || old(self).share_count() == u64::MAX ==> step == LockStep::Wait
                && *final(self) == *old(self),
            !old(self).exclusive() && old(self).share_count() < u64::MAX ==> {
                &&& final(self).share_count() == old(self).share_count() + 1
                &&& step == LockStep::Proceed(
                    if old(self).share_count() == 0 {
                        OsCall::LockShared
                    } else {
                        OsCall::Nothing
                    },
                )
            },
    {
        if self.exclusive || self.share_count == u64::MAX {
            LockStep::Wait
        } else {
            let first = self.share_count == 0;
            self.share_count = self.share_count + 1;
            LockStep::Proceed(
                if first {
                    OsCall::LockShared
                } else {
                    OsCall::Nothing
                },
            )
        }
    }

    /// One holder leaves. The file is unlocked when the exclusive holder or
    /// the last shared holder leaves, and is left as it is while other
    /// shared holders remain. On a file that nobody holds the record stays
    /// as it is, and the call to unlock is harmless.
    pub fn unlock(&mut self) -> (call: OsCall)
        requires
            old(self).wf(),
        ensures
            final(self).wf(),
            !final(self).exclusive(),
            final(self).share_count() == if old(self).share_count() > 1 {
                old(self).share_count() - 1
            } else {
                0
            },
            call == if old(self).share_count() > 1 {
                OsCall::Nothing
            } else {
                OsCall::Unlock
            },
    {
        if self.exclusive {
            self.exclusive = false;
            OsCall::Unlock
        } else if self.share_count > 1 {
            self.share_count = self.share_count - 1;
            OsCall::Nothing
        } else {
            self.share_count = 0;
            OsCall::Unlock
        }
    }

    /// The record after the operation `op` was carried out on it.
    pub closed spec fn after(self, op: LockOp) -> RefCountedLock {
        match op {
            LockOp::LockExclusive => if self.exclusive || self.share_count > 0 {
                self
            } else {
                RefCountedLock { exclusive: true, share_count: 0 }
            },
            LockOp::LockShared => if self.exclusive || self.share_count == u64::MAX {
                self
            } else {
                RefCountedLock { exclusive: false, share_count: (self.share_count + 1) as u64 }
            },
            LockOp::Downgrade => if self.exclusive {
                RefCountedLock { exclusive: false, share_count: 1 }
            } else {
                self
            },
            LockOp::Unlock => RefCountedLock {
                exclusive: false,
                share_count: if self.share_count > 1 {
                    (self.share_count - 1) as u64
                } else {
                    0
                },
            },
        }
    }

    /// An operation leaves a well-formed record well formed, and what it
    /// leaves is what `applied` says of it, with some answer.
    pub proof fn lemma_after(self, op: LockOp)
        requires
            self.wf(),
        ensures
            self.after(op).wf(),
            exists|answer: Result<LockStep, LockError>| applied(self, op, self.after(op), answer),
    {
        let answer: Result<LockStep, LockError> = match op {
            LockOp::LockExclusive => if self.mode() == LockMode::Unlocked {
                Ok(LockStep::Proceed(OsCall::LockExclusive))
            } else {
                Ok(LockStep::Wait)
            },
            LockOp::LockShared => if self.exclusive() || self.share_count() == u64::MAX {
                Ok(LockStep::Wait)
            } else {
                Ok(
                    LockStep::Proceed(
                        if self.share_count() == 0 {
                            OsCall::LockShared
                        } else {
                            OsCall::Nothing
                        },
                    ),
                )
            },
            LockOp::Downgrade => if self.exclusive() {
                Ok(LockStep::Proceed(OsCall::LockShared))
            } else {
                Err(LockError::StateViolation)
            },
            LockOp::Unlock => Ok(
                LockStep::Proceed(
                    if self.share_count() > 1 {
                        OsCall::Nothing
                    } else {
                        OsCall::Unlock
                    },
                ),
            ),
        };
        assert(applied(self, op, self.after(op), answer));
    }

    /// Carries out the operation `op`: one of the four above.
    pub fn apply(&mut self, op: LockOp) -> (answer: Result<LockStep, LockError>)
        requires
            old(self).wf(),
        ensures
            final(self).wf(),
            *final(self) == old(self).after(op),
            applied(*old(self), op, *final(self), answer),
    {
        match op {
            LockOp::LockExclusive => Ok(self.lock_exclusive()),
            LockOp::LockShared => Ok(self.lock_shared()),
            LockOp::Unlock => Ok(LockStep::Proceed(self.unlock())),
            LockOp::Downgrade => match self.downgrade() {
                Ok(call) => Ok(LockStep::Proceed(call)),
                Err(e) => Err(e),
            },
        }
    }

    /// The exclusive holder becomes the only shared holder, by a call that
    /// re-locks the file in shared mode while it is held, so that no
    /// writer gets in between. Refused, with nothing changed, unless the
    /// file is held exclusively.
    pub fn downgrade(&mut self) -> (r: Result<OsCall, LockError>)
        requires
            old(self).wf(),
        ensures
            final(self).wf(),
            old(self).exclusive() ==> {
                &&& r == Ok::<OsCall, LockError>(OsCall::LockShared)
                &&& !final(self).exclusive()
                &&& final(self).share_count() == 1
            },
            !old(self).exclusive() ==> r == Err::<OsCall, LockError>(LockError::StateViolation)
                && *final(self) == *old(self),
    {
        if self.exclusive {
            self.exclusive = false;
            self.share_count = 1;
            Ok(OsCall::LockShared)
        } else {
            Err(LockError::StateViolation)
        }
    }
}

/// Whether `after` and `answer` are what the operation `op` makes of the
/// record `before`.
pub open spec fn applied(
    before: RefCountedLock,
    op: LockOp,
    after: RefCountedLock,
    answer: Result<LockStep, LockError>,
) -> bool {
    match op {
        LockOp::LockExclusive => if before.mode() == LockMode::Unlocked {
            answer == Ok::<LockStep, LockError>(LockStep::Proceed(OsCall::LockExclusive))
                && after.exclusive() && after.share_count() == 0
        } else {
            answer == Ok::<LockStep, LockError>(LockStep::Wait) && after == before
        },
        LockOp::LockShared => if before.exclusive() || before.share_count() == u64::MAX {
            answer == Ok::<LockStep, LockError>(LockStep::Wait) && after == before
        } else {
            answer == Ok::<LockStep, LockError>(
                LockStep::Proceed(
                    if before.share_count() == 0 {
                        OsCall::LockShared
                    } else {
                        OsCall::Nothing
                    },
                ),
            ) && !after.exclusive() && after.share_count() == before.share_count() + 1
        },
        LockOp::Downgrade => if before.exclusive() {
            answer == Ok::<LockStep, LockError>(LockStep::Proceed(OsCall::LockShared))
                && !after.exclusive() && after.share_count() == 1
        } else {
            answer == Err::<LockStep, LockError>(LockError::StateViolation) && after == before
        },
        LockOp::Unlock => {
            &&& answer == Ok::<LockStep, LockError>(
                LockStep::Proceed(
                    if before.share_count() > 1 {
                        OsCall::Nothing
                    } else {
                        OsCall::Unlock
                    },
                ),
            )
            &&& !after.exclusive()
            &&& after.share_count() == if before.share_count() > 1 {
                before.share_count() - 1
            } else {
                0
            }
        },
    }
}

/// The record after the operations `ops` were carried out on it in order,
/// each as `apply` carries it out.
pub open spec fn after_all(l: RefCountedLock, ops: Seq<LockOp>) -> RefCountedLock
    decreases ops.len(),
{
    if ops.len() == 0 {
        l
    } else {
        after_all(l, ops.drop_last()).after(ops.last())
    }
}

/// Across any interleaving of requests to lock exclusively, to lock in
/// shared mode, to unlock and to downgrade, granted or not, the record
/// stays well formed: the file is held exclusively by one holder, or
/// shared by one or more, or not at all, and never in two of these ways.
pub proof fn lemma_any_interleaving(l: RefCountedLock, ops: Seq<LockOp>)
    requires
        l.wf(),
    ensures
        after_all(l, ops).wf(),
    decreases ops.len(),
{
    if ops.len() > 0 {
        lemma_any_interleaving(l, ops.drop_last());
        after_all(l, ops.drop_last()).lemma_after(ops.last());
    }
}

/// Whatever is asked of a well-formed record, in any order, the file ends
/// up held in exactly one way: exclusively by one holder, shared by one or
/// more, or not at all.
pub proof fn lemma_one_mode(l: RefCountedLock)
    requires
        l.wf(),
    ensures
        (l.mode() == LockMode::Exclusive) <==> (l.exclusive() && l.share_count() == 0),
        (l.mode() == LockMode::Shared) <==> (!l.exclusive() && l.share_count() > 0),
        (l.mode() == LockMode::Unlocked) <==> (!l.exclusive() && l.share_count() == 0),
{
}

} // verus!
