//! The limit on open file descriptors.
//!
//! The platform is asked by whoever can make the call; here its raw answer
//! is turned into limits, and a wish for new limits into the call to make.

use vstd::prelude::*;
use crate::error::LockError;

verus! {

/// The soft and the hard limit on the number of open file descriptors.
#[derive(Clone, Copy, Debug, PartialEq, Eq, Structural)]
pub struct ResourceLimits {
    pub soft_limit: u64,
    pub hard_limit: u64,
}

/// The hard limit that is reported where the platform does not tell its
/// own: less than some systems allow, and enough for most builds.
pub const ESTIMATED_HARD_LIMIT: u64 = 8192;

/// The raw answer of the platform to the question for its limits.
#[derive(Clone, Copy, Debug, PartialEq, Eq, Structural)]
pub enum RawLimits {
    /// The answer of the resource-limit call: its status, the error number
    /// in case the status is not zero, and the two limits it filled in.
    Rlimit { status: i32, errno: i32, cur: u64, max: u64 },
    /// The number of streams that may be open at once, from a platform that
    /// tells no hard limit.
    MaxStdio { current: u32 },
}

/// The interface by which a platform takes new limits.
#[derive(Clone, Copy, Debug, PartialEq, Eq, Structural)]
pub enum LimitInterface {
    Rlimit,
    MaxStdio,
}

/// The call that sets new limits.
#[derive(Clone, Copy, Debug, PartialEq, Eq, Structural)]
pub enum LimitCall {
    /// Set both limits.
    SetRlimit { cur: u64, max: u64 },
    /// Set the number of streams that may be open at once.
    SetMaxStdio { new_max: u32 },
}

/// The limits that a raw answer stands for.
pub open spec fn limits_of(raw: RawLimits) -> Result<ResourceLimits, LockError> {
    match raw {
        RawLimits::Rlimit { status, errno, cur, max } => if status != 0 {
            Err(LockError::FdLimit { errno })
        } else {
            Ok(ResourceLimits { soft_limit: cur, hard_limit: max })
        },
        RawLimits::MaxStdio { current } => Ok(
            ResourceLimits { soft_limit: current as u64, hard_limit: ESTIMATED_HARD_LIMIT },
        ),
    }
}

/// The limits on open file descriptors, from the raw answer of the
/// platform: an error where the resource-limit call failed, and the
/// estimated hard limit where the platform tells none.
pub fn get_max_file_descriptors(raw: RawLimits) -> (r: Result<ResourceLimits, LockError>)
    ensures
        r == limits_of(raw),
{
    match raw {
        RawLimits::Rlimit { status, errno, cur, max } => {
            if status != 0 {
                Err(LockError::FdLimit { errno })
            } else {
                Ok(ResourceLimits { soft_limit: cur, hard_limit: max })
            }
        },
        RawLimits::MaxStdio { current } => Ok(
            ResourceLimits { soft_limit: current as u64, hard_limit: ESTIMATED_HARD_LIMIT },
        ),
    }
}

/// The call that sets `limits` through the given interface. The stream
/// interface takes the soft limit only, cut to 32 bits.
pub fn set_max_file_descriptors(limits: ResourceLimits, interface: LimitInterface) -> (call:
    LimitCall)
    ensures
        call == match interface {
            LimitInterface::Rlimit => LimitCall::SetRlimit {
                cur: limits.soft_limit,
                max: limits.hard_limit,
            },
            LimitInterface::MaxStdio => LimitCall::SetMaxStdio {
                new_max: (limits.soft_limit % 0x1_0000_0000) as u32,
            },
        },
{
    match interface {
        LimitInterface::Rlimit => LimitCall::SetRlimit {
            cur: limits.soft_limit,
            max: limits.hard_limit,
        },
        LimitInterface::MaxStdio => LimitCall::SetMaxStdio {
            new_max: (limits.soft_limit % 0x1_0000_0000) as u32,
        },
    }
}

/// Whether the call that set new limits succeeded, from its status: the
/// resource-limit call fails with any status but zero, the stream call
/// with a negative one.
pub fn limits_were_set(call: LimitCall, status: i32, errno: i32) -> (r: Result<(), LockError>)
    ensures
        r is Ok <==> match call {
            LimitCall::SetRlimit { .. } => status == 0,
            LimitCall::SetMaxStdio { .. } => status >= 0,
        },
        r matches Err(e) ==> e == (LockError::FdLimit { errno }),
{
    let ok = match call {
        LimitCall::SetRlimit { .. } => status == 0,
        LimitCall::SetMaxStdio { .. } => status >= 0,
    };
    if ok {
        Ok(())
    } else {
        Err(LockError::FdLimit { errno })
    }
}

} // verus!
