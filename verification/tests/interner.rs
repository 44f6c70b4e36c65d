use build_locks::error::LockError;
use build_locks::interner::LockInterner;
use build_locks::refcount::{LockStep, OsCall};
use build_locks::state::{LockMode, LockOp};

#[test]
fn the_same_path_gives_the_same_record() {
    let mut interner = LockInterner::new();
    assert_eq!(interner.len(), 0);
    let a = interner.get_or_create("/b/a/active_build.lock");
    let b = interner.get_or_create("/b/a/share.lock");
    assert_eq!((a, b), (0, 1));
    assert_eq!(interner.get_or_create("/b/a/active_build.lock"), a);
    assert_eq!(interner.get_or_create("/b/a/share.lock"), b);
    assert_eq!(interner.get_or_create("/b/a/share.lock "), 2);
    assert_eq!(interner.len(), 3);
    assert_eq!(interner.lock(a).current_mode(), LockMode::Unlocked);
}

#[test]
fn holders_of_one_path_meet_in_one_record() {
    let mut interner = LockInterner::new();
    let first = interner.get_or_create("/b/a/active_build.lock");
    assert_eq!(interner.apply(first, LockOp::LockShared), Ok(LockStep::Proceed(OsCall::LockShared)));
    let other = interner.get_or_create("/b/c/active_build.lock");
    let again = interner.get_or_create("/b/a/active_build.lock");
    assert_eq!(interner.apply(again, LockOp::LockShared), Ok(LockStep::Proceed(OsCall::Nothing)));
    assert_eq!(interner.lock(first).holders(), 2);
    assert_eq!(interner.lock(other).holders(), 0);
    assert_eq!(interner.apply(first, LockOp::LockExclusive), Ok(LockStep::Wait));
    assert_eq!(interner.apply(other, LockOp::LockExclusive), Ok(LockStep::Proceed(OsCall::LockExclusive)));
    assert_eq!(interner.apply(first, LockOp::Downgrade), Err(LockError::StateViolation));
    assert_eq!(interner.apply(other, LockOp::Downgrade), Ok(LockStep::Proceed(OsCall::LockShared)));
    assert_eq!(interner.apply(first, LockOp::Unlock), Ok(LockStep::Proceed(OsCall::Nothing)));
    assert_eq!(interner.apply(first, LockOp::Unlock), Ok(LockStep::Proceed(OsCall::Unlock)));
    assert_eq!(interner.lock(first).current_mode(), LockMode::Unlocked);
    assert_eq!(interner.lock(other).current_mode(), LockMode::Shared);
    // Records are never taken away.
    assert_eq!(interner.len(), 2);
}
