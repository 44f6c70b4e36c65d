use build_locks::error::LockError;
use build_locks::key::{CompilationLockRef, Dep, LockKey, UnitLockLocation};
use build_locks::manager::{LockManager, Transition};
use build_locks::mode::LockingMode;
use build_locks::refcount::{wakes_waiters, LockStep, OsCall, RefCountedLock};
use build_locks::state::{LockFile, LockMode, LockOp, SharedKind, UnitState};

type Request = (String, LockFile, LockOp);

fn key(name: &str) -> LockKey {
    LockKey::from_unit(name)
}

fn partial(name: &str) -> Dep {
    Dep { key: key(name), kind: SharedKind::Partial }
}

fn full(name: &str) -> Dep {
    Dep { key: key(name), kind: SharedKind::Full }
}

fn compilation(unit: &str, deps: Vec<Dep>) -> CompilationLockRef {
    CompilationLockRef { unit: key(unit), deps }
}

fn req(name: &str, file: LockFile, op: LockOp) -> Request {
    (name.to_string(), file, op)
}

/// The requests of a granted operation.
fn granted(r: Result<Transition, LockError>) -> Vec<Request> {
    match r {
        Ok(Transition::Granted(g)) => {
            g.requests.iter().map(|r| (r.key.to_string(), r.file, r.op)).collect()
        }
        Ok(Transition::Wait) => panic!("asked to wait"),
        Err(e) => panic!("refused: {:?}", e),
    }
}

fn waits(r: Result<Transition, LockError>) -> bool {
    matches!(r, Ok(Transition::Wait))
}

fn refused(r: Result<Transition, LockError>) -> LockError {
    match r {
        Err(e) => e,
        Ok(_) => panic!("not refused"),
    }
}

/// The two files of one unit as one holder sees them while it carries out
/// the requests it was given.
struct Files {
    active_build: LockMode,
    share: LockMode,
}

impl Files {
    fn new() -> Files {
        Files { active_build: LockMode::Unlocked, share: LockMode::Unlocked }
    }

    fn carry_out(&mut self, name: &str, requests: &[Request]) {
        for (unit, file, op) in requests {
            if unit != name {
                continue;
            }
            let mode = match file {
                LockFile::ActiveBuild => &mut self.active_build,
                LockFile::Share => &mut self.share,
            };
            *mode = match (*mode, op) {
                (LockMode::Unlocked, LockOp::LockShared) => LockMode::Shared,
                (LockMode::Unlocked, LockOp::LockExclusive) => LockMode::Exclusive,
                (LockMode::Exclusive, LockOp::Downgrade) => LockMode::Shared,
                (LockMode::Shared, LockOp::Unlock) => LockMode::Unlocked,
                (LockMode::Exclusive, LockOp::Unlock) => LockMode::Unlocked,
                (m, o) => panic!("{:?} does not apply to a file held {:?}", o, m),
            };
        }
    }

    fn agree_with(&self, state: UnitState) {
        assert_eq!(self.active_build, state.active_build_mode());
        assert_eq!(self.share, state.share_mode());
    }
}

#[test]
fn single_unit_no_deps() {
    let a = "/build/debug/build/a-0a1b";
    let mut manager = LockManager::new();
    let mut files = Files::new();
    assert_eq!(manager.state(&key(a)), UnitState::Unlocked);

    let requests = granted(manager.lock_fingerprint(&key(a)));
    assert_eq!(requests, vec![req(a, LockFile::ActiveBuild, LockOp::LockExclusive)]);
    assert_eq!(manager.state(&key(a)), UnitState::ReadFingerprint);
    files.carry_out(a, &requests);
    files.agree_with(UnitState::ReadFingerprint);

    let requests = granted(manager.start_compiling(&compilation(a, vec![])));
    assert_eq!(requests, vec![req(a, LockFile::Share, LockOp::LockExclusive)]);
    assert_eq!(manager.state(&key(a)), UnitState::CompilingRmeta);
    files.carry_out(a, &requests);
    files.agree_with(UnitState::CompilingRmeta);

    let requests = granted(manager.rmeta_produced(&key(a)));
    assert_eq!(requests, vec![req(a, LockFile::ActiveBuild, LockOp::Downgrade)]);
    assert_eq!(manager.state(&key(a)), UnitState::CompilingRlib);
    files.carry_out(a, &requests);
    files.agree_with(UnitState::CompilingRlib);

    let requests = granted(manager.release(&key(a)));
    assert_eq!(
        requests,
        vec![req(a, LockFile::Share, LockOp::Unlock), req(a, LockFile::ActiveBuild, LockOp::Unlock)]
    );
    assert_eq!(manager.state(&key(a)), UnitState::Unlocked);
    files.carry_out(a, &requests);
    files.agree_with(UnitState::Unlocked);
    assert_eq!(manager.len(), 0);

    let location = UnitLockLocation::of(&key(a));
    assert_eq!(location.active_build, "/build/debug/build/a-0a1b/active_build.lock");
    assert_eq!(location.share, "/build/debug/build/a-0a1b/share.lock");
    assert_eq!(location.path(LockFile::Share), "/build/debug/build/a-0a1b/share.lock");
}

#[test]
fn diamond_pipeline() {
    // A is a dependency of B and C, which are dependencies of D.
    let mut manager = LockManager::new();

    // D is started first, before its dependencies are registered.
    granted(manager.lock_fingerprint(&key("d")));
    let requests =
        granted(manager.start_compiling(&compilation("d", vec![partial("b"), partial("c"), partial("a")])));
    assert_eq!(
        requests,
        vec![
            req("d", LockFile::Share, LockOp::LockExclusive),
            req("a", LockFile::ActiveBuild, LockOp::LockShared),
            req("b", LockFile::ActiveBuild, LockOp::LockShared),
            req("c", LockFile::ActiveBuild, LockOp::LockShared),
        ]
    );
    assert_eq!(manager.state(&key("d")), UnitState::CompilingRmeta);
    for unit in ["a", "b", "c"] {
        assert_eq!(manager.state(&key(unit)), UnitState::SharedPartial);
        assert_eq!(manager.holders(&key(unit)), 1);
    }

    // While D reads B nobody becomes the writer of B.
    assert!(waits(manager.lock_fingerprint(&key("b"))));
    assert_eq!(refused(manager.start_compiling(&compilation("b", vec![full("a")]))), LockError::StateViolation);
    assert_eq!(manager.state(&key("b")), UnitState::SharedPartial);
    assert_eq!(manager.state(&key("a")), UnitState::SharedPartial);

    // A consumer that needs all of A has it upgraded.
    let requests = granted(manager.observe_as_dependency(&key("a"), SharedKind::Full));
    assert_eq!(requests, vec![req("a", LockFile::Share, LockOp::LockShared)]);
    assert_eq!(manager.state(&key("a")), UnitState::SharedFull);

    // When D lets go, its dependencies are given up with it.
    granted(manager.rmeta_produced(&key("d")));
    let requests = granted(manager.release(&key("d")));
    assert_eq!(
        requests,
        vec![
            req("d", LockFile::Share, LockOp::Unlock),
            req("d", LockFile::ActiveBuild, LockOp::Unlock),
            req("a", LockFile::Share, LockOp::Unlock),
            req("a", LockFile::ActiveBuild, LockOp::Unlock),
            req("b", LockFile::ActiveBuild, LockOp::Unlock),
            req("c", LockFile::ActiveBuild, LockOp::Unlock),
        ]
    );
    assert_eq!(manager.len(), 0);

    // The pipeline in the order of the graph: B and C are compiled against
    // A, and D against the metadata of B and C while they still build.
    granted(manager.lock_fingerprint(&key("b")));
    let requests = granted(manager.start_compiling(&compilation("b", vec![full("a")])));
    assert_eq!(
        requests,
        vec![
            req("b", LockFile::Share, LockOp::LockExclusive),
            req("a", LockFile::ActiveBuild, LockOp::LockShared),
            req("a", LockFile::Share, LockOp::LockShared),
        ]
    );
    assert_eq!(manager.state(&key("a")), UnitState::SharedFull);
    granted(manager.lock_fingerprint(&key("c")));
    let requests = granted(manager.start_compiling(&compilation("c", vec![partial("a")])));
    assert_eq!(requests, vec![req("c", LockFile::Share, LockOp::LockExclusive)]);
    assert_eq!(manager.holders(&key("a")), 2);

    granted(manager.lock_fingerprint(&key("d")));
    let d = compilation("d", vec![partial("a"), partial("b"), partial("c")]);
    assert!(waits(manager.start_compiling(&d)));
    granted(manager.rmeta_produced(&key("b")));
    assert!(waits(manager.start_compiling(&d)));
    assert_eq!(manager.state(&key("d")), UnitState::ReadFingerprint);
    assert_eq!(manager.holders(&key("a")), 2);
    granted(manager.rmeta_produced(&key("c")));
    let requests = granted(manager.start_compiling(&d));
    assert_eq!(requests, vec![req("d", LockFile::Share, LockOp::LockExclusive)]);
    assert_eq!(manager.holders(&key("a")), 3);
    assert_eq!(manager.state(&key("b")), UnitState::CompilingRlib);
    assert_eq!(manager.holders(&key("b")), 1);

    // A is given up only after B, C and D have let go of it.
    let requests = granted(manager.release(&key("b")));
    assert_eq!(requests, vec![req("b", LockFile::Share, LockOp::Unlock)]);
    assert_eq!(manager.state(&key("b")), UnitState::SharedPartial);
    assert_eq!(manager.state(&key("a")), UnitState::SharedFull);
    granted(manager.release(&key("c")));
    assert_eq!(manager.state(&key("a")), UnitState::SharedFull);
    assert_eq!(manager.holders(&key("a")), 1);
    let requests = granted(manager.release(&key("d")));
    assert_eq!(
        requests,
        vec![
            req("d", LockFile::Share, LockOp::Unlock),
            req("d", LockFile::ActiveBuild, LockOp::Unlock),
            req("a", LockFile::Share, LockOp::Unlock),
            req("a", LockFile::ActiveBuild, LockOp::Unlock),
            req("b", LockFile::ActiveBuild, LockOp::Unlock),
            req("c", LockFile::ActiveBuild, LockOp::Unlock),
        ]
    );
    for unit in ["a", "b", "c", "d"] {
        assert_eq!(manager.state(&key(unit)), UnitState::Unlocked);
    }
    assert_eq!(manager.len(), 0);
}

#[test]
fn downgrade_races_a_reader() {
    let mut manager = LockManager::new();
    granted(manager.lock_fingerprint(&key("a")));
    granted(manager.start_compiling(&compilation("a", vec![])));
    assert_eq!(manager.state(&key("a")), UnitState::CompilingRmeta);

    // The reader waits while the writer holds `active_build` exclusively.
    assert!(waits(manager.observe_as_dependency(&key("a"), SharedKind::Partial)));
    assert_eq!(manager.state(&key("a")), UnitState::CompilingRmeta);

    granted(manager.rmeta_produced(&key("a")));
    let requests = granted(manager.observe_as_dependency(&key("a"), SharedKind::Partial));
    assert_eq!(requests, vec![]);
    assert_eq!(manager.state(&key("a")).active_build_mode(), LockMode::Shared);

    // The same race between the holders of the file itself.
    let mut active_build = RefCountedLock::new();
    assert_eq!(active_build.lock_exclusive(), LockStep::Proceed(OsCall::LockExclusive));
    assert_eq!(active_build.lock_shared(), LockStep::Wait);
    assert_eq!(active_build.downgrade(), Ok(OsCall::LockShared));
    assert_eq!(active_build.lock_shared(), LockStep::Proceed(OsCall::Nothing));
    assert_eq!(active_build.current_mode(), LockMode::Shared);
    assert_eq!(active_build.holders(), 2);
}

#[test]
fn full_linker_dep() {
    let mut manager = LockManager::new();
    granted(manager.lock_fingerprint(&key("y")));
    granted(manager.start_compiling(&compilation("y", vec![])));
    granted(manager.lock_fingerprint(&key("x")));
    let x = compilation("x", vec![full("y")]);

    assert!(waits(manager.start_compiling(&x)));
    granted(manager.rmeta_produced(&key("y")));
    assert_eq!(manager.state(&key("y")), UnitState::CompilingRlib);
    // `share` is still exclusive: the stall goes on.
    assert!(waits(manager.start_compiling(&x)));
    assert_eq!(manager.state(&key("x")), UnitState::ReadFingerprint);
    assert_eq!(manager.holders(&key("y")), 0);

    granted(manager.release(&key("y")));
    let requests = granted(manager.start_compiling(&x));
    assert_eq!(
        requests,
        vec![
            req("x", LockFile::Share, LockOp::LockExclusive),
            req("y", LockFile::ActiveBuild, LockOp::LockShared),
            req("y", LockFile::Share, LockOp::LockShared),
        ]
    );
    assert_eq!(manager.state(&key("x")), UnitState::CompilingRmeta);
    assert_eq!(manager.state(&key("y")), UnitState::SharedFull);
}

#[test]
fn start_compiling_takes_dependencies_in_key_order_each_once() {
    let mut manager = LockManager::new();
    granted(manager.lock_fingerprint(&key("unit")));
    let deps = vec![partial("m"), full("z"), partial("b"), full("m"), partial("z"), partial("ba")];
    let requests = granted(manager.start_compiling(&compilation("unit", deps)));
    assert_eq!(
        requests,
        vec![
            req("unit", LockFile::Share, LockOp::LockExclusive),
            req("b", LockFile::ActiveBuild, LockOp::LockShared),
            req("ba", LockFile::ActiveBuild, LockOp::LockShared),
            req("m", LockFile::ActiveBuild, LockOp::LockShared),
            req("m", LockFile::Share, LockOp::LockShared),
            req("z", LockFile::ActiveBuild, LockOp::LockShared),
            req("z", LockFile::Share, LockOp::LockShared),
        ]
    );
    assert_eq!(manager.state(&key("m")), UnitState::SharedFull);
    assert_eq!(manager.state(&key("b")), UnitState::SharedPartial);
    assert_eq!(manager.holders(&key("m")), 1);
    assert_eq!(manager.holders(&key("z")), 1);
    assert_eq!(manager.len(), 5);
}

#[test]
fn start_compiling_needs_the_fingerprint_lock() {
    let mut manager = LockManager::new();
    let a = compilation("a", vec![partial("b")]);
    assert_eq!(refused(manager.start_compiling(&a)), LockError::StateViolation);
    assert_eq!(manager.len(), 0);
    granted(manager.lock_fingerprint(&key("a")));
    granted(manager.start_compiling(&a));
    // Not twice.
    assert_eq!(refused(manager.start_compiling(&a)), LockError::StateViolation);
    assert_eq!(manager.holders(&key("b")), 1);
}

#[test]
fn start_compiling_refuses_a_unit_that_depends_on_itself() {
    let mut manager = LockManager::new();
    granted(manager.lock_fingerprint(&key("a")));
    let a = compilation("a", vec![partial("b"), full("a")]);
    assert_eq!(refused(manager.start_compiling(&a)), LockError::StateViolation);
    assert_eq!(manager.state(&key("a")), UnitState::ReadFingerprint);
    assert_eq!(manager.state(&key("b")), UnitState::Unlocked);
}

#[test]
fn a_call_that_waits_changes_nothing() {
    let mut manager = LockManager::new();
    granted(manager.lock_fingerprint(&key("w")));
    granted(manager.lock_fingerprint(&key("a")));
    // `b` could be taken, `w` cannot: nothing is taken.
    let a = compilation("a", vec![partial("b"), partial("w")]);
    assert!(waits(manager.start_compiling(&a)));
    assert_eq!(manager.state(&key("a")), UnitState::ReadFingerprint);
    assert_eq!(manager.state(&key("b")), UnitState::Unlocked);
    assert_eq!(manager.state(&key("w")), UnitState::ReadFingerprint);
    assert_eq!(manager.holders(&key("b")), 0);
    assert_eq!(manager.len(), 2);
}

#[test]
fn lock_fingerprint_twice_is_once() {
    let mut manager = LockManager::new();
    let first = manager.lock_fingerprint(&key("a"));
    let receipt = match &first {
        Ok(Transition::Granted(g)) => g.receipt.to_string(),
        _ => panic!("not granted"),
    };
    assert_eq!(receipt, "a");
    let second = manager.lock_fingerprint(&key("a"));
    match &second {
        Ok(Transition::Granted(g)) => {
            assert_eq!(g.receipt.to_string(), receipt);
            assert!(g.requests.is_empty());
        }
        _ => panic!("not granted"),
    }
    assert_eq!(manager.state(&key("a")), UnitState::ReadFingerprint);
    assert_eq!(manager.len(), 1);
}

#[test]
fn observe_twice_is_once() {
    let mut manager = LockManager::new();
    let requests = granted(manager.observe_as_dependency(&key("d"), SharedKind::Partial));
    assert_eq!(requests, vec![req("d", LockFile::ActiveBuild, LockOp::LockShared)]);
    let requests = granted(manager.observe_as_dependency(&key("d"), SharedKind::Partial));
    assert_eq!(requests, vec![]);
    assert_eq!(manager.state(&key("d")), UnitState::SharedPartial);
    assert_eq!(manager.holders(&key("d")), 0);
    assert_eq!(manager.len(), 1);
    // A weaker wish does not lower the state.
    granted(manager.observe_as_dependency(&key("d"), SharedKind::Full));
    assert_eq!(granted(manager.observe_as_dependency(&key("d"), SharedKind::Partial)), vec![]);
    assert_eq!(manager.state(&key("d")), UnitState::SharedFull);
}

#[test]
fn release_twice_is_refused() {
    let mut manager = LockManager::new();
    assert_eq!(refused(manager.release(&key("a"))), LockError::StateViolation);
    granted(manager.lock_fingerprint(&key("a")));
    granted(manager.start_compiling(&compilation("a", vec![partial("b")])));
    assert_eq!(granted(manager.release(&key("a"))).len(), 3);
    assert_eq!(refused(manager.release(&key("a"))), LockError::StateViolation);
    assert_eq!(manager.len(), 0);
}

#[test]
fn release_leaves_a_unit_that_is_still_read() {
    let mut manager = LockManager::new();
    granted(manager.lock_fingerprint(&key("dep")));
    granted(manager.start_compiling(&compilation("dep", vec![])));
    granted(manager.rmeta_produced(&key("dep")));
    granted(manager.lock_fingerprint(&key("user")));
    granted(manager.start_compiling(&compilation("user", vec![partial("dep")])));

    let requests = granted(manager.release(&key("dep")));
    assert_eq!(requests, vec![req("dep", LockFile::Share, LockOp::Unlock)]);
    assert_eq!(manager.state(&key("dep")), UnitState::SharedPartial);
    // The unit is held for its reader, who lets go of it.
    assert_eq!(refused(manager.release(&key("dep"))), LockError::StateViolation);
    let requests = granted(manager.release(&key("user")));
    assert_eq!(
        requests,
        vec![
            req("user", LockFile::Share, LockOp::Unlock),
            req("user", LockFile::ActiveBuild, LockOp::Unlock),
            req("dep", LockFile::ActiveBuild, LockOp::Unlock),
        ]
    );
    assert_eq!(manager.len(), 0);
}

#[test]
fn release_of_a_fingerprint_lock() {
    let mut manager = LockManager::new();
    granted(manager.lock_fingerprint(&key("a")));
    let requests = granted(manager.release(&key("a")));
    assert_eq!(requests, vec![req("a", LockFile::ActiveBuild, LockOp::Unlock)]);
    assert_eq!(manager.state(&key("a")), UnitState::Unlocked);
}

#[test]
fn rmeta_produced_needs_a_compilation() {
    let mut manager = LockManager::new();
    assert_eq!(refused(manager.rmeta_produced(&key("a"))), LockError::StateViolation);
    granted(manager.lock_fingerprint(&key("a")));
    assert_eq!(refused(manager.rmeta_produced(&key("a"))), LockError::StateViolation);
    granted(manager.start_compiling(&compilation("a", vec![])));
    granted(manager.rmeta_produced(&key("a")));
    assert_eq!(refused(manager.rmeta_produced(&key("a"))), LockError::StateViolation);
    assert_eq!(manager.state(&key("a")), UnitState::CompilingRlib);
}

#[test]
fn the_three_steps_of_a_unit() {
    let mut manager = LockManager::new();
    let first = manager.lock_shared(&key("u"));
    let receipt = match &first {
        Ok(Transition::Granted(g)) => g.receipt.clone(),
        _ => panic!("not granted"),
    };
    assert_eq!(receipt, key("u"));
    assert_eq!(granted(first), vec![req("u", LockFile::ActiveBuild, LockOp::LockExclusive)]);
    assert_eq!(manager.state(&receipt), UnitState::ReadFingerprint);
    assert_eq!(granted(manager.lock_shared(&key("u"))), vec![]);
    assert_eq!(manager.state(&receipt), UnitState::ReadFingerprint);

    let requests =
        granted(manager.upgrade_to_exclusive(&compilation("u", vec![full("lib"), partial("dep")])));
    assert_eq!(
        requests,
        vec![
            req("u", LockFile::Share, LockOp::LockExclusive),
            req("dep", LockFile::ActiveBuild, LockOp::LockShared),
            req("lib", LockFile::ActiveBuild, LockOp::LockShared),
            req("lib", LockFile::Share, LockOp::LockShared),
        ]
    );
    assert_eq!(manager.state(&receipt), UnitState::CompilingRmeta);
    assert_eq!(manager.state(&key("dep")), UnitState::SharedPartial);
    assert_eq!(manager.state(&key("lib")), UnitState::SharedFull);
    assert_eq!(manager.holders(&key("lib")), 1);

    let requests = granted(manager.downgrade_to_shared(&receipt));
    assert_eq!(requests, vec![req("u", LockFile::ActiveBuild, LockOp::Downgrade)]);
    assert_eq!(manager.state(&receipt), UnitState::CompilingRlib);

    assert_eq!(granted(manager.release(&receipt)).len(), 5);
    assert_eq!(manager.len(), 0);
}

#[test]
fn the_three_steps_in_their_order_only() {
    let mut manager = LockManager::new();
    let u = compilation("u", vec![]);
    assert_eq!(refused(manager.upgrade_to_exclusive(&u)), LockError::StateViolation);
    assert_eq!(refused(manager.downgrade_to_shared(&key("u"))), LockError::StateViolation);
    assert_eq!(manager.len(), 0);
    granted(manager.lock_shared(&key("u")));
    assert_eq!(refused(manager.downgrade_to_shared(&key("u"))), LockError::StateViolation);
    granted(manager.upgrade_to_exclusive(&u));
    assert_eq!(refused(manager.upgrade_to_exclusive(&u)), LockError::StateViolation);
    granted(manager.downgrade_to_shared(&key("u")));
    assert_eq!(refused(manager.downgrade_to_shared(&key("u"))), LockError::StateViolation);
    assert_eq!(manager.state(&key("u")), UnitState::CompilingRlib);

    // A unit that is only read has produced nothing.
    granted(manager.observe_as_dependency(&key("r"), SharedKind::Partial));
    assert_eq!(refused(manager.downgrade_to_shared(&key("r"))), LockError::StateViolation);
    assert_eq!(refused(manager.rmeta_produced(&key("r"))), LockError::StateViolation);
    assert_eq!(manager.state(&key("r")), UnitState::SharedPartial);
}

#[test]
fn a_writer_is_never_weakened_and_a_reader_never_pushed_aside() {
    let mut manager = LockManager::new();
    granted(manager.lock_shared(&key("a")));
    granted(manager.upgrade_to_exclusive(&compilation("a", vec![partial("dep")])));
    // The writer stays the writer, whoever asks.
    assert_eq!(granted(manager.lock_shared(&key("a"))), vec![]);
    assert_eq!(manager.state(&key("a")), UnitState::CompilingRmeta);
    assert!(waits(manager.observe_as_dependency(&key("a"), SharedKind::Partial)));
    granted(manager.lock_shared(&key("b")));
    assert!(waits(manager.upgrade_to_exclusive(&compilation("b", vec![partial("a")]))));
    assert_eq!(manager.state(&key("a")), UnitState::CompilingRmeta);
    // Nobody becomes the writer of a unit that is read.
    assert!(waits(manager.lock_shared(&key("dep"))));
    assert!(waits(manager.lock_fingerprint(&key("dep"))));
    assert_eq!(manager.state(&key("dep")), UnitState::SharedPartial);
    assert_eq!(manager.holders(&key("dep")), 1);
}

#[test]
fn a_unit_read_by_three_is_given_up_by_the_last() {
    let mut manager = LockManager::new();
    for unit in ["b", "c", "d"] {
        granted(manager.lock_shared(&key(unit)));
        granted(manager.upgrade_to_exclusive(&compilation(unit, vec![partial("a")])));
    }
    assert_eq!(manager.holders(&key("a")), 3);
    assert_eq!(refused(manager.release(&key("a"))), LockError::StateViolation);
    assert_eq!(granted(manager.release(&key("c"))).len(), 2);
    assert_eq!(manager.state(&key("a")), UnitState::SharedPartial);
    assert_eq!(granted(manager.release(&key("b"))).len(), 2);
    assert_eq!(manager.state(&key("a")), UnitState::SharedPartial);
    assert_eq!(manager.holders(&key("a")), 1);
    let last = granted(manager.release(&key("d")));
    assert_eq!(last.last(), Some(&req("a", LockFile::ActiveBuild, LockOp::Unlock)));
    assert_eq!(manager.state(&key("a")), UnitState::Unlocked);
}

#[test]
fn a_failed_call_is_taken_back() {
    let mut manager = LockManager::new();
    granted(manager.lock_fingerprint(&key("other")));
    granted(manager.lock_fingerprint(&key("u")));
    let before = manager.snapshot();
    let requests = match manager.start_compiling(&compilation("u", vec![full("a"), partial("b")])) {
        Ok(Transition::Granted(g)) => g.requests,
        _ => panic!("not granted"),
    };
    assert_eq!(requests.len(), 4);
    assert_eq!(manager.state(&key("a")), UnitState::SharedFull);
    // The third request fails: the two before it are taken back.
    let back = manager.restore(before, &requests, 2);
    let back: Vec<Request> = back.iter().map(|r| (r.key.to_string(), r.file, r.op)).collect();
    assert_eq!(
        back,
        vec![
            req("a", LockFile::ActiveBuild, LockOp::Unlock),
            req("u", LockFile::Share, LockOp::Unlock),
        ]
    );
    assert_eq!(manager.state(&key("u")), UnitState::ReadFingerprint);
    assert_eq!(manager.state(&key("other")), UnitState::ReadFingerprint);
    assert_eq!(manager.state(&key("a")), UnitState::Unlocked);
    assert_eq!(manager.state(&key("b")), UnitState::Unlocked);
    assert_eq!(manager.holders(&key("a")), 0);
    assert_eq!(manager.len(), 2);
    assert!(manager.is_enabled());
    // The call can be made again.
    assert_eq!(granted(manager.start_compiling(&compilation("u", vec![]))).len(), 1);
}

#[test]
fn a_manager_without_fine_locking_does_nothing() {
    for mode in [LockingMode::Disabled, LockingMode::Coarse] {
        let mut manager = LockManager::with_mode(mode);
        assert!(!manager.is_enabled());
        assert_eq!(granted(manager.lock_fingerprint(&key("a"))), vec![]);
        assert_eq!(granted(manager.start_compiling(&compilation("a", vec![full("b")]))), vec![]);
        assert_eq!(granted(manager.rmeta_produced(&key("a"))), vec![]);
        assert_eq!(granted(manager.observe_as_dependency(&key("b"), SharedKind::Full)), vec![]);
        assert_eq!(granted(manager.lock_shared(&key("c"))), vec![]);
        assert_eq!(
            granted(manager.upgrade_to_exclusive(&compilation("c", vec![partial("d")]))),
            vec![]
        );
        assert_eq!(granted(manager.downgrade_to_shared(&key("c"))), vec![]);
        assert_eq!(granted(manager.release(&key("a"))), vec![]);
        assert_eq!(manager.len(), 0);
        assert_eq!(manager.state(&key("a")), UnitState::Unlocked);
    }
    assert!(LockManager::with_mode(LockingMode::Fine).is_enabled());
    assert!(LockManager::new().is_enabled());
}

#[test]
fn ref_counted_lock_counts_shared_holders() {
    let mut lock = RefCountedLock::new();
    assert_eq!(lock.current_mode(), LockMode::Unlocked);
    assert_eq!(lock.lock_shared(), LockStep::Proceed(OsCall::LockShared));
    assert_eq!(lock.lock_shared(), LockStep::Proceed(OsCall::Nothing));
    assert_eq!(lock.lock_shared(), LockStep::Proceed(OsCall::Nothing));
    assert_eq!(lock.holders(), 3);
    assert_eq!(lock.lock_exclusive(), LockStep::Wait);
    assert_eq!(lock.downgrade(), Err(LockError::StateViolation));
    assert_eq!(lock.unlock(), OsCall::Nothing);
    assert_eq!(lock.unlock(), OsCall::Nothing);
    assert_eq!(lock.current_mode(), LockMode::Shared);
    assert_eq!(lock.unlock(), OsCall::Unlock);
    assert_eq!(lock.current_mode(), LockMode::Unlocked);
    assert_eq!(lock.holders(), 0);
    // Unlocking a file that nobody holds leaves the record as it is.
    assert_eq!(lock.unlock(), OsCall::Unlock);
    assert_eq!(lock.current_mode(), LockMode::Unlocked);
}

#[test]
fn ref_counted_lock_is_exclusive_for_one() {
    let mut lock = RefCountedLock::new();
    assert_eq!(lock.lock_exclusive(), LockStep::Proceed(OsCall::LockExclusive));
    assert_eq!(lock.current_mode(), LockMode::Exclusive);
    assert_eq!(lock.lock_exclusive(), LockStep::Wait);
    assert_eq!(lock.lock_shared(), LockStep::Wait);
    assert_eq!(lock.holders(), 0);
    assert_eq!(lock.unlock(), OsCall::Unlock);
    assert_eq!(lock.current_mode(), LockMode::Unlocked);
    assert_eq!(lock.lock_exclusive(), LockStep::Proceed(OsCall::LockExclusive));
    assert_eq!(lock.downgrade(), Ok(OsCall::LockShared));
    assert_eq!(lock.holders(), 1);
    assert_eq!(lock.unlock(), OsCall::Unlock);
}

#[test]
fn the_state_table() {
    let unlocked = LockMode::Unlocked;
    let shared = LockMode::Shared;
    let exclusive = LockMode::Exclusive;
    let rows = [
        (UnitState::Unlocked, unlocked, unlocked),
        (UnitState::CompilingRmeta, exclusive, exclusive),
        (UnitState::CompilingRlib, shared, exclusive),
        (UnitState::SharedPartial, shared, unlocked),
        (UnitState::SharedFull, shared, shared),
        (UnitState::ReadFingerprint, exclusive, unlocked),
    ];
    for (state, active_build, share) in rows {
        assert_eq!(state.active_build_mode(), active_build);
        assert_eq!(state.share_mode(), share);
        assert_eq!(UnitState::from_modes(active_build, share), Some(state));
    }
    assert_eq!(UnitState::from_modes(unlocked, shared), None);
    assert_eq!(UnitState::from_modes(unlocked, exclusive), None);
    assert_eq!(UnitState::from_modes(exclusive, shared), None);
}

#[test]
fn transitions_of_the_state_table() {
    let step = |file, op| build_locks::state::FileOp { file, op };
    assert_eq!(
        UnitState::Unlocked.transition(UnitState::SharedFull),
        Some(vec![
            step(LockFile::ActiveBuild, LockOp::LockShared),
            step(LockFile::Share, LockOp::LockShared)
        ])
    );
    assert_eq!(
        UnitState::SharedFull.transition(UnitState::SharedPartial),
        Some(vec![step(LockFile::Share, LockOp::Unlock)])
    );
    assert_eq!(
        UnitState::ReadFingerprint.transition(UnitState::SharedPartial),
        Some(vec![step(LockFile::ActiveBuild, LockOp::Downgrade)])
    );
    // Never straight into a compilation, and never a step skipped.
    assert_eq!(UnitState::Unlocked.transition(UnitState::CompilingRmeta), None);
    assert_eq!(UnitState::Unlocked.transition(UnitState::CompilingRlib), None);
    assert_eq!(UnitState::ReadFingerprint.transition(UnitState::CompilingRlib), None);
    assert_eq!(UnitState::SharedPartial.transition(UnitState::CompilingRmeta), None);
    assert_eq!(UnitState::CompilingRlib.transition(UnitState::CompilingRmeta), None);
    assert_eq!(UnitState::Unlocked.transition(UnitState::Unlocked), None);
}

#[test]
fn keys_are_ordered_by_their_characters() {
    assert!(key("a").before(&key("b")));
    assert!(key("a").before(&key("ab")));
    assert!(!key("ab").before(&key("a")));
    assert!(!key("a").before(&key("a")));
    assert!(key("a/b").before(&key("a0")));
    assert!(key("z").before(&key("é")));
    assert!(key("a").same(&key("a")));
    assert!(!key("a").same(&key("a ")));
    assert_eq!(key("/x/y").as_str(), "/x/y");
}

#[test]
fn errors_and_what_they_end() {
    assert!(LockError::OsLock { errno: 5 }.is_fatal());
    assert!(LockError::OsLock { errno: 5 }.aborts_unit_only());
    assert!(LockError::Open { errno: 13 }.aborts_unit_only());
    assert!(LockError::Poison.is_fatal());
    assert!(!LockError::Poison.aborts_unit_only());
    assert!(!LockError::StateViolation.aborts_unit_only());
    assert!(!LockError::FdLimit { errno: 1 }.is_fatal());
}

#[test]
fn waiters_are_woken_when_a_file_is_let_go() {
    let mut lock = RefCountedLock::new();
    let taken = lock.apply(LockOp::LockExclusive).unwrap();
    assert!(!wakes_waiters(LockOp::LockExclusive, taken));
    // A downgrade leaves the file held.
    let down = lock.apply(LockOp::Downgrade).unwrap();
    assert_eq!(down, LockStep::Proceed(OsCall::LockShared));
    assert!(!wakes_waiters(LockOp::Downgrade, down));
    let joined = lock.apply(LockOp::LockShared).unwrap();
    assert!(!wakes_waiters(LockOp::LockShared, joined));
    let first = lock.apply(LockOp::Unlock).unwrap();
    assert!(!wakes_waiters(LockOp::Unlock, first));
    let last = lock.apply(LockOp::Unlock).unwrap();
    assert!(wakes_waiters(LockOp::Unlock, last));
    assert!(!wakes_waiters(LockOp::Unlock, LockStep::Wait));
}
