//! What each operation of the lock manager does, as functions on the
//! registry seen as a map from unit to record.
//!
//! An operation is granted, and then changes the registry and asks for
//! file operations; or it has to wait; or it is refused. Where it waits or
//! is refused the registry stays as it was and nothing is asked for.

use vstd::prelude::*;
use crate::deps::{ascending, need, sorted_deps};
use crate::error::LockError;
use crate::key::{tagged, DepView, RequestView};
use crate::state::{steps, SharedKind, UnitState};
use crate::unit::{unit_wf, UnitView};

verus! {

/// The records of the units that hold a lock, by unit.
pub type Registry = Map<Seq<char>, UnitView>;

/// How an operation ended.
pub enum Verdict {
    Granted,
    Wait,
    Refused(LockError),
}

/// The end of an operation: how it ended, the registry it left, and the
/// file operations it asks for, in order.
pub struct Outcome {
    pub verdict: Verdict,
    pub registry: Registry,
    pub requests: Seq<RequestView>,
}

/// The state of the unit `k`: a unit without a record holds no lock.
pub open spec fn state_in(m: Registry, k: Seq<char>) -> UnitState {
    if m.contains_key(k) {
        m[k].state
    } else {
        UnitState::Unlocked
    }
}

/// The number of compilations in flight that hold `k` as a dependency.
pub open spec fn holders_in(m: Registry, k: Seq<char>) -> nat {
    if m.contains_key(k) {
        m[k].holders
    } else {
        0
    }
}

/// The dependencies that the compilation of `k` holds.
pub open spec fn deps_in(m: Registry, k: Seq<char>) -> Seq<Seq<char>> {
    if m.contains_key(k) {
        m[k].deps
    } else {
        Seq::empty()
    }
}

/// Every record of the registry is well formed.
pub open spec fn registry_wf(m: Registry) -> bool {
    forall|k: Seq<char>| #[trigger] m.contains_key(k) ==> unit_wf(k, m[k])
}

/// The registry with the unit `k` in the state `to`: its record is dropped
/// when it gives up its last lock.
pub open spec fn with_state(m: Registry, k: Seq<char>, to: UnitState) -> Registry {
    if to == UnitState::Unlocked {
        m.remove(k)
    } else {
        m.insert(k, UnitView { state: to, holders: holders_in(m, k), deps: deps_in(m, k) })
    }
}

/// Nothing happens.
pub open spec fn stay(m: Registry, verdict: Verdict) -> Outcome {
    Outcome { verdict, registry: m, requests: Seq::empty() }
}

/// The unit `k` moves to the state `to`.
pub open spec fn go(m: Registry, k: Seq<char>, to: UnitState) -> Outcome {
    Outcome {
        verdict: Verdict::Granted,
        registry: with_state(m, k, to),
        requests: tagged(k, steps(state_in(m, k), to)),
    }
}

/// Taking the fingerprint lock: the first call makes the unit a writer; a
/// unit that is a writer already stays as it is; while the unit is held
/// for readers the caller waits.
pub open spec fn fingerprint_model(m: Registry, k: Seq<char>) -> Outcome {
    match state_in(m, k) {
        UnitState::Unlocked => go(m, k, UnitState::ReadFingerprint),
        UnitState::SharedPartial | UnitState::SharedFull => stay(m, Verdict::Wait),
        _ => stay(m, Verdict::Granted),
    }
}

/// The metadata is on disk: `active_build` is downgraded so that readers of
/// the metadata may proceed. Refused unless the unit is being compiled and
/// has not produced its metadata yet.
pub open spec fn rmeta_model(m: Registry, k: Seq<char>) -> Outcome {
    if state_in(m, k) == UnitState::CompilingRmeta {
        go(m, k, UnitState::CompilingRlib)
    } else {
        stay(m, Verdict::Refused(LockError::StateViolation))
    }
}

/// The state that serves a reader who needs `kind` of a unit that is in
/// state `s` now; `None` where the reader has to wait for a writer.
/// A reader never lowers the state.
pub open spec fn dep_target(s: UnitState, kind: SharedKind) -> Option<UnitState> {
    match (s, kind) {
        (UnitState::Unlocked, SharedKind::Partial) => Some(UnitState::SharedPartial),
        (UnitState::Unlocked, SharedKind::Full) => Some(UnitState::SharedFull),
        (UnitState::SharedPartial, SharedKind::Partial) => Some(UnitState::SharedPartial),
        (UnitState::SharedPartial, SharedKind::Full) => Some(UnitState::SharedFull),
        (UnitState::SharedFull, _) => Some(UnitState::SharedFull),
        (UnitState::CompilingRlib, SharedKind::Partial) => Some(UnitState::CompilingRlib),
        _ => None,
    }
}

/// A consumer comes upon a dependency: the unit is advanced to the state
/// that serves the consumer, or the consumer waits for the writer.
pub open spec fn observe_model(m: Registry, k: Seq<char>, kind: SharedKind) -> Outcome {
    match dep_target(state_in(m, k), kind) {
        Some(to) => go(m, k, to),
        None => stay(m, Verdict::Wait),
    }
}

/// Whether the dependency can be taken now: no writer stands in the way,
/// and the count of its holders is not exhausted.
pub open spec fn dep_ready(m: Registry, d: DepView) -> bool {
    dep_target(state_in(m, d.key), d.kind) is Some && holders_in(m, d.key) < u64::MAX
}

/// Whether every dependency of the list can be taken now.
pub open spec fn deps_ready(m: Registry, deps: Seq<DepView>) -> bool {
    forall|i: int| 0 <= i < deps.len() ==> dep_ready(m, #[trigger] deps[i])
}

/// The registry after one more compilation has taken the dependency `d`.
pub open spec fn acquire_one(m: Registry, d: DepView) -> Registry {
    m.insert(
        d.key,
        UnitView {
            state: dep_target(state_in(m, d.key), d.kind).unwrap(),
            holders: holders_in(m, d.key) + 1,
            deps: deps_in(m, d.key),
        },
    )
}

/// The registry after one more compilation has taken the dependencies of
/// the list, one after the other.
pub open spec fn acquire_all(m: Registry, deps: Seq<DepView>) -> Registry
    decreases deps.len(),
{
    if deps.len() == 0 {
        m
    } else {
        acquire_one(acquire_all(m, deps.drop_last()), deps.last())
    }
}

/// The file operations that taking the dependencies of the list asks for,
/// in the order of the list.
pub open spec fn acquire_requests(m: Registry, deps: Seq<DepView>) -> Seq<RequestView>
    decreases deps.len(),
{
    if deps.len() == 0 {
        Seq::empty()
    } else {
        let before = acquire_all(m, deps.drop_last());
        let d = deps.last();
        acquire_requests(m, deps.drop_last()) + tagged(
            d.key,
            steps(state_in(before, d.key), dep_target(state_in(before, d.key), d.kind).unwrap()),
        )
    }
}

/// The keys of a list of dependencies.
pub open spec fn keys_of(deps: Seq<DepView>) -> Seq<Seq<char>> {
    deps.map_values(|d: DepView| d.key)
}

/// The compilation of `unit` starts. Refused unless the unit holds its
/// fingerprint lock and is none of its own dependencies. The caller waits
/// until every dependency can be taken; then the unit takes `share`
/// exclusively first, and after it each dependency is taken, in ascending
/// order of the keys.
pub open spec fn start_model(m: Registry, unit: Seq<char>, deps: Seq<DepView>) -> Outcome {
    let sorted = sorted_deps(deps);
    if state_in(m, unit) != UnitState::ReadFingerprint || need(deps, unit) is Some {
        stay(m, Verdict::Refused(LockError::StateViolation))
    } else if !deps_ready(m, sorted) {
        stay(m, Verdict::Wait)
    } else {
        let own = m.insert(
            unit,
            UnitView {
                state: UnitState::CompilingRmeta,
                holders: holders_in(m, unit),
                deps: keys_of(sorted),
            },
        );
        Outcome {
            verdict: Verdict::Granted,
            registry: acquire_all(own, sorted),
            requests: tagged(unit, steps(UnitState::ReadFingerprint, UnitState::CompilingRmeta))
                + acquire_requests(own, sorted),
        }
    }
}

/// Whether the unit `k` gives up its locks when one compilation lets go of
/// it: it does when that was the last one and the unit is only read.
pub open spec fn last_reader(m: Registry, k: Seq<char>) -> bool {
    holders_in(m, k) == 1 && state_in(m, k).is_shared()
}

/// The registry after one compilation has let go of the dependency `k`.
/// A unit that no compilation holds stays as it is.
pub open spec fn release_one(m: Registry, k: Seq<char>) -> Registry {
    if holders_in(m, k) == 0 {
        m
    } else if last_reader(m, k) {
        m.remove(k)
    } else {
        m.insert(
            k,
            UnitView { state: m[k].state, holders: (m[k].holders - 1) as nat, deps: m[k].deps },
        )
    }
}

/// The registry after one compilation has let go of the dependencies of
/// the list, one after the other.
pub open spec fn release_all(m: Registry, keys: Seq<Seq<char>>) -> Registry
    decreases keys.len(),
{
    if keys.len() == 0 {
        m
    } else {
        release_one(release_all(m, keys.drop_last()), keys.last())
    }
}

/// The file operations that letting go of the dependencies of the list
/// asks for, in the order of the list.
pub open spec fn release_requests(m: Registry, keys: Seq<Seq<char>>) -> Seq<RequestView>
    decreases keys.len(),
{
    if keys.len() == 0 {
        Seq::empty()
    } else {
        let before = release_all(m, keys.drop_last());
        let k = keys.last();
        release_requests(m, keys.drop_last()) + if last_reader(before, k) {
            tagged(k, steps(state_in(before, k), UnitState::Unlocked))
        } else {
            Seq::empty()
        }
    }
}

/// The state in which a unit stays behind when it lets go of its own
/// locks: a unit whose metadata compilations in flight still read stays a
/// reader, any other holds nothing.
pub open spec fn left_behind(m: Registry, unit: Seq<char>) -> UnitState {
    if holders_in(m, unit) > 0 {
        UnitState::SharedPartial
    } else {
        UnitState::Unlocked
    }
}

/// The registry in which the unit has let go of its own locks and of its
/// claim on its dependencies: its record is dropped unless it stays
/// behind as a reader.
pub open spec fn own_released(m: Registry, unit: Seq<char>) -> Registry {
    if holders_in(m, unit) > 0 {
        m.insert(
            unit,
            UnitView {
                state: UnitState::SharedPartial,
                holders: holders_in(m, unit),
                deps: Seq::empty(),
            },
        )
    } else {
        m.remove(unit)
    }
}

/// The unit lets go of what it holds. Refused for a unit that holds
/// nothing, and for a unit that is only held on behalf of compilations in
/// flight, which let go of it themselves. A unit whose metadata
/// compilations in flight still read stays behind as a reader; any other
/// gives up both files and its record. With it go the dependencies that
/// its compilation took.
pub open spec fn release_model(m: Registry, unit: Seq<char>) -> Outcome {
    let s = state_in(m, unit);
    if s == UnitState::Unlocked || (s.is_shared() && holders_in(m, unit) > 0) {
        stay(m, Verdict::Refused(LockError::StateViolation))
    } else {
        let own = own_released(m, unit);
        Outcome {
            verdict: Verdict::Granted,
            registry: release_all(own, deps_in(m, unit)),
            requests: tagged(unit, steps(s, left_behind(m, unit))) + release_requests(
                own,
                deps_in(m, unit),
            ),
        }
    }
}

/// Taking dependencies leaves the records of all other units as they were.
pub proof fn lemma_acquire_frame(m: Registry, deps: Seq<DepView>, k: Seq<char>)
    requires
        forall|j: int| 0 <= j < deps.len() ==> deps[j].key != k,
    ensures
        acquire_all(m, deps).contains_key(k) == m.contains_key(k),
        m.contains_key(k) ==> acquire_all(m, deps)[k] == m[k],
        state_in(acquire_all(m, deps), k) == state_in(m, k),
        holders_in(acquire_all(m, deps), k) == holders_in(m, k),
        deps_in(acquire_all(m, deps), k) == deps_in(m, k),
    decreases deps.len(),
{
    if deps.len() > 0 {
        let front = deps.drop_last();
        assert forall|j: int| 0 <= j < front.len() implies front[j].key != k by {
            assert(front[j] == deps[j]);
        }
        lemma_acquire_frame(m, front, k);
        assert(deps.last() == deps[deps.len() - 1]);
    }
}

/// Taking a dependency that is ready leaves every record well formed.
pub proof fn lemma_acquire_one_wf(m: Registry, d: DepView)
    requires
        registry_wf(m),
        dep_ready(m, d),
    ensures
        registry_wf(acquire_one(m, d)),
{
    let after = acquire_one(m, d);
    assert forall|k: Seq<char>| #[trigger] after.contains_key(k) implies unit_wf(k, after[k]) by {
        if k != d.key {
            assert(m.contains_key(k));
        } else if m.contains_key(k) {
            assert(unit_wf(k, m[k]));
        }
    }
}

/// Letting go of a dependency leaves every record well formed.
pub proof fn lemma_release_one_wf(m: Registry, k: Seq<char>)
    requires
        registry_wf(m),
    ensures
        registry_wf(release_one(m, k)),
{
    let after = release_one(m, k);
    assert forall|x: Seq<char>| #[trigger] after.contains_key(x) implies unit_wf(x, after[x]) by {
        assert(m.contains_key(x));
        assert(unit_wf(x, m[x]));
    }
}

} // verus!
