//! The registry of unit locks of one build.
//!
//! The manager decides; it touches no file. Each operation is one
//! transition of the registry: it either changes the registry and returns
//! the operations to carry out on the lock files, in the order in which
//! they are to be made, or it leaves the registry as it was and says why.
//! Whoever owns the file handles makes the calls, waits where the answer is
//! `Wait`, and asks again.

use vstd::prelude::*;
use crate::deps::{
    ascending, lemma_ascending_pairs, lemma_need_entries, lemma_sorted_deps, need,
    normalize_deps, sorted_deps,
};
use crate::error::LockError;
use crate::key::{
    rollback, tagged, undone, CompilationLockRef, Dep, DepView, LockKey, LockRequest,
    RequestView,
};
use crate::mode::LockingMode;
use crate::model::{
    acquire_all, acquire_one, acquire_requests, dep_ready, dep_target, deps_in, deps_ready,
    fingerprint_model, go, holders_in, keys_of, lemma_acquire_frame,
    lemma_acquire_one_wf, lemma_release_one_wf, observe_model, registry_wf, release_all,
    release_model, release_one, release_requests, rmeta_model, start_model,
    state_in, stay, Outcome, Registry, Verdict,
};
use crate::state::{legal, steps, SharedKind, UnitState};
use crate::unit::{unit_wf, UnitLock, UnitView};

verus! {

/// What a granted operation hands back: the receipt by which the unit is
/// named in later calls, and the operations to carry out on the lock
/// files, in order.
#[derive(Debug)]
pub struct Grant {
    pub receipt: LockKey,
    pub requests: Vec<LockRequest>,
}

/// The answer to an operation that was not refused.
#[derive(Debug)]
pub enum Transition {
    /// A lock that is needed is held in a way that stands against the
    /// operation. Nothing was changed; ask again when a holder has left.
    Wait,
    /// The registry was changed as asked.
    Granted(Grant),
}

/// Whether the answer `r` and the registry `after` are what the outcome
/// `o` of an operation on the unit `key` says.
pub open spec fn agrees(
    r: Result<Transition, LockError>,
    key: Seq<char>,
    after: Registry,
    o: Outcome,
) -> bool {
    &&& after == o.registry
    &&& match o.verdict {
        Verdict::Granted => r matches Ok(Transition::Granted(g)) && g.receipt@ == key
            && g.requests.deep_view() == o.requests,
        Verdict::Wait => r matches Ok(Transition::Wait),
        Verdict::Refused(e) => r matches Err(x) && x == e,
    }
}

/// The registry of the units that hold a lock.
#[derive(Debug)]
pub struct LockManager {
    enabled: bool,
    units: Vec<UnitLock>,
}

/// Whether no two records are of the same unit.
spec fn distinct(units: Seq<UnitLock>) -> bool {
    forall|i: int, j: int|
        0 <= i < units.len() && 0 <= j < units.len() && units[i].key_view() == units[j].key_view()
            ==> i == j
}

/// Whether the unit `k` has a record.
spec fn listed(units: Seq<UnitLock>, k: Seq<char>) -> bool {
    exists|i: int| 0 <= i < units.len() && units[i].key_view() == k
}

/// The place of the record of the unit `k`.
spec fn slot(units: Seq<UnitLock>, k: Seq<char>) -> int {
    choose|i: int| 0 <= i < units.len() && units[i].key_view() == k
}

/// The registry that the records stand for.
spec fn registry(units: Seq<UnitLock>) -> Map<Seq<char>, UnitView> {
    Map::new(|k: Seq<char>| listed(units, k), |k: Seq<char>| units[slot(units, k)]@)
}

/// Among distinct records the unit at place `i` is found at place `i`.
proof fn lemma_slot(units: Seq<UnitLock>, i: int)
    requires
        distinct(units),
        0 <= i < units.len(),
    ensures
        listed(units, units[i].key_view()),
        slot(units, units[i].key_view()) == i,
        registry(units).contains_key(units[i].key_view()),
        registry(units)[units[i].key_view()] == units[i]@,
{
}

/// A record added for a unit that had none.
proof fn lemma_push(units: Seq<UnitLock>, u: UnitLock)
    requires
        distinct(units),
        !listed(units, u.key_view()),
    ensures
        distinct(units.push(u)),
        registry(units.push(u)) == registry(units).insert(u.key_view(), u@),
{
    let after = units.push(u);
    assert forall|k: Seq<char>| listed(after, k) <==> (k == u.key_view() || listed(units, k)) by {
        if listed(units, k) {
            let i = slot(units, k);
            assert(after[i].key_view() == k);
        }
        if k == u.key_view() {
            assert(after[units.len() as int].key_view() == k);
        }
        if listed(after, k) {
            let i = slot(after, k);
            if i < units.len() {
                assert(units[i].key_view() == k);
            }
        }
    }
    assert forall|k: Seq<char>| listed(after, k) implies #[trigger] registry(after)[k] == registry(
        units,
    ).insert(u.key_view(), u@)[k] by {
        let i = slot(after, k);
        if k != u.key_view() {
            assert(units[i].key_view() == k);
            lemma_slot(units, i);
        }
    }
    assert(registry(after) =~= registry(units).insert(u.key_view(), u@));
}

/// A record taken out.
proof fn lemma_remove(units: Seq<UnitLock>, i: int)
    requires
        distinct(units),
        0 <= i < units.len(),
    ensures
        distinct(units.remove(i)),
        !listed(units.remove(i), units[i].key_view()),
        registry(units.remove(i)) == registry(units).remove(units[i].key_view()),
{
    let after = units.remove(i);
    let gone = units[i].key_view();
    assert forall|a: int| 0 <= a < after.len() implies after[a] == units[if a < i {
        a
    } else {
        a + 1
    }] by {}
    assert forall|k: Seq<char>| listed(after, k) <==> (k != gone && listed(units, k)) by {
        if listed(after, k) {
            let a = slot(after, k);
            let b = if a < i {
                a
            } else {
                a + 1
            };
            assert(units[b].key_view() == k);
        }
        if k != gone && listed(units, k) {
            let b = slot(units, k);
            let a = if b < i {
                b
            } else {
                b - 1
            };
            assert(after[a].key_view() == k);
        }
    }
    assert forall|k: Seq<char>| listed(after, k) implies #[trigger] registry(after)[k] == registry(
        units,
    )[k] by {
        let a = slot(after, k);
        let b = if a < i {
            a
        } else {
            a + 1
        };
        assert(units[b].key_view() == k);
        lemma_slot(units, b);
    }
    assert(registry(after) =~= registry(units).remove(gone));
}

impl View for LockManager {
    type V = Map<Seq<char>, UnitView>;

    /// The records of the units that hold a lock, by unit.
    closed spec fn view(&self) -> Map<Seq<char>, UnitView> {
        registry(self.units@)
    }
}

impl LockManager {
    /// Whether per-unit locks are taken at all.
    pub closed spec fn enabled(&self) -> bool {
        self.enabled
    }

    /// No unit has two records.
    pub closed spec fn inv(&self) -> bool {
        distinct(self.units@)
    }

    /// A manager at rest: every record is well formed, and a manager that
    /// takes no per-unit locks has no record.
    pub open spec fn wf(&self) -> bool {
        &&& self.inv()
        &&& registry_wf(self@)
        &&& (!self.enabled() ==> self@ == Map::<Seq<char>, UnitView>::empty())
    }

    /// The state of the unit `k`.
    pub open spec fn state_of(&self, k: Seq<char>) -> UnitState {
        state_in(self@, k)
    }

    /// A manager that takes per-unit locks and holds none yet.
    pub fn new() -> (m: LockManager)
        ensures
            m.wf(),
            m.enabled(),
            m@ == Map::<Seq<char>, UnitView>::empty(),
    {
        let m = LockManager { enabled: true, units: Vec::new() };
        assert(m@ =~= Map::<Seq<char>, UnitView>::empty());
        m
    }

    /// A manager for a build directory that is locked in the given mode.
    /// Only with fine-grained locking does it take per-unit locks; in the
    /// other modes each of its operations is granted at once, changes
    /// nothing and asks for nothing.
    pub fn with_mode(mode: LockingMode) -> (m: LockManager)
        ensures
            m.wf(),
            m.enabled() == (mode == LockingMode::Fine),
            m@ == Map::<Seq<char>, UnitView>::empty(),
    {
        let m = LockManager { enabled: mode == LockingMode::Fine, units: Vec::new() };
        assert(m@ =~= Map::<Seq<char>, UnitView>::empty());
        m
    }

    /// Whether per-unit locks are taken at all.
    pub fn is_enabled(&self) -> (r: bool)
        ensures
            r == self.enabled(),
    {
        self.enabled
    }

    /// The state of the unit `key`.
    pub fn state(&self, key: &LockKey) -> (s: UnitState)
        requires
            self.wf(),
        ensures
            s == self.state_of(key@),
    {
        match self.find(key) {
            Some(i) => self.units[i].state(),
            None => UnitState::Unlocked,
        }
    }

    /// The number of compilations in flight that hold the unit `key` as a
    /// dependency.
    pub fn holders(&self, key: &LockKey) -> (n: u64)
        requires
            self.wf(),
        ensures
            n == holders_in(self@, key@),
    {
        match self.find(key) {
            Some(i) => self.units[i].holders(),
            None => 0,
        }
    }

    /// The number of units that hold a lock.
    pub fn len(&self) -> (n: usize)
        ensures
            n == self.registered(),
    {
        self.units.len()
    }

    /// The number of units that hold a lock.
    pub closed spec fn registered(&self) -> nat {
        self.units@.len()
    }

    /// The place of the record of `key`, if it has one.
    fn find(&self, key: &LockKey) -> (r: Option<usize>)
        requires
            self.inv(),
        ensures
            match r {
                Some(i) => i < self.units@.len() && self.units@[i as int].key_view() == key@
                    && self@.contains_key(key@) && self@[key@] == self.units@[i as int]@,
                None => !self@.contains_key(key@),
            },
    {
        let mut i: usize = 0;
        while i < self.units.len()
            invariant
                self.inv(),
                i <= self.units@.len(),
                forall|j: int| 0 <= j < i ==> self.units@[j].key_view() != key@,
            decreases self.units@.len() - i,
        {
            if self.units[i].key().same(key) {
                proof {
                    lemma_slot(self.units@, i as int);
                }
                return Some(i);
            }
            i += 1;
        }
        None
    }

    /// Takes the record of `key` out of the registry, if it has one.
    fn take(&mut self, key: &LockKey) -> (r: Option<UnitLock>)
        requires
            old(self).inv(),
        ensures
            final(self).inv(),
            final(self).enabled() == old(self).enabled(),
            final(self)@ == old(self)@.remove(key@),
            match r {
                Some(u) => old(self)@.contains_key(key@) && u@ == old(self)@[key@] && u.key_view()
                    == key@,
                None => !old(self)@.contains_key(key@),
            },
    {
        match self.find(key) {
            Some(i) => {
                proof {
                    lemma_remove(self.units@, i as int);
                }
                let u = self.units.remove(i);
                Some(u)
            },
            None => {
                assert(self@.remove(key@) =~= self@);
                None
            },
        }
    }

    /// Adds the record of a unit that has none.
    fn put(&mut self, u: UnitLock)
        requires
            old(self).inv(),
            !old(self)@.contains_key(u.key_view()),
        ensures
            final(self).inv(),
            final(self).enabled() == old(self).enabled(),
            final(self)@ == old(self)@.insert(u.key_view(), u@),
    {
        proof {
            lemma_push(self.units@, u);
        }
        self.units.push(u);
    }
    /// Puts the unit `key` in the state `to` with the given holders and,
    /// where `deps` is given, dependencies, and appends to `out` the file
    /// operations of the transition.
    fn rewrite(
        &mut self,
        key: &LockKey,
        to: UnitState,
        holders: u64,
        deps: Option<Vec<LockKey>>,
        out: &mut Vec<LockRequest>,
    ) -> (replaced: Vec<LockKey>)
        requires
            old(self).inv(),
            to == state_in(old(self)@, key@) || legal(state_in(old(self)@, key@), to),
        ensures
            deps is Some ==> replaced.deep_view() == deps_in(old(self)@, key@),
            final(self).inv(),
            final(self).enabled() == old(self).enabled(),
            final(self)@ == if to == UnitState::Unlocked {
                old(self)@.remove(key@)
            } else {
                old(self)@.insert(
                    key@,
                    UnitView {
                        state: to,
                        holders: holders as nat,
                        deps: match deps {
                            Some(d) => d.deep_view(),
                            None => deps_in(old(self)@, key@),
                        },
                    },
                )
            },
            final(out).deep_view() == old(out).deep_view() + tagged(
                key@,
                steps(state_in(old(self)@, key@), to),
            ),
    {
        let (k, state, _, old_deps) = match self.take(key) {
            Some(u) => u.dismantle(),
            None => UnitLock::new(key.clone()).dismantle(),
        };
        let (new_deps, replaced) = match deps {
            Some(d) => (d, old_deps),
            None => (old_deps, Vec::new()),
        };
        let mut u = UnitLock::assemble(k, state, holders, new_deps);
        let moved = u.advance(to, out);
        assert(moved);
        if to != UnitState::Unlocked {
            self.put(u);
            assert(final(self)@ =~= old(self)@.insert(key@, u@));
        }
        replaced
    }

    /// The answer of an operation that was granted with nothing to do.
    fn nothing_to_do(key: &LockKey) -> (r: Transition)
        ensures
            r matches Transition::Granted(g) && g.receipt@ == key@ && g.requests.deep_view()
                == Seq::<RequestView>::empty(),
    {
        let g = Grant { receipt: key.clone(), requests: Vec::new() };
        assert(g.requests.deep_view() =~= Seq::<RequestView>::empty());
        Transition::Granted(g)
    }

    /// Moves the unit `key` to the state `to` and keeps the rest of its
    /// record.
    fn shift(&mut self, key: &LockKey, to: UnitState) -> (r: Transition)
        requires
            old(self).wf(),
            old(self).enabled(),
            legal(state_in(old(self)@, key@), to) || to == state_in(old(self)@, key@),
            to != UnitState::Unlocked ==> unit_wf(
                key@,
                UnitView {
                    state: to,
                    holders: holders_in(old(self)@, key@),
                    deps: deps_in(old(self)@, key@),
                },
            ),
        ensures
            final(self).wf(),
            final(self).enabled(),
            agrees(Ok(r), key@, final(self)@, go(old(self)@, key@, to)),
    {
        if self.state(key) == to {
            proof {
                if self@.contains_key(key@) {
                    assert(unit_wf(key@, self@[key@]));
                }
                assert(go(self@, key@, to).registry =~= self@);
                assert(steps(to, to) =~= Seq::empty());
                assert(go(self@, key@, to).requests =~= Seq::<RequestView>::empty());
            }
            return Self::nothing_to_do(key);
        }
        let holders = self.holders(key);
        let mut requests: Vec<LockRequest> = Vec::new();
        assert(requests.deep_view() =~= Seq::<RequestView>::empty());
        let _ = self.rewrite(key, to, holders, None, &mut requests);
        assert(requests.deep_view() =~= tagged(key@, steps(state_in(old(self)@, key@), to)));
        Transition::Granted(Grant { receipt: key.clone(), requests })
    }

    /// Takes the fingerprint lock of `unit`, which makes it the writer of
    /// the unit: `active_build` is locked exclusively. For a unit that is a
    /// writer already the call changes nothing and is granted again, with
    /// the same receipt. While the unit is held for readers the answer is
    /// `Wait`.
    pub fn lock_fingerprint(&mut self, unit: &LockKey) -> (r: Result<Transition, LockError>)
        requires
            old(self).wf(),
        ensures
            final(self).wf(),
            final(self).enabled() == old(self).enabled(),
            agrees(
                r,
                unit@,
                final(self)@,
                if old(self).enabled() {
                    fingerprint_model(old(self)@, unit@)
                } else {
                    stay(old(self)@, Verdict::Granted)
                },
            ),
    {
        if !self.enabled {
            return Ok(Self::nothing_to_do(unit));
        }
        match self.state(unit) {
            UnitState::Unlocked => Ok(self.shift(unit, UnitState::ReadFingerprint)),
            UnitState::SharedPartial | UnitState::SharedFull => Ok(Transition::Wait),
            _ => Ok(Self::nothing_to_do(unit)),
        }
    }

    /// Says that the metadata of the unit is on disk: `active_build` is
    /// downgraded to shared, so that dependents that need only the metadata
    /// may proceed while the final artifact is made. Refused with
    /// `StateViolation` unless the unit is in `CompilingRmeta`.
    pub fn rmeta_produced(&mut self, receipt: &LockKey) -> (r: Result<Transition, LockError>)
        requires
            old(self).wf(),
        ensures
            final(self).wf(),
            final(self).enabled() == old(self).enabled(),
            agrees(
                r,
                receipt@,
                final(self)@,
                if old(self).enabled() {
                    rmeta_model(old(self)@, receipt@)
                } else {
                    stay(old(self)@, Verdict::Granted)
                },
            ),
    {
        if !self.enabled {
            return Ok(Self::nothing_to_do(receipt));
        }
        match self.state(receipt) {
            UnitState::CompilingRmeta => Ok(self.shift(receipt, UnitState::CompilingRlib)),
            _ => Err(LockError::StateViolation),
        }
    }

    /// A consumer that needs `kind` of the unit `key` comes upon it: the
    /// unit is advanced to the shared state that serves the consumer, and
    /// stays as it is where it serves it already. While a writer stands in
    /// the way the answer is `Wait`.
    pub fn observe_as_dependency(&mut self, key: &LockKey, kind: SharedKind) -> (r: Result<
        Transition,
        LockError,
    >)
        requires
            old(self).wf(),
        ensures
            final(self).wf(),
            final(self).enabled() == old(self).enabled(),
            agrees(
                r,
                key@,
                final(self)@,
                if old(self).enabled() {
                    observe_model(old(self)@, key@, kind)
                } else {
                    stay(old(self)@, Verdict::Granted)
                },
            ),
    {
        if !self.enabled {
            return Ok(Self::nothing_to_do(key));
        }
        match reader_target(self.state(key), kind) {
            Some(to) => Ok(self.shift(key, to)),
            None => Ok(Transition::Wait),
        }
    }

    /// Starts the compilation of `compilation.unit`. Refused with
    /// `StateViolation` unless the unit holds its fingerprint lock and is
    /// none of its own dependencies. While a dependency cannot be taken the
    /// answer is `Wait` and nothing was changed. Else the unit locks
    /// `share` exclusively, and then each dependency is taken in the kind
    /// asked for, in ascending order of the keys and each unit once,
    /// whatever the order of the list.
    pub fn start_compiling(&mut self, compilation: &CompilationLockRef) -> (r: Result<
        Transition,
        LockError,
    >)
        requires
            old(self).wf(),
        ensures
            final(self).wf(),
            final(self).enabled() == old(self).enabled(),
            agrees(
                r,
                compilation.unit@,
                final(self)@,
                if old(self).enabled() {
                    start_model(old(self)@, compilation.unit@, compilation.deps.deep_view())
                } else {
                    stay(old(self)@, Verdict::Granted)
                },
            ),
    {
        let unit = &compilation.unit;
        if !self.enabled {
            return Ok(Self::nothing_to_do(unit));
        }
        if self.state(unit) != UnitState::ReadFingerprint {
            return Err(LockError::StateViolation);
        }
        let sorted = normalize_deps(&compilation.deps);
        let ghost before = self@;
        let ghost listed = compilation.deps.deep_view();
        let ghost order = sorted.deep_view();
        proof {
            lemma_sorted_deps(listed, unit@);
            lemma_need_entries(order, unit@);
        }
        let mut blocked = false;
        let mut i: usize = 0;
        while i < sorted.len()
            invariant
                self.wf(),
                self.enabled(),
                self@ == before,
                before == old(self)@,
                listed == compilation.deps.deep_view(),
                unit@ == compilation.unit@,
                state_in(before, unit@) == UnitState::ReadFingerprint,
                order == sorted.deep_view(),
                order == sorted_deps(listed),
                i <= sorted.len(),
                forall|j: int| 0 <= j < i ==> order[j].key != unit@,
                blocked <==> exists|j: int| 0 <= j < i && !dep_ready(before, #[trigger] order[j]),
            decreases sorted.len() - i,
        {
            let d = &sorted[i];
            assert(order[i as int] == d@);
            if d.key.same(unit) {
                proof {
                    lemma_sorted_deps(listed, unit@);
                    lemma_need_entries(order, unit@);
                    assert(order[i as int].key == unit@);
                }
                return Err(LockError::StateViolation);
            }
            let ready = reader_target(self.state(&d.key), d.kind).is_some() && self.holders(&d.key)
                < u64::MAX;
            if !ready {
                blocked = true;
            }
            i += 1;
        }
        if blocked {
            return Ok(Transition::Wait);
        }
        assert(deps_ready(before, order));
        let keys = dep_keys(&sorted);
        let holders = self.holders(unit);
        let mut requests: Vec<LockRequest> = Vec::new();
        assert(requests.deep_view() =~= Seq::<RequestView>::empty());
        let _ = self.rewrite(unit, UnitState::CompilingRmeta, holders, Some(keys), &mut requests);
        let ghost own = self@;
        let ghost first = tagged(
            unit@,
            steps(UnitState::ReadFingerprint, UnitState::CompilingRmeta),
        );
        assert(requests.deep_view() =~= first);
        proof {
            assert forall|a: int, b: int| 0 <= a < b < order.len() implies crate::text::lex_lt(
                keys_of(order)[a],
                keys_of(order)[b],
            ) by {
                lemma_ascending_pairs(order, a, b);
            }
            assert(!keys_of(order).contains(unit@));
            assert(registry_wf(own));
            assert(order.take(0) =~= Seq::<DepView>::empty());
            assert(first + acquire_requests(own, order.take(0)) =~= first);
        }
        let mut i: usize = 0;
        while i < sorted.len()
            invariant
                self.inv(),
                self.enabled(),
                registry_wf(self@),
                registry_wf(own),
                order == sorted.deep_view(),
                ascending(order),
                i <= sorted.len(),
                deps_ready(own, order),
                self@ == acquire_all(own, order.take(i as int)),
                requests.deep_view() == first + acquire_requests(own, order.take(i as int)),
            decreases sorted.len() - i,
        {
            let d = &sorted[i];
            let ghost current = self@;
            let ghost done = order.take(i as int);
            proof {
                assert(order[i as int] == d@);
                assert forall|j: int| 0 <= j < done.len() implies done[j].key != d@.key by {
                    lemma_ascending_pairs(order, j, i as int);
                }
                lemma_acquire_frame(own, done, d@.key);
                assert(dep_ready(own, order[i as int]));
                lemma_acquire_one_wf(current, d@);
                assert(order.take(i + 1).drop_last() =~= done);
                assert(order.take(i + 1).last() == d@);
            }
            let state = self.state(&d.key);
            let holders = self.holders(&d.key);
            let to = reader_target(state, d.kind).unwrap();
            let _ = self.rewrite(&d.key, to, holders + 1, None, &mut requests);
            assert(self@ =~= acquire_one(current, d@));
            assert(requests.deep_view() =~= first + acquire_requests(own, order.take(i + 1)));
            i += 1;
        }
        assert(order.take(i as int) =~= order);
        Ok(Transition::Granted(Grant { receipt: unit.clone(), requests }))
    }

    /// The unit named by `receipt` lets go of what it holds, and with it
    /// go the dependencies that its compilation took. Refused with
    /// `StateViolation` for a unit that holds nothing, so that nothing is
    /// unlocked twice, and for a unit that is only held on behalf of
    /// compilations in flight. A unit whose metadata is still read by
    /// compilations in flight stays behind in `SharedPartial`; a dependency
    /// gives up its locks when the last compilation lets go of it.
    pub fn release(&mut self, receipt: &LockKey) -> (r: Result<Transition, LockError>)
        requires
            old(self).wf(),
        ensures
            final(self).wf(),
            final(self).enabled() == old(self).enabled(),
            agrees(
                r,
                receipt@,
                final(self)@,
                if old(self).enabled() {
                    release_model(old(self)@, receipt@)
                } else {
                    stay(old(self)@, Verdict::Granted)
                },
            ),
    {
        if !self.enabled {
            return Ok(Self::nothing_to_do(receipt));
        }
        let state = self.state(receipt);
        let holders = self.holders(receipt);
        let shared = match state {
            UnitState::SharedPartial | UnitState::SharedFull => true,
            _ => false,
        };
        if state == UnitState::Unlocked || (shared && holders > 0) {
            return Err(LockError::StateViolation);
        }
        let to = if holders > 0 {
            UnitState::SharedPartial
        } else {
            UnitState::Unlocked
        };
        let ghost before = self@;
        let mut requests: Vec<LockRequest> = Vec::new();
        assert(requests.deep_view() =~= Seq::<RequestView>::empty());
        let cleared: Vec<LockKey> = Vec::new();
        assert(cleared.deep_view() =~= Seq::<Seq<char>>::empty());
        let deps = self.rewrite(receipt, to, holders, Some(cleared), &mut requests);
        let ghost own = self@;
        let ghost first = tagged(receipt@, steps(state, to));
        let ghost keys = deps.deep_view();
        proof {
            assert(requests.deep_view() =~= first);
            assert(registry_wf(own));
            assert(keys.take(0) =~= Seq::<Seq<char>>::empty());
            assert(first + release_requests(own, keys.take(0)) =~= first);
        }
        let mut i: usize = 0;
        while i < deps.len()
            invariant
                self.inv(),
                self.enabled(),
                registry_wf(self@),
                keys == deps.deep_view(),
                i <= deps.len(),
                self@ == release_all(own, keys.take(i as int)),
                requests.deep_view() == first + release_requests(own, keys.take(i as int)),
            decreases deps.len() - i,
        {
            let k = &deps[i];
            let ghost current = self@;
            proof {
                assert(keys[i as int] == k@);
                lemma_release_one_wf(current, k@);
                assert(keys.take(i + 1).drop_last() =~= keys.take(i as int));
                assert(keys.take(i + 1).last() == k@);
            }
            let held = self.holders(k);
            if held > 0 {
                let s = self.state(k);
                let only_read = match s {
                    UnitState::SharedPartial | UnitState::SharedFull => true,
                    _ => false,
                };
                if held == 1 && only_read {
                    let _ = self.rewrite(k, UnitState::Unlocked, 0, None, &mut requests);
                } else {
                    let _ = self.rewrite(k, s, held - 1, None, &mut requests);
                    assert(steps(s, s) =~= Seq::empty());
                    assert(tagged(k@, steps(s, s)) =~= Seq::<RequestView>::empty());
                }
            }
            assert(self@ =~= release_one(current, k@));
            assert(requests.deep_view() =~= first + release_requests(own, keys.take(i + 1)));
            i += 1;
        }
        assert(keys.take(i as int) =~= keys);
        Ok(Transition::Granted(Grant { receipt: receipt.clone(), requests }))
    }
    /// A copy of the manager as it is now, to go back to when the requests
    /// of a granted operation cannot be carried out.
    pub fn snapshot(&self) -> (r: LockManager)
        requires
            self.wf(),
        ensures
            r.wf(),
            r.enabled() == self.enabled(),
            r@ == self@,
    {
        let mut units: Vec<UnitLock> = Vec::new();
        let mut i: usize = 0;
        while i < self.units.len()
            invariant
                i <= self.units.len(),
                units@.len() == i,
                forall|j: int|
                    0 <= j < i ==> (#[trigger] self.units@[j]).key_view() == units@[j].key_view()
                        && self.units@[j]@ == units@[j]@,
            decreases self.units.len() - i,
        {
            units.push(self.units[i].duplicate());
            i += 1;
        }
        proof {
            lemma_same_records(self.units@, units@);
        }
        LockManager { enabled: self.enabled, units }
    }

    /// Takes back a granted operation of which only the first `done`
    /// requests could be carried out: the registry is again as `before`,
    /// the snapshot taken before the operation, and what is returned gives
    /// back the locks that those requests took, last taken first. After it
    /// every unit is in the state in which it was before the operation, and
    /// no lock that the operation took is left held.
    pub fn restore(
        &mut self,
        before: LockManager,
        requests: &Vec<LockRequest>,
        done: usize,
    ) -> (back: Vec<LockRequest>)
        requires
            before.wf(),
        ensures
            final(self).wf(),
            final(self).enabled() == before.enabled(),
            final(self)@ == before@,
            back.deep_view() == undone(
                requests.deep_view(),
                if done <= requests.len() {
                    done as int
                } else {
                    requests.len() as int
                },
            ),
    {
        *self = before;
        let n = if done <= requests.len() {
            done
        } else {
            requests.len()
        };
        rollback(requests, n)
    }

    /// The first step in the life of a unit, as `lock_fingerprint`: the
    /// unit becomes its own writer, and the receipt names it in later
    /// calls. The lock guards the unit against other builds from the start;
    /// others read it once `downgrade_to_shared` has made it shared.
    pub fn lock_shared(&mut self, unit: &LockKey) -> (r: Result<Transition, LockError>)
        requires
            old(self).wf(),
        ensures
            final(self).wf(),
            final(self).enabled() == old(self).enabled(),
            agrees(
                r,
                unit@,
                final(self)@,
                if old(self).enabled() {
                    fingerprint_model(old(self)@, unit@)
                } else {
                    stay(old(self)@, Verdict::Granted)
                },
            ),
    {
        self.lock_fingerprint(unit)
    }

    /// The second step in the life of a unit, as `start_compiling`: the
    /// unit takes `share` exclusively too, and its dependencies are taken
    /// in shared mode.
    pub fn upgrade_to_exclusive(&mut self, compilation: &CompilationLockRef) -> (r: Result<
        Transition,
        LockError,
    >)
        requires
            old(self).wf(),
        ensures
            final(self).wf(),
            final(self).enabled() == old(self).enabled(),
            agrees(
                r,
                compilation.unit@,
                final(self)@,
                if old(self).enabled() {
                    start_model(old(self)@, compilation.unit@, compilation.deps.deep_view())
                } else {
                    stay(old(self)@, Verdict::Granted)
                },
            ),
    {
        self.start_compiling(compilation)
    }

    /// The third step in the life of a unit, as `rmeta_produced`:
    /// `active_build` goes from exclusive to shared once the metadata is on
    /// disk. Refused with `StateViolation` unless the unit is in
    /// `CompilingRmeta`.
    pub fn downgrade_to_shared(&mut self, receipt: &LockKey) -> (r: Result<Transition, LockError>)
        requires
            old(self).wf(),
        ensures
            final(self).wf(),
            final(self).enabled() == old(self).enabled(),
            agrees(
                r,
                receipt@,
                final(self)@,
                if old(self).enabled() {
                    rmeta_model(old(self)@, receipt@)
                } else {
                    stay(old(self)@, Verdict::Granted)
                },
            ),
    {
        self.rmeta_produced(receipt)
    }
}

/// Distinct records and records that agree with them place by place stand
/// for the same registry.
proof fn lemma_same_records(a: Seq<UnitLock>, b: Seq<UnitLock>)
    requires
        distinct(a),
        a.len() == b.len(),
        forall|i: int|
            0 <= i < a.len() ==> (#[trigger] a[i]).key_view() == b[i].key_view() && a[i]@ == b[i]@,
    ensures
        distinct(b),
        registry(a) == registry(b),
{
    assert forall|i: int, j: int|
        0 <= i < b.len() && 0 <= j < b.len() && b[i].key_view() == b[j].key_view() implies i
        == j by {
        assert(a[i].key_view() == b[i].key_view());
        assert(a[j].key_view() == b[j].key_view());
    }
    assert forall|k: Seq<char>| listed(a, k) <==> listed(b, k) by {
        if listed(a, k) {
            let i = slot(a, k);
            assert(a[i].key_view() == b[i].key_view());
        }
        if listed(b, k) {
            let i = slot(b, k);
            assert(a[i].key_view() == b[i].key_view());
        }
    }
    assert forall|k: Seq<char>| listed(a, k) implies #[trigger] registry(a)[k] == registry(
        b,
    )[k] by {
        let i = slot(a, k);
        assert(a[i].key_view() == b[i].key_view());
        lemma_slot(b, i);
    }
    assert(registry(a) =~= registry(b));
}

/// The keys of a list of dependencies.
fn dep_keys(deps: &Vec<Dep>) -> (keys: Vec<LockKey>)
    ensures
        keys.deep_view() == keys_of(deps.deep_view()),
{
    let mut keys: Vec<LockKey> = Vec::new();
    let mut i: usize = 0;
    while i < deps.len()
        invariant
            i <= deps.len(),
            keys.deep_view() =~= keys_of(deps.deep_view().take(i as int)),
        decreases deps.len() - i,
    {
        let ghost before = keys.deep_view();
        let key = deps[i].key.clone();
        assert(key@ == deps.deep_view()[i as int].key);
        keys.push(key);
        assert(keys.deep_view() =~= before.push(key@));
        assert(deps.deep_view().take(i + 1) =~= deps.deep_view().take(i as int).push(
            deps.deep_view()[i as int],
        ));
        i += 1;
    }
    assert(deps.deep_view().take(i as int) =~= deps.deep_view());
    keys
}

/// The state that serves a reader who needs `kind` of a unit in state `s`;
/// `None` where the reader has to wait for a writer.
pub fn reader_target(s: UnitState, kind: SharedKind) -> (r: Option<UnitState>)
    ensures
        r == crate::model::dep_target(s, kind),
{
    match (s, kind) {
        (UnitState::Unlocked, SharedKind::Partial) => Some(UnitState::SharedPartial),
        (UnitState::Unlocked, SharedKind::Full) => Some(UnitState::SharedFull),
        (UnitState::SharedPartial, SharedKind::Partial) => Some(UnitState::SharedPartial),
        (UnitState::SharedPartial, SharedKind::Full) => Some(UnitState::SharedFull),
        (UnitState::SharedFull, _) => Some(UnitState::SharedFull),
        (UnitState::CompilingRlib, SharedKind::Partial) => Some(UnitState::CompilingRlib),
        _ => None,
    }
}

} // verus!
