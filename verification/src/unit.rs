//! The lock state of one build unit as the lock manager keeps it.

use vstd::prelude::*;
use crate::key::{push_requests, tagged, LockKey, LockRequest, UnitLockLocation};
use crate::state::{legal, steps, LockMode, UnitState};

verus! {

/// What the manager knows of one unit: its state, how many compilations in
/// flight hold it as a dependency, and, while the unit itself is compiled,
/// the dependencies that its compilation holds.
#[derive(Debug)]
pub struct UnitLock {
    pub(crate) key: LockKey,
    pub(crate) state: UnitState,
    pub(crate) holders: u64,
    pub(crate) deps: Vec<LockKey>,
}

/// What a `UnitLock` stands for.
pub struct UnitView {
    pub state: UnitState,
    pub holders: nat,
    pub deps: Seq<Seq<char>>,
}

impl View for UnitLock {
    type V = UnitView;

    closed spec fn view(&self) -> UnitView {
        UnitView {
            state: self.state,
            holders: self.holders as nat,
            deps: self.deps.deep_view(),
        }
    }
}

/// Whether the keys ascend strictly from each to the next.
pub open spec fn ascending_keys(s: Seq<Seq<char>>) -> bool {
    forall|i: int, j: int| 0 <= i < j < s.len() ==> crate::text::lex_lt(s[i], s[j])
}

/// What holds of the record of the unit `key` whenever the manager is at
/// rest: it holds some lock; only a unit whose metadata can be read is held
/// as a dependency; only a unit that is being compiled holds dependencies,
/// each once and never itself.
pub open spec fn unit_wf(key: Seq<char>, v: UnitView) -> bool {
    &&& v.state != UnitState::Unlocked
    &&& v.holders <= u64::MAX
    &&& (v.holders > 0 ==> v.state.modes().active_build == LockMode::Shared)
    &&& (v.deps.len() > 0 ==> v.state == UnitState::CompilingRmeta || v.state
        == UnitState::CompilingRlib)
    &&& ascending_keys(v.deps)
    &&& !v.deps.contains(key)
}

impl UnitLock {
    /// The key of the unit.
    pub closed spec fn key_view(&self) -> Seq<char> {
        self.key@
    }

    /// The record of a unit that holds no lock yet.
    pub fn new(key: LockKey) -> (u: UnitLock)
        ensures
            u.key_view() == key@,
            u@ == (UnitView { state: UnitState::Unlocked, holders: 0, deps: Seq::empty() }),
    {
        let u = UnitLock { key, state: UnitState::Unlocked, holders: 0, deps: Vec::new() };
        assert(u.deps.deep_view() =~= Seq::<Seq<char>>::empty());
        u
    }

    /// The record of the unit `key` in the given state.
    pub(crate) fn assemble(key: LockKey, state: UnitState, holders: u64, deps: Vec<LockKey>) -> (u:
        UnitLock)
        ensures
            u.key_view() == key@,
            u@ == (UnitView { state, holders: holders as nat, deps: deps.deep_view() }),
    {
        UnitLock { key, state, holders, deps }
    }

    /// The parts of the record: key, state, holders and dependencies.
    pub(crate) fn dismantle(self) -> (parts: (LockKey, UnitState, u64, Vec<LockKey>))
        ensures
            parts.0@ == self.key_view(),
            parts.1 == self@.state,
            parts.2 == self@.holders,
            parts.3.deep_view() == self@.deps,
    {
        (self.key, self.state, self.holders, self.deps)
    }

    /// A copy of the record.
    pub fn duplicate(&self) -> (r: UnitLock)
        ensures
            r.key_view() == self.key_view(),
            r@ == self@,
    {
        let mut deps: Vec<LockKey> = Vec::new();
        let mut i: usize = 0;
        while i < self.deps.len()
            invariant
                i <= self.deps.len(),
                deps.deep_view() =~= self.deps.deep_view().take(i as int),
            decreases self.deps.len() - i,
        {
            let ghost had = deps.deep_view();
            let key = self.deps[i].clone();
            assert(key@ == self.deps.deep_view()[i as int]);
            deps.push(key);
            assert(deps.deep_view() =~= had.push(key@));
            i += 1;
        }
        assert(self.deps.deep_view().take(i as int) =~= self.deps.deep_view());
        UnitLock { key: self.key.clone(), state: self.state, holders: self.holders, deps }
    }

    /// The key of the unit.
    pub fn key(&self) -> (k: &LockKey)
        ensures
            k@ == self.key_view(),
    {
        &self.key
    }

    /// The two lock files of the unit.
    pub fn location(&self) -> (l: UnitLockLocation)
        ensures
            l.active_build@ == self.key_view() + crate::key::active_build_name(),
            l.share@ == self.key_view() + crate::key::share_name(),
    {
        UnitLockLocation::of(&self.key)
    }

    /// The state of the unit.
    pub fn state(&self) -> (s: UnitState)
        ensures
            s == self@.state,
    {
        self.state
    }

    /// The number of compilations in flight that hold the unit as a
    /// dependency.
    pub fn holders(&self) -> (n: u64)
        ensures
            n == self@.holders,
    {
        self.holders
    }

    /// Moves the unit to the state `to` and appends to `out` the file
    /// operations that carry the transition out. A state is reached from
    /// itself with nothing to do. Where the state table has no such
    /// transition the unit stays as it is and `false` is returned.
    pub fn advance(&mut self, to: UnitState, out: &mut Vec<LockRequest>) -> (moved: bool)
        ensures
            final(self).key_view() == old(self).key_view(),
            final(self)@.holders == old(self)@.holders,
            final(self)@.deps == old(self)@.deps,
            moved == (to == old(self)@.state || legal(old(self)@.state, to)),
            moved ==> final(self)@.state == to && final(out).deep_view() == old(out).deep_view()
                + tagged(old(self).key_view(), steps(old(self)@.state, to)),
            !moved ==> {
                &&& final(self)@.state == old(self)@.state
                &&& final(out).deep_view() == old(out).deep_view()
            },
    {
        if self.state == to {
            assert(steps(to, to) =~= Seq::empty());
            assert(out.deep_view() + tagged(self.key@, steps(to, to)) =~= out.deep_view());
            return true;
        }
        match self.state.transition(to) {
            Some(ops) => {
                push_requests(out, &self.key, &ops);
                self.state = to;
                true
            },
            None => false,
        }
    }
}

} // verus!
