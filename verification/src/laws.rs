//! What holds of the lock manager's operations whatever the registry they
//! start from.

use vstd::prelude::*;
use crate::deps::{
    ascending, lemma_ascending_pairs, lemma_need_entries, lemma_sorted_deps, need, sorted_deps,
};
use crate::error::LockError;
use crate::key::{tagged, DepView, RequestView};
use crate::model::{
    acquire_all, acquire_one, acquire_requests, dep_ready, dep_target, deps_in, deps_ready,
    fingerprint_model, holders_in, keys_of, lemma_acquire_frame,
    lemma_acquire_one_wf, lemma_release_one_wf, observe_model, own_released, registry_wf,
    release_all, release_model, release_one, rmeta_model, start_model, state_in,
    stay, Outcome, Registry, Verdict,
};
use crate::state::{
    legal, lemma_steps_reach_target, replay, steps, SharedKind, UnitState,
};
use crate::text::lex_lt;
use crate::unit::{unit_wf, UnitView};

verus! {

/// Whether the unit moved along the state table, or stayed where it was.
pub open spec fn follows_table(from: UnitState, to: UnitState) -> bool {
    from == to || legal(from, to)
}

/// Letting go of dependencies leaves the records of all other units as
/// they were.
pub proof fn lemma_release_frame(m: Registry, keys: Seq<Seq<char>>, k: Seq<char>)
    requires
        !keys.contains(k),
    ensures
        release_all(m, keys).contains_key(k) == m.contains_key(k),
        m.contains_key(k) ==> release_all(m, keys)[k] == m[k],
    decreases keys.len(),
{
    if keys.len() > 0 {
        let front = keys.drop_last();
        assert forall|j: int| 0 <= j < front.len() implies front[j] != k by {
            assert(keys[j] == front[j]);
        }
        lemma_release_frame(m, front, k);
        assert(keys.last() == keys[keys.len() - 1]);
    }
}

/// Letting go of dependencies, each listed once, lowers the count of
/// holders of each by one, and takes the record of each that was only read
/// and had no other holder. A dependency moves along the state table or
/// stays where it is.
pub proof fn lemma_release_listed(m: Registry, keys: Seq<Seq<char>>, k: Seq<char>)
    requires
        registry_wf(m),
        keys.no_duplicates(),
        keys.contains(k),
    ensures
        registry_wf(release_all(m, keys)),
        state_in(release_all(m, keys), k) == state_in(release_one(m, k), k),
        holders_in(release_all(m, keys), k) == holders_in(release_one(m, k), k),
        follows_table(state_in(m, k), state_in(release_all(m, keys), k)),
    decreases keys.len(),
{
    let front = keys.drop_last();
    let last = keys.last();
    lemma_release_all_wf(m, front);
    lemma_release_one_wf(release_all(m, front), last);
    if last == k {
        assert(!front.contains(k)) by {
            if front.contains(k) {
                let j = choose|j: int| 0 <= j < front.len() && front[j] == k;
                assert(keys[j] == k && keys[keys.len() - 1] == k);
            }
        }
        lemma_release_frame(m, front, k);
        if m.contains_key(k) {
            assert(unit_wf(k, m[k]));
        }
    } else {
        assert(front.contains(k)) by {
            let j = choose|j: int| 0 <= j < keys.len() && keys[j] == k;
            assert(front[j] == k);
        }
        assert(front.no_duplicates());
        lemma_release_listed(m, front, k);
    }
}

/// Letting go of dependencies leaves every record well formed.
pub proof fn lemma_release_all_wf(m: Registry, keys: Seq<Seq<char>>)
    requires
        registry_wf(m),
    ensures
        registry_wf(release_all(m, keys)),
    decreases keys.len(),
{
    if keys.len() > 0 {
        lemma_release_all_wf(m, keys.drop_last());
        lemma_release_one_wf(release_all(m, keys.drop_last()), keys.last());
    }
}

/// Taking dependencies that are ready, each listed once, brings each to
/// the state that serves its consumer and counts one more holder of it.
pub proof fn lemma_acquire_listed(m: Registry, deps: Seq<DepView>, j: int)
    requires
        registry_wf(m),
        ascending(deps),
        deps_ready(m, deps),
        0 <= j < deps.len(),
    ensures
        registry_wf(acquire_all(m, deps)),
        acquire_all(m, deps).contains_key(deps[j].key),
        acquire_all(m, deps)[deps[j].key] == acquire_one(m, deps[j])[deps[j].key],
    decreases deps.len(),
{
    let front = deps.drop_last();
    let last = deps.last();
    lemma_ascending_front(deps);
    assert forall|i: int| 0 <= i < front.len() implies dep_ready(m, #[trigger] front[i]) by {
        assert(front[i] == deps[i]);
    }
    lemma_acquire_all_wf(m, front);
    assert forall|i: int| 0 <= i < front.len() implies front[i].key != last.key by {
        lemma_ascending_pairs(deps, i, deps.len() - 1);
    }
    lemma_acquire_frame(m, front, last.key);
    assert(dep_ready(m, deps[deps.len() - 1]));
    lemma_acquire_one_wf(acquire_all(m, front), last);
    if j < deps.len() - 1 {
        lemma_acquire_listed(m, front, j);
        lemma_ascending_pairs(deps, j, deps.len() - 1);
    }
}

/// An ascending list without its last entry ascends.
pub proof fn lemma_ascending_front(s: Seq<DepView>)
    requires
        ascending(s),
        s.len() > 0,
    ensures
        ascending(s.drop_last()),
    decreases s.len(),
{
    if s.len() > 2 {
        lemma_ascending_front(s.drop_first());
        assert(s.drop_last().drop_first() =~= s.drop_first().drop_last());
        assert(s.drop_last()[0] == s[0] && s.drop_last()[1] == s[1]);
    }
}

/// Taking dependencies that are ready leaves every record well formed.
pub proof fn lemma_acquire_all_wf(m: Registry, deps: Seq<DepView>)
    requires
        registry_wf(m),
        ascending(deps),
        deps_ready(m, deps),
    ensures
        registry_wf(acquire_all(m, deps)),
    decreases deps.len(),
{
    if deps.len() > 0 {
        let front = deps.drop_last();
        let last = deps.last();
        lemma_ascending_front(deps);
        assert forall|i: int| 0 <= i < front.len() implies dep_ready(m, #[trigger] front[i]) by {
            assert(front[i] == deps[i]);
        }
        lemma_acquire_all_wf(m, front);
        assert forall|i: int| 0 <= i < front.len() implies front[i].key != last.key by {
            lemma_ascending_pairs(deps, i, deps.len() - 1);
        }
        lemma_acquire_frame(m, front, last.key);
        assert(dep_ready(m, deps[deps.len() - 1]));
        lemma_acquire_one_wf(acquire_all(m, front), last);
    }
}

/// In an ascending list the entry of a unit says what the list asks for
/// it.
pub proof fn lemma_need_ascending(s: Seq<DepView>, j: int)
    requires
        ascending(s),
        0 <= j < s.len(),
    ensures
        need(s, s[j].key) == Some(s[j].kind),
    decreases s.len(),
{
    let rest = s.drop_first();
    if j == 0 {
        lemma_need_entries(rest, s[0].key);
        if need(rest, s[0].key) is Some {
            let i = choose|i: int| 0 <= i < rest.len() && rest[i].key == s[0].key;
            lemma_ascending_pairs(s, 0, i + 1);
        }
    } else {
        lemma_need_ascending(rest, j - 1);
        lemma_ascending_pairs(s, 0, j);
    }
}

/// Started compilations hold what they asked for: when `start_compiling`
/// is granted, the unit is in `CompilingRmeta`, and every unit that the
/// list names is in a state that serves the strongest kind asked for it,
/// with one more holder than before. All other units are as they were.
pub proof fn lemma_started(m: Registry, unit: Seq<char>, deps: Seq<DepView>, k: Seq<char>)
    requires
        registry_wf(m),
        start_model(m, unit, deps).verdict is Granted,
    ensures
        registry_wf(start_model(m, unit, deps).registry),
        state_in(start_model(m, unit, deps).registry, unit) == UnitState::CompilingRmeta,
        need(deps, k) matches Some(kind) ==> {
            let after = start_model(m, unit, deps).registry;
            &&& k != unit
            &&& state_in(after, k).covers(kind)
            &&& Some(state_in(after, k)) == dep_target(state_in(m, k), kind)
            &&& holders_in(after, k) == holders_in(m, k) + 1
            &&& deps_in(after, k) == deps_in(m, k)
        },
        need(deps, k) is None && k != unit ==> {
            let after = start_model(m, unit, deps).registry;
            &&& after.contains_key(k) == m.contains_key(k)
            &&& m.contains_key(k) ==> after[k] == m[k]
        },
{
    let sorted = sorted_deps(deps);
    let own = m.insert(
        unit,
        UnitView {
            state: UnitState::CompilingRmeta,
            holders: holders_in(m, unit),
            deps: keys_of(sorted),
        },
    );
    let after = acquire_all(own, sorted);
    lemma_own_record(m, unit, deps);
    lemma_acquire_all_wf(own, sorted);
    lemma_sorted_deps(deps, k);
    lemma_sorted_deps(deps, unit);
    lemma_need_entries(sorted, k);
    lemma_need_entries(sorted, unit);
    lemma_acquire_frame(own, sorted, unit);
    if need(deps, k) is Some {
        let j = choose|j: int| 0 <= j < sorted.len() && sorted[j].key == k;
        lemma_need_ascending(sorted, j);
        lemma_acquire_listed(own, sorted, j);
        assert(dep_ready(own, sorted[j]));
    } else if k != unit {
        lemma_acquire_frame(own, sorted, k);
    }
}

/// The record of a unit whose compilation starts is well formed, and so is
/// the registry that holds it; the dependencies are as ready as before.
proof fn lemma_own_record(m: Registry, unit: Seq<char>, deps: Seq<DepView>)
    requires
        registry_wf(m),
        start_model(m, unit, deps).verdict is Granted,
    ensures
        ({
            let sorted = sorted_deps(deps);
            let own = m.insert(
                unit,
                UnitView {
                    state: UnitState::CompilingRmeta,
                    holders: holders_in(m, unit),
                    deps: keys_of(sorted),
                },
            );
            &&& registry_wf(own)
            &&& ascending(sorted)
            &&& deps_ready(own, sorted)
            &&& !keys_of(sorted).contains(unit)
            &&& keys_of(sorted).no_duplicates()
            &&& forall|j: int| 0 <= j < sorted.len() ==> (#[trigger] sorted[j]).key != unit
        }),
{
    let sorted = sorted_deps(deps);
    let keys = keys_of(sorted);
    let own = m.insert(
        unit,
        UnitView { state: UnitState::CompilingRmeta, holders: holders_in(m, unit), deps: keys },
    );
    lemma_sorted_deps(deps, unit);
    lemma_need_entries(sorted, unit);
    assert(m.contains_key(unit));
    assert(unit_wf(unit, m[unit]));
    assert forall|a: int, b: int| 0 <= a < b < keys.len() implies lex_lt(keys[a], keys[b]) by {
        lemma_ascending_pairs(sorted, a, b);
    }
    assert forall|a: int, b: int|
        0 <= a < keys.len() && 0 <= b < keys.len() && a != b implies keys[a] != keys[b] by {
        if a < b {
            lemma_ascending_pairs(sorted, a, b);
        } else {
            lemma_ascending_pairs(sorted, b, a);
        }
    }
    assert forall|j: int| 0 <= j < sorted.len() implies (#[trigger] sorted[j]).key != unit by {}
    assert(!keys.contains(unit)) by {
        if keys.contains(unit) {
            let j = choose|j: int| 0 <= j < keys.len() && keys[j] == unit;
            assert(sorted[j].key == unit);
        }
    }
    assert forall|x: Seq<char>| #[trigger] own.contains_key(x) implies unit_wf(x, own[x]) by {
        if x != unit {
            assert(m.contains_key(x));
        }
    }
    assert forall|j: int| 0 <= j < sorted.len() implies dep_ready(own, #[trigger] sorted[j]) by {
        assert(dep_ready(m, sorted[j]));
    }
}

/// Locks are taken in one order by everybody: the operations that
/// `start_compiling` asks for after the unit's own are addressed to units
/// in ascending order of their keys.
pub proof fn lemma_acquire_order(m: Registry, deps: Seq<DepView>, a: int, b: int)
    requires
        ascending(deps),
        0 <= a <= b < acquire_requests(m, deps).len(),
    ensures
        acquire_requests(m, deps)[a].key == acquire_requests(m, deps)[b].key || lex_lt(
            acquire_requests(m, deps)[a].key,
            acquire_requests(m, deps)[b].key,
        ),
        exists|j: int| 0 <= j < deps.len() && deps[j].key == acquire_requests(m, deps)[b].key,
    decreases deps.len(),
{
    if deps.len() > 0 {
        let front = deps.drop_last();
        let last = deps.last();
        let head = acquire_requests(m, front);
        lemma_ascending_front(deps);
        if b < head.len() {
            lemma_acquire_order(m, front, a, b);
            let j = choose|j: int| 0 <= j < front.len() && front[j].key == head[b].key;
            assert(deps[j].key == head[b].key);
        } else {
            assert(acquire_requests(m, deps)[b].key == last.key);
            assert(deps[deps.len() - 1].key == last.key);
            if a < head.len() {
                lemma_acquire_order(m, front, a, a);
                let j = choose|j: int| 0 <= j < front.len() && front[j].key == head[a].key;
                lemma_ascending_pairs(deps, j, deps.len() - 1);
            }
        }
    }
}

/// The first operation that a granted `start_compiling` asks for is the
/// unit's own exclusive lock on `share`.
pub proof fn lemma_own_lock_first(m: Registry, unit: Seq<char>, deps: Seq<DepView>)
    requires
        start_model(m, unit, deps).verdict is Granted,
    ensures
        start_model(m, unit, deps).requests.len() >= 1,
        start_model(m, unit, deps).requests[0] == (RequestView {
            key: unit,
            step: crate::state::FileOp {
                file: crate::state::LockFile::Share,
                op: crate::state::LockOp::LockExclusive,
            },
        }),
{
    let own_steps = steps(UnitState::ReadFingerprint, UnitState::CompilingRmeta);
    assert(own_steps.len() == 1);
    assert(tagged(unit, own_steps)[0].key == unit);
}

/// Taking the fingerprint lock twice is taking it once: after a granted
/// call, a second call is granted too, changes nothing and asks for
/// nothing.
pub proof fn lemma_fingerprint_twice(m: Registry, k: Seq<char>)
    requires
        fingerprint_model(m, k).verdict is Granted,
    ensures
        fingerprint_model(fingerprint_model(m, k).registry, k) == stay(
            fingerprint_model(m, k).registry,
            Verdict::Granted,
        ),
{
}

/// Observing a dependency twice is observing it once: after a granted
/// call, a second call for the same kind is granted too, changes nothing
/// and asks for nothing.
pub proof fn lemma_observe_twice(m: Registry, k: Seq<char>, kind: SharedKind)
    requires
        observe_model(m, k, kind).verdict is Granted,
    ensures
        observe_model(observe_model(m, k, kind).registry, k, kind).verdict is Granted,
        observe_model(observe_model(m, k, kind).registry, k, kind).registry == observe_model(
            m,
            k,
            kind,
        ).registry,
        observe_model(observe_model(m, k, kind).registry, k, kind).requests
            == Seq::<RequestView>::empty(),
{
    let once = observe_model(m, k, kind).registry;
    let twice = observe_model(once, k, kind);
    assert(twice.registry =~= once);
    assert(twice.requests =~= Seq::<RequestView>::empty());
}

/// A whole compilation leaves no trace on its unit: after
/// `start_compiling`, `rmeta_produced` and `release`, each granted in
/// turn, the unit holds nothing.
pub proof fn lemma_compile_cycle(m: Registry, unit: Seq<char>, deps: Seq<DepView>)
    requires
        registry_wf(m),
        start_model(m, unit, deps).verdict is Granted,
    ensures
        ({
            let started = start_model(m, unit, deps).registry;
            let produced = rmeta_model(started, unit);
            let released = release_model(produced.registry, unit);
            &&& produced.verdict is Granted
            &&& state_in(produced.registry, unit) == UnitState::CompilingRlib
            &&& released.verdict is Granted
            &&& state_in(released.registry, unit) == UnitState::Unlocked
        }),
{
    let sorted = sorted_deps(deps);
    let started = start_model(m, unit, deps).registry;
    lemma_started(m, unit, deps, unit);
    lemma_own_record(m, unit, deps);
    let own = m.insert(
        unit,
        UnitView {
            state: UnitState::CompilingRmeta,
            holders: holders_in(m, unit),
            deps: keys_of(sorted),
        },
    );
    lemma_acquire_frame(own, sorted, unit);
    assert(unit_wf(unit, m[unit]));
    assert(holders_in(started, unit) == 0);
    let produced = rmeta_model(started, unit).registry;
    assert(deps_in(produced, unit) == keys_of(sorted));
    lemma_release_frame(produced.remove(unit), keys_of(sorted), unit);
}

/// Nothing is unlocked twice: after a granted `release`, a second
/// `release` of the same unit is refused as a violation of the state
/// table, changes nothing and asks for nothing.
pub proof fn lemma_release_twice(m: Registry, k: Seq<char>)
    requires
        registry_wf(m),
        release_model(m, k).verdict is Granted,
    ensures
        release_model(release_model(m, k).registry, k) == stay(
            release_model(m, k).registry,
            Verdict::Refused(LockError::StateViolation),
        ),
{
    lemma_own_released(m, k);
    lemma_release_frame(own_released(m, k), deps_in(m, k), k);
}

/// An operation that is not granted changes nothing and asks for nothing,
/// so a caller that is told to wait, or refused, finds every unit in the
/// state in which it was before the call.
pub proof fn lemma_unchanged_unless_granted(
    m: Registry,
    k: Seq<char>,
    kind: SharedKind,
    deps: Seq<DepView>,
)
    ensures
        !(fingerprint_model(m, k).verdict is Granted) ==> fingerprint_model(m, k).registry == m
            && fingerprint_model(m, k).requests.len() == 0,
        !(start_model(m, k, deps).verdict is Granted) ==> start_model(m, k, deps).registry == m
            && start_model(m, k, deps).requests.len() == 0,
        !(rmeta_model(m, k).verdict is Granted) ==> rmeta_model(m, k).registry == m && rmeta_model(
            m,
            k,
        ).requests.len() == 0,
        !(observe_model(m, k, kind).verdict is Granted) ==> observe_model(m, k, kind).registry == m
            && observe_model(m, k, kind).requests.len() == 0,
        !(release_model(m, k).verdict is Granted) ==> release_model(m, k).registry == m
            && release_model(m, k).requests.len() == 0,
{
}

/// The operations on one unit move that unit along the state table, or
/// leave it where it is, and leave all other units as they were.
pub proof fn lemma_single_unit_moves(m: Registry, k: Seq<char>, kind: SharedKind, x: Seq<char>)
    requires
        registry_wf(m),
    ensures
        follows_table(state_in(m, k), state_in(fingerprint_model(m, k).registry, k)),
        follows_table(state_in(m, k), state_in(rmeta_model(m, k).registry, k)),
        follows_table(state_in(m, k), state_in(observe_model(m, k, kind).registry, k)),
        x != k ==> {
            &&& state_in(fingerprint_model(m, k).registry, x) == state_in(m, x)
            &&& state_in(rmeta_model(m, k).registry, x) == state_in(m, x)
            &&& state_in(observe_model(m, k, kind).registry, x) == state_in(m, x)
        },
{
}

/// Starting a compilation moves every unit along the state table, or
/// leaves it where it is.
pub proof fn lemma_start_moves(m: Registry, unit: Seq<char>, deps: Seq<DepView>, x: Seq<char>)
    requires
        registry_wf(m),
    ensures
        follows_table(state_in(m, x), state_in(start_model(m, unit, deps).registry, x)),
{
    if start_model(m, unit, deps).verdict is Granted {
        lemma_started(m, unit, deps, x);
    }
}

/// When a release is granted, the registry without the unit's own locks
/// is well formed, and no dependency is let go of twice.
proof fn lemma_own_released(m: Registry, unit: Seq<char>)
    requires
        registry_wf(m),
        release_model(m, unit).verdict is Granted,
    ensures
        registry_wf(own_released(m, unit)),
        deps_in(m, unit).no_duplicates(),
        !deps_in(m, unit).contains(unit),
        release_model(m, unit).registry == release_all(own_released(m, unit), deps_in(m, unit)),
{
    assert(m.contains_key(unit));
    assert(unit_wf(unit, m[unit]));
    let keys = deps_in(m, unit);
    let own = own_released(m, unit);
    assert forall|y: Seq<char>| #[trigger] own.contains_key(y) implies unit_wf(y, own[y]) by {
        if y != unit {
            assert(m.contains_key(y));
        }
    }
    assert forall|a: int, b: int| 0 <= a < keys.len() && 0 <= b < keys.len() && a
        != b implies keys[a] != keys[b] by {
        if a < b {
            crate::text::lemma_lex_asymmetric(keys[a], keys[b]);
        } else {
            crate::text::lemma_lex_asymmetric(keys[b], keys[a]);
        }
    }
}

/// Releasing a unit moves every unit along the state table, or leaves it
/// where it is: the dependencies that go with it are given up or stay as
/// they are.
pub proof fn lemma_release_moves(m: Registry, unit: Seq<char>, x: Seq<char>)
    requires
        registry_wf(m),
    ensures
        registry_wf(release_model(m, unit).registry),
        follows_table(state_in(m, x), state_in(release_model(m, unit).registry, x)),
{
    if release_model(m, unit).verdict is Granted {
        lemma_own_released(m, unit);
        let keys = deps_in(m, unit);
        let own = own_released(m, unit);
        assert(unit_wf(unit, m[unit]));
        lemma_release_all_wf(own, keys);
        if keys.contains(x) {
            lemma_release_listed(own, keys, x);
        } else {
            lemma_release_frame(own, keys, x);
        }
    }
}

/// The operations on one unit leave every record well formed: whenever the
/// manager is at rest, a unit that compilations in flight hold can be
/// read.
pub proof fn lemma_single_unit_keeps_wf(m: Registry, k: Seq<char>, kind: SharedKind)
    requires
        registry_wf(m),
    ensures
        registry_wf(fingerprint_model(m, k).registry),
        registry_wf(rmeta_model(m, k).registry),
        registry_wf(observe_model(m, k, kind).registry),
{
    if m.contains_key(k) {
        assert(unit_wf(k, m[k]));
    }
    lemma_moved_wf(m, k, fingerprint_model(m, k).registry);
    lemma_moved_wf(m, k, rmeta_model(m, k).registry);
    lemma_moved_wf(m, k, observe_model(m, k, kind).registry);
}

/// A registry that differs from a well-formed one in the record of one
/// unit, itself well formed, is well formed.
proof fn lemma_moved_wf(m: Registry, k: Seq<char>, after: Registry)
    requires
        registry_wf(m),
        after.contains_key(k) ==> unit_wf(k, after[k]),
        forall|x: Seq<char>| x != k && #[trigger] after.contains_key(x) ==> m.contains_key(x)
            && after[x] == m[x],
    ensures
        registry_wf(after),
{
    assert forall|x: Seq<char>| #[trigger] after.contains_key(x) implies unit_wf(x, after[x]) by {
        if x != k {
            assert(m.contains_key(x));
        }
    }
}

/// What an operation on one unit asks for is what carries the unit from
/// the state it was in to the state it is in: made in order on files held
/// as the state before says, the operations apply one after the other and
/// leave the files held as the state after says.
pub proof fn lemma_single_unit_requests(m: Registry, k: Seq<char>, kind: SharedKind)
    requires
        registry_wf(m),
    ensures
        reaches(m, k, fingerprint_model(m, k)),
        reaches(m, k, rmeta_model(m, k)),
        reaches(m, k, observe_model(m, k, kind)),
{
    lemma_reaches(m, k, fingerprint_model(m, k));
    lemma_reaches(m, k, rmeta_model(m, k));
    lemma_reaches(m, k, observe_model(m, k, kind));
}

/// Whether the requests of the outcome are the steps from the state of `k`
/// before to its state after, and lead from the modes of the one to the
/// modes of the other.
pub open spec fn reaches(m: Registry, k: Seq<char>, o: Outcome) -> bool {
    let before = state_in(m, k);
    let after = state_in(o.registry, k);
    &&& o.requests == tagged(k, steps(before, after))
    &&& replay(before.modes(), steps(before, after)) == Some(after.modes())
}

/// The outcome of a step of one unit along the state table reaches the
/// state it says.
proof fn lemma_reaches(m: Registry, k: Seq<char>, o: Outcome)
    requires
        follows_table(state_in(m, k), state_in(o.registry, k)),
        o.requests == tagged(k, steps(state_in(m, k), state_in(o.registry, k))) || (o.requests
            == Seq::<RequestView>::empty() && state_in(m, k) == state_in(o.registry, k)),
    ensures
        reaches(m, k, o),
{
    let before = state_in(m, k);
    let after = state_in(o.registry, k);
    if before == after {
        assert(steps(before, after) =~= Seq::empty());
        assert(tagged(k, steps(before, after)) =~= Seq::<RequestView>::empty());
    } else {
        lemma_steps_reach_target(before, after);
    }
}

/// A unit that holds its final artifact for readers keeps it for as long
/// as it holds anything: no operation takes it from `SharedFull` to any
/// state but `Unlocked`.
pub proof fn lemma_full_is_kept(
    m: Registry,
    k: Seq<char>,
    kind: SharedKind,
    unit: Seq<char>,
    deps: Seq<DepView>,
)
    requires
        registry_wf(m),
        state_in(m, k) == UnitState::SharedFull,
    ensures
        state_in(fingerprint_model(m, unit).registry, k) == UnitState::SharedFull,
        state_in(rmeta_model(m, unit).registry, k) == UnitState::SharedFull,
        state_in(observe_model(m, unit, kind).registry, k) == UnitState::SharedFull,
        state_in(start_model(m, unit, deps).registry, k) == UnitState::SharedFull,
        state_in(release_model(m, unit).registry, k) == UnitState::SharedFull || state_in(
            release_model(m, unit).registry,
            k,
        ) == UnitState::Unlocked,
{
    if start_model(m, unit, deps).verdict is Granted {
        lemma_started(m, unit, deps, k);
    }
    if release_model(m, unit).verdict is Granted && k != unit {
        lemma_own_released(m, unit);
        let keys = deps_in(m, unit);
        let own = own_released(m, unit);
        if keys.contains(k) {
            lemma_release_listed(own, keys, k);
        } else {
            lemma_release_frame(own, keys, k);
        }
    }
}

/// A stall ends: the start of a compilation is granted as soon as the unit
/// holds its fingerprint lock and, for every dependency, no writer stands
/// in the way of the kind of hold that is asked for. What else the
/// registry holds does not matter, so a caller that was told to wait has
/// only the writers of its own dependencies to wait for.
pub proof fn lemma_start_is_granted(m: Registry, unit: Seq<char>, deps: Seq<DepView>)
    requires
        state_in(m, unit) == UnitState::ReadFingerprint,
        need(deps, unit) is None,
        forall|k: Seq<char>|
            (#[trigger] need(deps, k)) matches Some(kind) ==> dep_target(state_in(m, k), kind)
                is Some && holders_in(m, k) < u64::MAX,
    ensures
        start_model(m, unit, deps).verdict is Granted,
{
    let sorted = sorted_deps(deps);
    assert forall|j: int| 0 <= j < sorted.len() implies dep_ready(m, #[trigger] sorted[j]) by {
        lemma_sorted_deps(deps, sorted[j].key);
        lemma_need_ascending(sorted, j);
        assert(need(deps, sorted[j].key) == Some(sorted[j].kind));
    }
}

} // verus!
