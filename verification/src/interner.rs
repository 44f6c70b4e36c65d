//! The records of all lock files that the process has met, by path.
//!
//! Whoever needs a lock file asks for its record by path and gets a handle.
//! The same path gives the same handle for as long as the process lives:
//! records are made on first use and never taken away.

use vstd::prelude::*;
use crate::error::LockError;
use crate::refcount::{applied, LockStep, RefCountedLock};
use crate::state::LockOp;
use crate::text::str_eq;

verus! {

/// The records of the lock files, in the order in which they were first
/// asked for.
#[derive(Debug)]
pub struct LockInterner {
    paths: Vec<String>,
    locks: Vec<RefCountedLock>,
}

/// A lock file and its record.
pub struct Interned {
    pub path: Seq<char>,
    pub lock: RefCountedLock,
}

impl View for LockInterner {
    type V = Seq<Interned>;

    closed spec fn view(&self) -> Seq<Interned> {
        Seq::new(
            self.paths@.len(),
            |i: int| Interned { path: self.paths@[i]@, lock: self.locks@[i] },
        )
    }
}

/// The handle of the record of `path`: its place among the records, or
/// their number where `path` has none yet.
pub open spec fn handle_of(records: Seq<Interned>, path: Seq<char>) -> int
    decreases records.len(),
{
    if records.len() == 0 {
        0
    } else if handle_of(records.drop_last(), path) < records.len() - 1 {
        handle_of(records.drop_last(), path)
    } else if records.last().path == path {
        records.len() - 1
    } else {
        records.len() as int
    }
}

/// The handle of a path is the first place at which the path stands, and
/// the number of records where it stands at none.
pub proof fn lemma_handle_of(records: Seq<Interned>, path: Seq<char>)
    ensures
        0 <= handle_of(records, path) <= records.len(),
        handle_of(records, path) < records.len() ==> records[handle_of(records, path)].path
            == path,
        forall|i: int| 0 <= i < handle_of(records, path) ==> (#[trigger] records[i]).path != path,
    decreases records.len(),
{
    if records.len() > 0 {
        lemma_handle_of(records.drop_last(), path);
        assert forall|i: int| 0 <= i < handle_of(records, path) implies (
        #[trigger] records[i]).path != path by {
            if i < records.len() - 1 {
                assert(records.drop_last()[i] == records[i]);
            }
        }
    }
}

impl LockInterner {
    /// Every path has one record, and every record is well formed.
    pub closed spec fn wf(&self) -> bool {
        &&& self.paths@.len() == self.locks@.len()
        &&& forall|i: int, j: int|
            0 <= i < j < self.paths@.len() ==> self.paths@[i]@ != self.paths@[j]@
        &&& forall|i: int| 0 <= i < self.locks@.len() ==> (#[trigger] self.locks@[i]).wf()
    }

    /// What a well-formed interner holds: no path twice, and only
    /// well-formed records.
    pub proof fn lemma_wf(&self)
        requires
            self.wf(),
        ensures
            forall|i: int, j: int|
                0 <= i < j < self@.len() ==> (#[trigger] self@[i]).path != (#[trigger] self@[j]).path,
            forall|i: int| 0 <= i < self@.len() ==> (#[trigger] self@[i]).lock.wf(),
    {
    }

    /// An interner without records.
    pub fn new() -> (r: LockInterner)
        ensures
            r.wf(),
            r@.len() == 0,
    {
        LockInterner { paths: Vec::new(), locks: Vec::new() }
    }

    /// The number of records.
    pub fn len(&self) -> (n: usize)
        requires
            self.wf(),
        ensures
            n == self@.len(),
    {
        self.paths.len()
    }

    /// The handle of the record of `path`. The first call for a path makes
    /// the record of a file that nobody holds; every later call finds it
    /// and changes nothing.
    pub fn get_or_create(&mut self, path: &str) -> (handle: usize)
        requires
            old(self).wf(),
        ensures
            final(self).wf(),
            handle == handle_of(old(self)@, path@),
            handle < final(self)@.len(),
            final(self)@[handle as int].path == path@,
            handle < old(self)@.len() ==> final(self)@ == old(self)@,
            handle == old(self)@.len() ==> final(self)@ == old(self)@.push(
                Interned { path: path@, lock: final(self)@[handle as int].lock },
            ) && final(self)@[handle as int].lock.mode() == crate::state::LockMode::Unlocked,
    {
        let mut i: usize = 0;
        assert(self@.take(0) =~= Seq::<Interned>::empty());
        while i < self.paths.len()
            invariant
                self.wf(),
                *self == *old(self),
                i <= self.paths@.len(),
                handle_of(self@.take(i as int), path@) == i,
            decreases self.paths@.len() - i,
        {
            let ghost upto = self@.take(i + 1);
            assert(upto.drop_last() =~= self@.take(i as int));
            assert(upto.last() == self@[i as int]);
            if str_eq(self.paths[i].as_str(), path) {
                proof {
                    lemma_handle_stays(self@, i + 1, path@);
                }
                return i;
            }
            i += 1;
        }
        assert(self@.take(i as int) =~= self@);
        let fresh = RefCountedLock::new();
        let ghost before = self@;
        let ghost paths = self.paths@;
        proof {
            lemma_handle_of(before, path@);
            assert forall|j: int| 0 <= j < paths.len() implies (#[trigger] paths[j])@ != path@ by {
                assert(before[j].path == paths[j]@);
            }
        }
        self.paths.push(String::from_str(path));
        self.locks.push(fresh);
        assert(self@ =~= before.push(Interned { path: path@, lock: fresh }));
        i
    }

    /// The record behind a handle.
    pub fn lock(&self, handle: usize) -> (l: RefCountedLock)
        requires
            self.wf(),
            handle < self@.len(),
        ensures
            l == self@[handle as int].lock,
            l.wf(),
    {
        self.locks[handle]
    }

    /// Carries out `op` on the record behind `handle`, and leaves all other
    /// records as they are.
    pub fn apply(&mut self, handle: usize, op: LockOp) -> (answer: Result<LockStep, LockError>)
        requires
            old(self).wf(),
            handle < old(self)@.len(),
        ensures
            final(self).wf(),
            final(self)@.len() == old(self)@.len(),
            applied(old(self)@[handle as int].lock, op, final(self)@[handle as int].lock, answer),
            forall|i: int|
                0 <= i < old(self)@.len() ==> (#[trigger] final(self)@[i]).path == old(
                    self,
                )@[i].path && (i != handle ==> final(self)@[i].lock == old(self)@[i].lock),
    {
        let mut l = self.locks[handle];
        let answer = l.apply(op);
        self.locks.set(handle, l);
        answer
    }
}

/// A path that was found keeps its handle when more records follow.
proof fn lemma_handle_stays(records: Seq<Interned>, n: int, path: Seq<char>)
    requires
        0 <= n <= records.len(),
        handle_of(records.take(n), path) < n,
    ensures
        handle_of(records, path) == handle_of(records.take(n), path),
    decreases records.len() - n,
{
    if n < records.len() {
        let next = records.take(n + 1);
        assert(next.drop_last() =~= records.take(n));
        lemma_handle_stays(records, n + 1, path);
    } else {
        assert(records.take(n) =~= records);
    }
}

/// Asking for a path twice gives the same handle, and the second call
/// changes nothing.
pub proof fn lemma_get_or_create_twice(
    records: Seq<Interned>,
    path: Seq<char>,
    lock: RefCountedLock,
)
    ensures
        ({
            let h = handle_of(records, path);
            let after = if h < records.len() {
                records
            } else {
                records.push(Interned { path, lock })
            };
            handle_of(after, path) == h && h < after.len()
        }),
{
    lemma_handle_of(records, path);
    let h = handle_of(records, path);
    if h == records.len() {
        let after = records.push(Interned { path, lock });
        assert(after.drop_last() =~= records);
    }
}

} // verus!
