//! Unit identities, the lock files that belong to them, and the requests
//! that the coordinator hands to whoever owns the file handles.

use vstd::prelude::*;
use vstd::string::StringExecFns;
use crate::state::{FileOp, LockFile, LockOp, SharedKind};
use crate::text::{lex_lt, str_eq, str_lt};

verus! {

/// The identity of a build unit: the path of its lock directory. Two units
/// with the same key write to the same place and share their lock state.
#[derive(Debug, Hash)]
pub struct LockKey {
    path: String,
}

impl View for LockKey {
    type V = Seq<char>;

    closed spec fn view(&self) -> Seq<char> {
        self.path@
    }
}

impl DeepView for LockKey {
    type V = Seq<char>;

    open spec fn deep_view(&self) -> Seq<char> {
        self@
    }
}

impl PartialEq for LockKey {
    fn eq(&self, other: &LockKey) -> (r: bool) {
        self.same(other)
    }
}

impl Eq for LockKey {

}

impl vstd::std_specs::cmp::PartialEqSpecImpl for LockKey {
    open spec fn obeys_eq_spec() -> bool {
        true
    }

    open spec fn eq_spec(&self, other: &LockKey) -> bool {
        self@ == other@
    }
}

impl Clone for LockKey {
    fn clone(&self) -> (r: Self)
        ensures
            r@ == self@,
    {
        LockKey { path: self.path.clone() }
    }
}

impl LockKey {
    /// The key of the unit whose lock files live in `lock_dir`.
    pub fn from_unit(lock_dir: &str) -> (k: LockKey)
        ensures
            k@ == lock_dir@,
    {
        LockKey { path: String::from_str(lock_dir) }
    }

    /// The path of the lock directory.
    pub fn as_str(&self) -> (s: &str)
        ensures
            s@ == self@,
    {
        self.path.as_str()
    }

    /// The path of the lock directory, as it is shown in messages.
    pub fn to_string(&self) -> (s: String)
        ensures
            s@ == self@,
    {
        self.path.clone()
    }

    /// Whether both keys name the same unit.
    pub fn same(&self, other: &LockKey) -> (r: bool)
        ensures
            r == (self@ == other@),
    {
        str_eq(self.path.as_str(), other.path.as_str())
    }

    /// Whether this key comes before `other` in the order in which locks
    /// are taken.
    pub fn before(&self, other: &LockKey) -> (r: bool)
        ensures
            r == lex_lt(self@, other@),
    {
        str_lt(self.path.as_str(), other.path.as_str())
    }
}

/// The characters of the name of the lock file that gates writers of the
/// working outputs.
pub open spec fn active_build_name() -> Seq<char> {
    "/active_build.lock"@
}

/// The characters of the name of the lock file that gates the final
/// artifact.
pub open spec fn share_name() -> Seq<char> {
    "/share.lock"@
}

/// The paths of the two lock files of one unit. Both live in the unit's
/// lock directory.
#[derive(Debug)]
pub struct UnitLockLocation {
    pub active_build: String,
    pub share: String,
}

impl UnitLockLocation {
    /// The lock files of the unit `key`.
    pub fn of(key: &LockKey) -> (l: UnitLockLocation)
        ensures
            l.active_build@ == key@ + active_build_name(),
            l.share@ == key@ + share_name(),
    {
        UnitLockLocation {
            active_build: key.to_string().concat("/active_build.lock"),
            share: key.to_string().concat("/share.lock"),
        }
    }

    /// The path of one of the two files.
    pub fn path(&self, file: LockFile) -> (p: &str)
        ensures
            p@ == match file {
                LockFile::ActiveBuild => self.active_build@,
                LockFile::Share => self.share@,
            },
    {
        match file {
            LockFile::ActiveBuild => self.active_build.as_str(),
            LockFile::Share => self.share.as_str(),
        }
    }
}

/// A dependency and how much of it the consumer needs.
#[derive(Debug)]
pub struct Dep {
    pub key: LockKey,
    pub kind: SharedKind,
}

/// What a `Dep` stands for.
pub struct DepView {
    pub key: Seq<char>,
    pub kind: SharedKind,
}

impl View for Dep {
    type V = DepView;

    open spec fn view(&self) -> DepView {
        DepView { key: self.key@, kind: self.kind }
    }
}

impl DeepView for Dep {
    type V = DepView;

    open spec fn deep_view(&self) -> DepView {
        self@
    }
}

impl Clone for Dep {
    fn clone(&self) -> (r: Self)
        ensures
            r@ == self@,
    {
        Dep { key: self.key.clone(), kind: self.kind }
    }
}

/// A unit about to be compiled, with the units that it links against.
#[derive(Debug)]
pub struct CompilationLockRef {
    pub unit: LockKey,
    pub deps: Vec<Dep>,
}

/// One operation on one lock file of one unit, to be carried out on the
/// file itself.
#[derive(Debug)]
pub struct LockRequest {
    pub key: LockKey,
    pub file: LockFile,
    pub op: LockOp,
}

/// What a `LockRequest` stands for.
pub struct RequestView {
    pub key: Seq<char>,
    pub step: FileOp,
}

impl View for LockRequest {
    type V = RequestView;

    open spec fn view(&self) -> RequestView {
        RequestView { key: self.key@, step: FileOp { file: self.file, op: self.op } }
    }
}

impl DeepView for LockRequest {
    type V = RequestView;

    open spec fn deep_view(&self) -> RequestView {
        self@
    }
}

/// The file operations `ops`, each addressed to the unit `key`.
pub open spec fn tagged(key: Seq<char>, ops: Seq<FileOp>) -> Seq<RequestView> {
    ops.map_values(|step: FileOp| RequestView { key, step })
}

/// Appends to `out` the file operations `ops`, each addressed to `key`.
pub fn push_requests(out: &mut Vec<LockRequest>, key: &LockKey, ops: &Vec<FileOp>)
    ensures
        final(out).deep_view() == old(out).deep_view() + tagged(key@, ops@),
{
    let mut i: usize = 0;
    assert(out.deep_view() =~= old(out).deep_view() + tagged(key@, ops@.take(0)));
    while i < ops.len()
        invariant
            i <= ops.len(),
            out.deep_view() == old(out).deep_view() + tagged(key@, ops@.take(i as int)),
        decreases ops.len() - i,
    {
        let ghost before = out.deep_view();
        let request = LockRequest { key: key.clone(), file: ops[i].file, op: ops[i].op };
        assert(request@ == RequestView { key: key@, step: ops@[i as int] });
        out.push(request);
        assert(out.deep_view() =~= before.push(request@));
        assert(ops@.take(i + 1) =~= ops@.take(i as int).push(ops@[i as int]));
        i += 1;
        assert(out.deep_view() =~= old(out).deep_view() + tagged(key@, ops@.take(i as int)));
    }
    assert(ops@.take(i as int) =~= ops@);
}

/// The requests that take back the first `done` of `requests`, in reverse
/// order: an unlock for each lock that was taken. A downgrade and an
/// unlock are not taken back.
pub open spec fn undone(requests: Seq<RequestView>, done: int) -> Seq<RequestView>
    decreases done,
{
    if done <= 0 || done > requests.len() {
        Seq::empty()
    } else {
        let r = requests[done - 1];
        let rest = undone(requests, done - 1);
        if r.step.op == LockOp::LockShared || r.step.op == LockOp::LockExclusive {
            seq![RequestView { key: r.key, step: FileOp { file: r.step.file, op: LockOp::Unlock } }]
                + rest
        } else {
            rest
        }
    }
}

/// The requests that give back what the first `done` of `requests` took,
/// last taken first: what is to be carried out when the request at place
/// `done` failed, so that the call leaves no lock behind.
pub fn rollback(requests: &Vec<LockRequest>, done: usize) -> (back: Vec<LockRequest>)
    requires
        done <= requests.len(),
    ensures
        back.deep_view() == undone(requests.deep_view(), done as int),
{
    let ghost all = requests.deep_view();
    let mut back: Vec<LockRequest> = Vec::new();
    let mut n: usize = done;
    assert(back.deep_view() + undone(all, n as int) =~= undone(all, done as int));
    while n > 0
        invariant
            n <= done <= requests.len(),
            all == requests.deep_view(),
            back.deep_view() + undone(all, n as int) == undone(all, done as int),
        decreases n,
    {
        let r = &requests[n - 1];
        let ghost before = back.deep_view();
        assert(all[n - 1] == r@);
        let taken = match r.op {
            LockOp::LockShared | LockOp::LockExclusive => true,
            _ => false,
        };
        if taken {
            let unlock = LockRequest { key: r.key.clone(), file: r.file, op: LockOp::Unlock };
            back.push(unlock);
            assert(back.deep_view() =~= before.push(unlock@));
            assert(before.push(unlock@) + undone(all, n - 1) =~= before + (seq![unlock@] + undone(
                all,
                n - 1,
            )));
        }
        n -= 1;
    }
    assert(back.deep_view() + Seq::<RequestView>::empty() =~= back.deep_view());
    back
}

} // verus!
