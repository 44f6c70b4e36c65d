//! The logical states of one build unit's pair of lock files, and the
//! table of transitions between them.
//!
//! Every unit has two lock files. `active_build` gates writers of the
//! working outputs (fingerprint, object files, metadata); `share` gates
//! readers and writers of the final artifact. A state names one row of the
//! table that says in which mode each of the two files is held.

use vstd::prelude::*;

verus! {

/// How one lock file is held.
#[derive(Clone, Copy, Debug, PartialEq, Eq, Structural)]
pub enum LockMode {
    Unlocked,
    Shared,
    Exclusive,
}

/// Which of a unit's two lock files is meant.
#[derive(Clone, Copy, Debug, PartialEq, Eq, Structural)]
pub enum LockFile {
    ActiveBuild,
    Share,
}

/// What is asked of one lock file.
#[derive(Clone, Copy, Debug, PartialEq, Eq, Structural)]
pub enum LockOp {
    LockShared,
    LockExclusive,
    /// Re-lock in shared mode a file that is held exclusively.
    Downgrade,
    Unlock,
}

/// One operation on one of a unit's two lock files.
#[derive(Clone, Copy, Debug, PartialEq, Eq, Structural)]
pub struct FileOp {
    pub file: LockFile,
    pub op: LockOp,
}

/// How much of a dependency a consumer needs: `Partial` covers the metadata
/// stage only, `Full` covers the final artifact too.
#[derive(Clone, Copy, Debug, PartialEq, Eq, Structural)]
pub enum SharedKind {
    Partial,
    Full,
}

/// The logical state of one unit.
#[derive(Clone, Copy, Debug, PartialEq, Eq, Structural)]
pub enum UnitState {
    /// No lock is held.
    Unlocked,
    /// Transient writer state: the fingerprint may be read and updated.
    ReadFingerprint,
    /// Building, nothing produced yet: both files exclusive.
    CompilingRmeta,
    /// Building, metadata on disk: readers of the metadata may proceed.
    CompilingRlib,
    /// The metadata may be read.
    SharedPartial,
    /// The final artifact may be read.
    SharedFull,
}

/// The modes of `active_build` and `share`, in that order.
pub struct Modes {
    pub active_build: LockMode,
    pub share: LockMode,
}

impl UnitState {
    /// The row of the state table: the mode in which each file is held.
    pub open spec fn modes(self) -> Modes {
        match self {
            UnitState::Unlocked => Modes {
                active_build: LockMode::Unlocked,
                share: LockMode::Unlocked,
            },
            UnitState::ReadFingerprint => Modes {
                active_build: LockMode::Exclusive,
                share: LockMode::Unlocked,
            },
            UnitState::CompilingRmeta => Modes {
                active_build: LockMode::Exclusive,
                share: LockMode::Exclusive,
            },
            UnitState::CompilingRlib => Modes {
                active_build: LockMode::Shared,
                share: LockMode::Exclusive,
            },
            UnitState::SharedPartial => Modes {
                active_build: LockMode::Shared,
                share: LockMode::Unlocked,
            },
            UnitState::SharedFull => Modes {
                active_build: LockMode::Shared,
                share: LockMode::Shared,
            },
        }
    }

    /// The state whose row holds this pair of modes, if there is one.
    pub open spec fn of_modes(m: Modes) -> Option<UnitState> {
        match (m.active_build, m.share) {
            (LockMode::Unlocked, LockMode::Unlocked) => Some(UnitState::Unlocked),
            (LockMode::Exclusive, LockMode::Unlocked) => Some(UnitState::ReadFingerprint),
            (LockMode::Exclusive, LockMode::Exclusive) => Some(UnitState::CompilingRmeta),
            (LockMode::Shared, LockMode::Exclusive) => Some(UnitState::CompilingRlib),
            (LockMode::Shared, LockMode::Unlocked) => Some(UnitState::SharedPartial),
            (LockMode::Shared, LockMode::Shared) => Some(UnitState::SharedFull),
            _ => None,
        }
    }

    /// Whether the state is one of the two reader states.
    pub open spec fn is_shared(self) -> bool {
        self == UnitState::SharedPartial || self == UnitState::SharedFull
    }

    /// Whether a reader that needs `kind` is served in this state.
    pub open spec fn covers(self, kind: SharedKind) -> bool {
        match kind {
            SharedKind::Partial => self.modes().active_build == LockMode::Shared,
            SharedKind::Full => self == UnitState::SharedFull,
        }
    }

    /// The mode in which `active_build` is held.
    pub fn active_build_mode(self) -> (m: LockMode)
        ensures
            m == self.modes().active_build,
    {
        match self {
            UnitState::Unlocked => LockMode::Unlocked,
            UnitState::ReadFingerprint | UnitState::CompilingRmeta => LockMode::Exclusive,
            _ => LockMode::Shared,
        }
    }

    /// The mode in which `share` is held.
    pub fn share_mode(self) -> (m: LockMode)
        ensures
            m == self.modes().share,
    {
        match self {
            UnitState::CompilingRmeta | UnitState::CompilingRlib => LockMode::Exclusive,
            UnitState::SharedFull => LockMode::Shared,
            _ => LockMode::Unlocked,
        }
    }

    /// The state that a pair of modes stands for; `None` for a pair that is
    /// no row of the table.
    pub fn from_modes(active_build: LockMode, share: LockMode) -> (r: Option<UnitState>)
        ensures
            r == UnitState::of_modes(Modes { active_build, share }),
    {
        match (active_build, share) {
            (LockMode::Unlocked, LockMode::Unlocked) => Some(UnitState::Unlocked),
            (LockMode::Exclusive, LockMode::Unlocked) => Some(UnitState::ReadFingerprint),
            (LockMode::Exclusive, LockMode::Exclusive) => Some(UnitState::CompilingRmeta),
            (LockMode::Shared, LockMode::Exclusive) => Some(UnitState::CompilingRlib),
            (LockMode::Shared, LockMode::Unlocked) => Some(UnitState::SharedPartial),
            (LockMode::Shared, LockMode::Shared) => Some(UnitState::SharedFull),
            _ => None,
        }
    }

    /// The file operations that carry out the transition from `self` to
    /// `to`, in the order in which they are made; `None` where the table has
    /// no such transition.
    pub fn transition(self, to: UnitState) -> (r: Option<Vec<FileOp>>)
        ensures
            r is Some <==> legal(self, to),
            r matches Some(ops) ==> ops@ == steps(self, to),
    {
        let ab_excl = FileOp { file: LockFile::ActiveBuild, op: LockOp::LockExclusive };
        let ab_shared = FileOp { file: LockFile::ActiveBuild, op: LockOp::LockShared };
        let ab_down = FileOp { file: LockFile::ActiveBuild, op: LockOp::Downgrade };
        let ab_unlock = FileOp { file: LockFile::ActiveBuild, op: LockOp::Unlock };
        let sh_excl = FileOp { file: LockFile::Share, op: LockOp::LockExclusive };
        let sh_shared = FileOp { file: LockFile::Share, op: LockOp::LockShared };
        let sh_unlock = FileOp { file: LockFile::Share, op: LockOp::Unlock };
        let mut ops: Vec<FileOp> = Vec::new();
        match (self, to) {
            (UnitState::Unlocked, UnitState::ReadFingerprint) => {
                ops.push(ab_excl);
            },
            (UnitState::ReadFingerprint, UnitState::CompilingRmeta) => {
                ops.push(sh_excl);
            },
            (UnitState::CompilingRmeta, UnitState::CompilingRlib) => {
                ops.push(ab_down);
            },
            (UnitState::ReadFingerprint, UnitState::SharedPartial) => {
                ops.push(ab_down);
            },
            (UnitState::Unlocked, UnitState::SharedPartial) => {
                ops.push(ab_shared);
            },
            (UnitState::Unlocked, UnitState::SharedFull) => {
                ops.push(ab_shared);
                ops.push(sh_shared);
            },
            (UnitState::SharedPartial, UnitState::SharedFull) => {
                ops.push(sh_shared);
            },
            (UnitState::SharedFull, UnitState::SharedPartial) => {
                ops.push(sh_unlock);
            },
            (UnitState::CompilingRlib, UnitState::SharedPartial) => {
                ops.push(sh_unlock);
            },
            (UnitState::ReadFingerprint, UnitState::Unlocked) => {
                ops.push(ab_unlock);
            },
            (UnitState::SharedPartial, UnitState::Unlocked) => {
                ops.push(ab_unlock);
            },
            (UnitState::CompilingRmeta, UnitState::Unlocked) => {
                ops.push(sh_unlock);
                ops.push(ab_unlock);
            },
            (UnitState::CompilingRlib, UnitState::Unlocked) => {
                ops.push(sh_unlock);
                ops.push(ab_unlock);
            },
            (UnitState::SharedFull, UnitState::Unlocked) => {
                ops.push(sh_unlock);
                ops.push(ab_unlock);
            },
            _ => {
                return None;
            },
        }
        assert(ops@ =~= steps(self, to));
        Some(ops)
    }
}

/// The transitions of the state table.
///
/// A writer goes `Unlocked → ReadFingerprint → CompilingRmeta →
/// CompilingRlib`; a reader goes `Unlocked → SharedPartial → SharedFull`
/// and may give up the final artifact again (`SharedFull → SharedPartial`).
/// A writer that need not build becomes a reader (`ReadFingerprint →
/// SharedPartial`), a writer whose metadata is still read leaves as a
/// reader (`CompilingRlib → SharedPartial`), and every held state can be
/// released. There is no way from `Unlocked` straight to a compiling state,
/// and none from a reader state to a writer state.
pub open spec fn legal(from: UnitState, to: UnitState) -> bool {
    match (from, to) {
        (UnitState::Unlocked, UnitState::ReadFingerprint) => true,
        (UnitState::ReadFingerprint, UnitState::CompilingRmeta) => true,
        (UnitState::CompilingRmeta, UnitState::CompilingRlib) => true,
        (UnitState::ReadFingerprint, UnitState::SharedPartial) => true,
        (UnitState::Unlocked, UnitState::SharedPartial) => true,
        (UnitState::Unlocked, UnitState::SharedFull) => true,
        (UnitState::SharedPartial, UnitState::SharedFull) => true,
        (UnitState::SharedFull, UnitState::SharedPartial) => true,
        (UnitState::CompilingRlib, UnitState::SharedPartial) => true,
        (_, UnitState::Unlocked) => from != UnitState::Unlocked,
        _ => false,
    }
}

/// The change that one file needs to get from mode `from` to mode `to`:
/// nothing where the two are equal.
pub open spec fn file_steps(file: LockFile, from: LockMode, to: LockMode) -> Seq<FileOp> {
    if from == to {
        Seq::empty()
    } else {
        match to {
            LockMode::Unlocked => seq![FileOp { file, op: LockOp::Unlock }],
            LockMode::Exclusive => seq![FileOp { file, op: LockOp::LockExclusive }],
            LockMode::Shared => if from == LockMode::Exclusive {
                seq![FileOp { file, op: LockOp::Downgrade }]
            } else {
                seq![FileOp { file, op: LockOp::LockShared }]
            },
        }
    }
}

/// The file operations of a transition, in the order in which they are
/// made. Locks are taken `active_build` first and given back `share` first.
pub open spec fn steps(from: UnitState, to: UnitState) -> Seq<FileOp> {
    let ab = file_steps(LockFile::ActiveBuild, from.modes().active_build, to.modes().active_build);
    let sh = file_steps(LockFile::Share, from.modes().share, to.modes().share);
    if to == UnitState::Unlocked {
        sh + ab
    } else {
        ab + sh
    }
}

/// The mode of a file after one operation on it, seen from the holder that
/// makes it; `None` where the operation does not apply to a file held in
/// mode `m`.
pub open spec fn mode_after(m: LockMode, op: LockOp) -> Option<LockMode> {
    match (m, op) {
        (LockMode::Unlocked, LockOp::LockShared) => Some(LockMode::Shared),
        (LockMode::Unlocked, LockOp::LockExclusive) => Some(LockMode::Exclusive),
        (LockMode::Exclusive, LockOp::Downgrade) => Some(LockMode::Shared),
        (LockMode::Shared, LockOp::Unlock) => Some(LockMode::Unlocked),
        (LockMode::Exclusive, LockOp::Unlock) => Some(LockMode::Unlocked),
        _ => None,
    }
}

/// The pair of modes after one file operation.
pub open spec fn modes_after(m: Modes, step: FileOp) -> Option<Modes> {
    match step.file {
        LockFile::ActiveBuild => match mode_after(m.active_build, step.op) {
            Some(n) => Some(Modes { active_build: n, share: m.share }),
            None => None,
        },
        LockFile::Share => match mode_after(m.share, step.op) {
            Some(n) => Some(Modes { active_build: m.active_build, share: n }),
            None => None,
        },
    }
}

/// The pair of modes after a run of file operations, made in order; `None`
/// as soon as one of them does not apply.
pub open spec fn replay(m: Modes, ops: Seq<FileOp>) -> Option<Modes>
    decreases ops.len(),
{
    if ops.len() == 0 {
        Some(m)
    } else {
        match modes_after(m, ops[0]) {
            Some(n) => replay(n, ops.drop_first()),
            None => None,
        }
    }
}

/// The state table is one to one: a state is found again from its modes.
pub proof fn lemma_modes_identify_state(s: UnitState)
    ensures
        UnitState::of_modes(s.modes()) == Some(s),
{
}

/// Every legal transition asks for at most one operation on each file, and
/// its operations, made in order from the modes of the state it leaves,
/// apply one after the other and end in the modes of the state it reaches.
pub proof fn lemma_steps_reach_target(from: UnitState, to: UnitState)
    requires
        legal(from, to),
    ensures
        1 <= steps(from, to).len() <= 2,
        replay(from.modes(), steps(from, to)) == Some(to.modes()),
{
    let ops = steps(from, to);
    reveal_with_fuel(replay, 3);
    if ops.len() == 2 {
        assert(ops.drop_first().len() == 1);
        assert(ops.drop_first()[0] == ops[1]);
        assert(ops.drop_first().drop_first().len() == 0);
    } else {
        assert(ops.drop_first().len() == 0);
    }
}

/// Through every state of the table the two files are held so that a
/// writer of the final artifact excludes its readers, and nobody holds
/// `share` without holding `active_build`.
pub proof fn lemma_table_rows(s: UnitState)
    ensures
        s.modes().active_build == LockMode::Unlocked ==> s.modes().share == LockMode::Unlocked,
        s.modes().share == LockMode::Shared ==> s.modes().active_build == LockMode::Shared,
        s == UnitState::Unlocked <==> s.modes().active_build == LockMode::Unlocked,
{
}

} // verus!
