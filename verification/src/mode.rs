//! How a build directory is locked: not at all, as a whole, or unit by
//! unit.
//!
//! Fine-grained locking keeps a pair of lock files open for every unit in
//! flight, so it is chosen only where the limit on open file descriptors
//! leaves room for it.

use vstd::prelude::*;
use crate::error::LockError;
use crate::rlimit::ResourceLimits;
use crate::text::str_eq;

verus! {

/// The way in which one directory is locked.
#[derive(Clone, Copy, Debug, PartialEq, Eq, Structural)]
pub enum LockingMode {
    /// No locks at all: the file system does not support them.
    Disabled,
    /// One lock for the whole directory.
    Coarse,
    /// One pair of locks for each build unit.
    Fine,
}

/// The modes of the two directories of a build. Where both are one
/// directory, both slots hold the same mode.
#[derive(Clone, Copy, Debug, PartialEq, Eq, Structural)]
pub struct LockingStrategy {
    pub artifact_dir: LockingMode,
    pub build_dir: LockingMode,
}

/// What is known of one directory: its path, and whether its file system
/// supports advisory whole-file locks.
#[derive(Debug)]
pub struct DirProbe {
    pub path: String,
    pub supports_locks: bool,
}

/// The two directories of a build.
#[derive(Debug)]
pub struct WorkspacePaths {
    pub artifact_dir: DirProbe,
    pub build_dir: DirProbe,
}

/// The file descriptors to allow for each unit of the build: its lock
/// files, the working files of compiler and linker, and the streams.
pub const FDS_PER_UNIT: u64 = 10;

/// Whether the file descriptors suffice for fine-grained locking.
#[derive(Clone, Copy, Debug, PartialEq, Eq, Structural)]
pub enum FdRoom {
    /// The soft limit suffices.
    Enough,
    /// The hard limit suffices: the soft limit is to be raised to these
    /// limits first.
    Raise(ResourceLimits),
    /// Not even the hard limit suffices, or the limits are not known.
    Short,
}

/// A chosen strategy, and whether the user is to be warned that the build
/// falls back to coarse locking for want of file descriptors.
#[derive(Clone, Copy, Debug, PartialEq, Eq, Structural)]
pub struct Selection {
    pub strategy: LockingStrategy,
    pub warn: bool,
}

/// A step of the selection: either the strategy is chosen, or the soft
/// limit has to be raised first and the outcome handed to `after_raise`.
#[derive(Clone, Copy, Debug, PartialEq, Eq, Structural)]
pub enum ModeStep {
    Chosen(Selection),
    RaiseSoftLimit(ResourceLimits),
}

/// The number of file descriptors that a build of `total_units` units is
/// given room for.
pub open spec fn safe_threshold(total_units: u64, per_unit: u64) -> int {
    total_units * per_unit
}

/// Whether the limits leave room for fine-grained locking.
pub open spec fn fd_room(
    total_units: u64,
    per_unit: u64,
    limits: Option<ResourceLimits>,
) -> FdRoom {
    match limits {
        None => FdRoom::Short,
        Some(l) => if l.soft_limit >= safe_threshold(total_units, per_unit) {
            FdRoom::Enough
        } else if l.hard_limit >= safe_threshold(total_units, per_unit) {
            FdRoom::Raise(
                ResourceLimits {
                    soft_limit: safe_threshold(total_units, per_unit) as u64,
                    hard_limit: l.hard_limit,
                },
            )
        } else {
            FdRoom::Short
        },
    }
}

/// Whether the two probes are of one directory.
pub open spec fn coincide(paths: &WorkspacePaths) -> bool {
    paths.artifact_dir.path@ == paths.build_dir.path@
}

/// Whether a directory can be locked at all. A directory that is the
/// artifact directory and the build directory at once can be locked where
/// both probes say so.
pub open spec fn lockable(paths: &WorkspacePaths, dir: &DirProbe) -> bool {
    if coincide(paths) {
        paths.artifact_dir.supports_locks && paths.build_dir.supports_locks
    } else {
        dir.supports_locks
    }
}

/// The strategy in which every directory that can be locked is locked in
/// the mode `mode`, and no other is locked at all.
pub open spec fn strategy_with(paths: &WorkspacePaths, mode: LockingMode) -> LockingStrategy {
    LockingStrategy {
        artifact_dir: if lockable(paths, &paths.artifact_dir) {
            mode
        } else {
            LockingMode::Disabled
        },
        build_dir: if lockable(paths, &paths.build_dir) {
            mode
        } else {
            LockingMode::Disabled
        },
    }
}

/// Whether any directory can be locked.
pub open spec fn any_lockable(paths: &WorkspacePaths) -> bool {
    lockable(paths, &paths.artifact_dir) || lockable(paths, &paths.build_dir)
}

/// The step that the selection takes.
///
/// A directory on a file system without advisory locks is not locked. For
/// the others: fine-grained locking where it was asked for explicitly, or
/// where the soft limit leaves room for it; a raise of the soft limit
/// where only the hard limit does; else coarse locking, with a warning.
pub open spec fn selection_step(
    paths: &WorkspacePaths,
    fine_enabled: bool,
    total_units: u64,
    per_unit: u64,
    limits: Option<ResourceLimits>,
) -> ModeStep {
    if !any_lockable(paths) {
        ModeStep::Chosen(
            Selection { strategy: strategy_with(paths, LockingMode::Disabled), warn: false },
        )
    } else if fine_enabled {
        ModeStep::Chosen(
            Selection { strategy: strategy_with(paths, LockingMode::Fine), warn: false },
        )
    } else {
        match fd_room(total_units, per_unit, limits) {
            FdRoom::Enough => ModeStep::Chosen(
                Selection { strategy: strategy_with(paths, LockingMode::Fine), warn: false },
            ),
            FdRoom::Raise(l) => ModeStep::RaiseSoftLimit(l),
            FdRoom::Short => ModeStep::Chosen(
                Selection { strategy: strategy_with(paths, LockingMode::Coarse), warn: true },
            ),
        }
    }
}

/// Whether the limits leave room for fine-grained locking in a build of
/// `total_units` units with `per_unit` file descriptors for each.
pub fn room_for(total_units: u64, per_unit: u64, limits: Option<ResourceLimits>) -> (r: FdRoom)
    ensures
        r == fd_room(total_units, per_unit, limits),
{
    match limits {
        None => FdRoom::Short,
        Some(l) => {
            assert(total_units * per_unit <= 0xffff_ffff_ffff_ffff * 0xffff_ffff_ffff_ffff)
                by (nonlinear_arith)
                requires
                    total_units <= 0xffff_ffff_ffff_ffff,
                    per_unit <= 0xffff_ffff_ffff_ffff,
            ;
            let threshold: u128 = (total_units as u128) * (per_unit as u128);
            if (l.soft_limit as u128) >= threshold {
                FdRoom::Enough
            } else if (l.hard_limit as u128) >= threshold {
                FdRoom::Raise(
                    ResourceLimits { soft_limit: threshold as u64, hard_limit: l.hard_limit },
                )
            } else {
                FdRoom::Short
            }
        },
    }
}

/// The strategy in which every directory that can be locked is locked in
/// the mode `mode`.
fn strategy_for(paths: &WorkspacePaths, mode: LockingMode) -> (s: LockingStrategy)
    ensures
        s == strategy_with(paths, mode),
{
    let same = str_eq(paths.artifact_dir.path.as_str(), paths.build_dir.path.as_str());
    let both = paths.artifact_dir.supports_locks && paths.build_dir.supports_locks;
    let artifact = if same {
        both
    } else {
        paths.artifact_dir.supports_locks
    };
    let build = if same {
        both
    } else {
        paths.build_dir.supports_locks
    };
    LockingStrategy {
        artifact_dir: if artifact {
            mode
        } else {
            LockingMode::Disabled
        },
        build_dir: if build {
            mode
        } else {
            LockingMode::Disabled
        },
    }
}

/// Chooses how the directories of a build are locked, once for the build.
///
/// `limits` are the limits on open file descriptors, `None` where they
/// could not be read; `per_unit` is the number of file descriptors to
/// allow for each of the `total_units` units. Where the answer is
/// `RaiseSoftLimit`, the soft limit is to be raised to the limits given
/// and the outcome handed to `after_raise`.
pub fn determine_strategy(
    paths: &WorkspacePaths,
    fine_enabled: bool,
    total_units: u64,
    per_unit: u64,
    limits: Option<ResourceLimits>,
) -> (step: ModeStep)
    ensures
        step == selection_step(paths, fine_enabled, total_units, per_unit, limits),
{
    let disabled = strategy_for(paths, LockingMode::Disabled);
    let fine = strategy_for(paths, LockingMode::Fine);
    if fine.artifact_dir == LockingMode::Disabled && fine.build_dir == LockingMode::Disabled {
        return ModeStep::Chosen(Selection { strategy: disabled, warn: false });
    }
    if fine_enabled {
        return ModeStep::Chosen(Selection { strategy: fine, warn: false });
    }
    match room_for(total_units, per_unit, limits) {
        FdRoom::Enough => ModeStep::Chosen(Selection { strategy: fine, warn: false }),
        FdRoom::Raise(l) => ModeStep::RaiseSoftLimit(l),
        FdRoom::Short => ModeStep::Chosen(
            Selection { strategy: strategy_for(paths, LockingMode::Coarse), warn: true },
        ),
    }
}

/// The strategy after the attempt to raise the soft limit: fine-grained
/// locking where it succeeded; coarse locking, with a warning, where it
/// failed.
pub fn after_raise(paths: &WorkspacePaths, raised: Result<(), LockError>) -> (s: Selection)
    ensures
        s == (Selection {
            strategy: strategy_with(
                paths,
                if raised is Ok {
                    LockingMode::Fine
                } else {
                    LockingMode::Coarse
                },
            ),
            warn: raised is Err,
        }),
{
    match raised {
        Ok(_) => Selection { strategy: strategy_for(paths, LockingMode::Fine), warn: false },
        Err(_) => Selection { strategy: strategy_for(paths, LockingMode::Coarse), warn: true },
    }
}

/// A directory on a file system without advisory locks is never locked,
/// whatever the limits are and whatever was asked for; and a warning is
/// given only with a fall back to coarse locking.
pub proof fn lemma_unsupported_is_disabled(
    paths: &WorkspacePaths,
    fine_enabled: bool,
    total_units: u64,
    per_unit: u64,
    limits: Option<ResourceLimits>,
)
    ensures
        selection_step(paths, fine_enabled, total_units, per_unit, limits) matches ModeStep::Chosen(
            s,
        ) ==> {
            &&& !paths.artifact_dir.supports_locks ==> s.strategy.artifact_dir
                == LockingMode::Disabled
            &&& !paths.build_dir.supports_locks ==> s.strategy.build_dir == LockingMode::Disabled
            &&& coincide(paths) ==> s.strategy.artifact_dir == s.strategy.build_dir
            &&& s.warn ==> s.strategy.artifact_dir != LockingMode::Fine && s.strategy.build_dir
                != LockingMode::Fine
        },
{
}

} // verus!
