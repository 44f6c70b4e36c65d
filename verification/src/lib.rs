//! Coordination of per-unit compilation locks for builds that share an
//! on-disk build directory, together with the textual directory-tree
//! snapshots used to compare what a build left behind.
//!
//! The library decides and touches no file. Locks: `state` holds the table
//! of states and transitions of one unit, `refcount` and `interner` the
//! records of the lock files of a process, `unit`, `deps`, `model` and
//! `manager` the registry of one build with its operations, `laws` what
//! holds of them, and `mode` and `rlimit` the choice between no, coarse
//! and fine-grained locking. Trees: `layout_line` reads lines, `layout`
//! reads, writes and compares trees, `layout_walk` builds them from a walk,
//! and `compare` and `pattern` match texts.

pub mod compare;
pub mod deps;
pub mod error;
pub mod interner;
pub mod key;
pub mod laws;
pub mod layout;
pub mod layout_line;
pub mod layout_walk;
pub mod manager;
pub mod mode;
pub mod model;
pub mod pattern;
pub mod refcount;
pub mod rlimit;
pub mod state;
pub mod text;
pub mod unit;
