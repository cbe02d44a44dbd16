//! Verified core of a boot-time subvolume reset tool.
//!
//! The library models a copy-on-write filesystem as plain data and proves the
//! logic that decides what happens on every boot: which generation snapshots
//! (`CLEAN`, `CURRENT`, `PREVIOUS`, `PENULTIMATE`) are rotated and how, how a
//! live volume is merged with the clean template while persistent paths are
//! kept, in which order nested subvolumes must be deleted, and how a run is
//! dispatched over several independent subvolumes.  The unverified shell that
//! mounts the filesystem and invokes the snapshot tool consumes the decisions
//! made here.

pub mod bytes;
pub mod deletion;
pub mod dispatch;
pub mod filter;
pub mod format;
pub mod fs;
pub mod merge;
pub mod rotation;
