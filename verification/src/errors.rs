//! Error model of the allocation protocol.
//!
//! Per-page failures carry the operating-system error code and the page
//! index at which they occurred; the coordinator recovers from them
//! locally and callers only ever see the aggregate `RegionError`.

use vstd::prelude::*;

verus! {

/// The address of the requested page is already reserved.
pub const ERR_ADDRESS_IN_USE: u64 = 17;

/// The node has no free huge page left to back the range.
pub const ERR_NO_NODE_CAPACITY: u64 = 12;

/// Pinning the range would exceed the locked-memory limit.
pub const ERR_LOCK_LIMIT: u64 = 11;

/// The range faulted on first touch although binding and locking were
/// reported successful.
pub const ERR_COMMIT_FAULT: u64 = 14;

/// The operation names an address at which nothing is mapped.
pub const ERR_NOT_MAPPED: u64 = 22;

/// The operation expects the page in an earlier pipeline state than the
/// one it is in (binding a bound page, locking an unbound one).
pub const ERR_BAD_PIPELINE_ORDER: u64 = 75;

/// How far a single page got before its pipeline failed.
///
/// `Fatal` is a commit-phase anomaly: the first touch faulted although
/// binding and locking were reported successful, so the policy layer did
/// not actually take effect.  It is never retried.
#[derive(Clone, Copy, PartialEq, Eq, Structural, Debug)]
pub enum StepFault {
    MapFailed { os_error: u64 },
    BindFailed { os_error: u64 },
    LockFailed { os_error: u64 },
    Fatal { os_error: u64 },
}

/// The terminal per-page error of a region allocation: which pipeline
/// step failed, at which page index, against which node.
#[derive(Clone, Copy, PartialEq, Eq, Structural, Debug)]
pub enum PageFault {
    MapFailed { page_index: u64, node: u64, os_error: u64 },
    BindFailed { page_index: u64, node: u64, os_error: u64 },
    LockFailed { page_index: u64, node: u64, os_error: u64 },
}

/// The aggregate outcome a caller sees when a region cannot be built.
#[derive(Clone, Copy, PartialEq, Eq, Structural, Debug)]
pub enum RegionError {
    /// The requested total size is not a positive multiple of the page
    /// size; rejected before any system call.
    Config { total_size: u64, page_size: u64 },
    /// Neither node could satisfy the full page count: how many pages
    /// were transiently acquired before rollback, and the terminal
    /// per-page error that triggered it.
    Allocation { pages_acquired: u64, last_error: PageFault },
    /// A commit-phase anomaly, surfaced as-is and never retried; every
    /// acquired page is released first.
    Fatal { page_index: u64, node: u64, os_error: u64 },
}

} // verus!
