//! The unit of work: one discovered location and its lifecycle status.
use vstd::prelude::*;

verus! {

/// Lifecycle of a discovered item. It starts at `Scanned` and only moves
/// forward, to `Deleted` or to `Failed`.
#[derive(Debug, Clone, PartialEq, Eq)]
pub enum ItemStatus {
    Scanned,
    Deleted,
    Failed(String),
}

/// A confirmed, sized, stateful cleanup candidate.
#[derive(Debug, Clone)]
pub struct CleanupItem {
    /// Display label, taken from the owning group.
    pub name: String,
    /// Grouping key for display: the owning group's id.
    pub category: String,
    /// Resolved filesystem location.
    pub path: String,
    /// Bytes of regular files found under `path` at scan time.
    pub size_bytes: u64,
    pub selected: bool,
    pub status: ItemStatus,
}

/// An item that left `Scanned` never returns to it.
pub open spec fn status_advances(before: ItemStatus, after: ItemStatus) -> bool {
    !(before is Scanned) ==> !(after is Scanned)
}

} // verus!
