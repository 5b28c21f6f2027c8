//! Cleaner: what to do with one item's path, and how the outcome folds back
//! into the item's status.
use vstd::prelude::*;
use crate::item::{CleanupItem, ItemStatus};

verus! {

/// What a probe of an item's path found on disk.
#[derive(Debug, Clone, Copy, PartialEq, Eq, Structural)]
pub enum PathKind {
    Missing,
    File,
    Dir,
    /// Exists, but is neither a regular file nor a directory.
    Other,
}

/// The filesystem work that cleaning one item calls for.
#[derive(Debug, Clone, Copy, PartialEq, Eq, Structural)]
pub enum CleanAction {
    /// Nothing that the cleaner removes is there: status untouched.
    Leave,
    /// Dry-run of a removal: no filesystem change and no status change.
    Simulate,
    /// Remove the single file.
    RemoveFile,
    /// Remove the directory and everything under it.
    RemoveDir,
}

/// Why a removal failed (permission denied, path busy, I/O error).
#[derive(Debug, Clone, PartialEq, Eq)]
pub struct DeleteError {
    pub reason: String,
}

impl CleanAction {
    pub open spec fn removes(self) -> bool {
        self is RemoveFile || self is RemoveDir
    }
}

/// The action for a path of `kind` under the dry-run flag. A missing path,
/// or one that is neither a file nor a directory, is left alone: nothing is
/// removed and the status stays, so the item never claims a deletion that did
/// not happen. Under dry-run nothing is removed and a removal is only
/// simulated, which leaves the status as it was as well.
pub open spec fn action_for(kind: PathKind, dry_run: bool) -> CleanAction {
    match kind {
        PathKind::Missing => CleanAction::Leave,
        PathKind::Other => CleanAction::Leave,
        PathKind::File => if dry_run {
            CleanAction::Simulate
        } else {
            CleanAction::RemoveFile
        },
        PathKind::Dir => if dry_run {
            CleanAction::Simulate
        } else {
            CleanAction::RemoveDir
        },
    }
}

/// Chooses the filesystem work for one item.
pub fn clean_action(kind: PathKind, dry_run: bool) -> (r: CleanAction)
    ensures
        r == action_for(kind, dry_run),
{
    match kind {
        PathKind::Missing => CleanAction::Leave,
        PathKind::File => if dry_run {
            CleanAction::Simulate
        } else {
            CleanAction::RemoveFile
        },
        PathKind::Dir => if dry_run {
            CleanAction::Simulate
        } else {
            CleanAction::RemoveDir
        },
        PathKind::Other => CleanAction::Leave,
    }
}

/// Under dry-run no action ever removes anything, whatever the path is and
/// however often the item is cleaned.
pub proof fn lemma_dry_run_never_removes(kind: PathKind)
    ensures
        !action_for(kind, true).removes(),
{
}

/// The status that `clean_item` leaves: `Deleted` once a removal succeeded;
/// unchanged when there was nothing to remove, under dry-run, or when the
/// removal failed.
pub open spec fn status_after_clean(
    s: ItemStatus,
    action: CleanAction,
    removal: Result<(), DeleteError>,
) -> ItemStatus {
    match action {
        CleanAction::Leave | CleanAction::Simulate => s,
        _ => match removal {
            Ok(_) => ItemStatus::Deleted,
            Err(_) => s,
        },
    }
}

/// The result that `clean_item` reports: only a failed removal is an error.
pub open spec fn clean_result(action: CleanAction, removal: Result<(), DeleteError>) -> Result<
    (),
    DeleteError,
> {
    if action.removes() {
        removal
    } else {
        Ok(())
    }
}

/// Folds the outcome of `action` into `item`. `removal` is what performing a
/// removing action gave; it is not consulted for the other actions. Only the
/// status changes, and a failure is returned rather than recorded, so that
/// the caller decides how to handle it.
pub fn clean_item(
    item: &mut CleanupItem,
    action: CleanAction,
    removal: Result<(), DeleteError>,
) -> (r: Result<(), DeleteError>)
    ensures
        r == clean_result(action, removal),
        final(item).status == status_after_clean(old(item).status, action, removal),
        final(item).name == old(item).name,
        final(item).category == old(item).category,
        final(item).path == old(item).path,
        final(item).size_bytes == old(item).size_bytes,
        final(item).selected == old(item).selected,
{
    match action {
        CleanAction::Leave | CleanAction::Simulate => Ok(()),
        _ => {
            if removal.is_ok() {
                item.status = ItemStatus::Deleted;
            }
            removal
        },
    }
}

} // verus!
