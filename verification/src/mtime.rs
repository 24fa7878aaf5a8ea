//! What to do with a file's mtime, given what the cache recorded for its content.
use crate::cache::disk::{lookup, store, MtimeDb};
use crate::metrics::{bump, Metrics};
use vstd::prelude::*;

verus! {

/// What is done with a file's mtime.
#[derive(Debug, Clone, Copy, PartialEq, Eq, Structural)]
pub enum MtimeAction {
    /// Set the file's mtime to the recorded one.
    Restore(i64),
    /// Leave the file alone: it already has the recorded mtime.
    Skip,
    /// Leave the file alone and record this mtime for its content.
    Record(i64),
}

/// The action for a file whose content has `cached` recorded, and whose mtime on disk
/// is `on_disk`.
///
/// With no record for the content (new file, or changed content), the current mtime
/// is recorded; with a record that differs from the mtime on disk, the file gets the
/// recorded mtime back; otherwise nothing is done.
pub open spec fn spec_mtime_action(cached: Option<i64>, on_disk: i64) -> MtimeAction {
    match cached {
        Some(m) => if m != on_disk {
            MtimeAction::Restore(m)
        } else {
            MtimeAction::Skip
        },
        None => MtimeAction::Record(on_disk),
    }
}

/// The file's mtime once `action` has been carried out.
pub open spec fn mtime_after(action: MtimeAction, on_disk: i64) -> i64 {
    match action {
        MtimeAction::Restore(m) => m,
        _ => on_disk,
    }
}

/// Decides what to do with a file's mtime, and counts the decision.
pub fn mtime_action(cached: Option<i64>, on_disk: i64, metrics: &mut Metrics) -> (action: MtimeAction)
    ensures
        action == spec_mtime_action(cached, on_disk),
        *final(metrics) == (match action {
            MtimeAction::Restore(_) => Metrics {
                files_mtime_restored: bump(old(metrics).files_mtime_restored, 1),
                ..*old(metrics)
            },
            MtimeAction::Skip => Metrics {
                files_mtime_skipped: bump(old(metrics).files_mtime_skipped, 1),
                ..*old(metrics)
            },
            MtimeAction::Record(_) => Metrics {
                files_mtime_updated: bump(old(metrics).files_mtime_updated, 1),
                ..*old(metrics)
            },
        }),
{
    match cached {
        Some(mtime) => {
            if mtime != on_disk {
                metrics.files_mtime_restored = metrics.files_mtime_restored.wrapping_add(1);
                MtimeAction::Restore(mtime)
            } else {
                metrics.files_mtime_skipped = metrics.files_mtime_skipped.wrapping_add(1);
                MtimeAction::Skip
            }
        },
        None => {
            metrics.files_mtime_updated = metrics.files_mtime_updated.wrapping_add(1);
            MtimeAction::Record(on_disk)
        },
    }
}

/// A file whose content is unchanged since its mtime was recorded ends up with the
/// recorded mtime, whatever its mtime on disk has become.
pub proof fn lemma_unchanged_content_gets_recorded_mtime(
    db: MtimeDb,
    path: Seq<char>,
    sha256: Seq<char>,
    recorded: i64,
    on_disk: i64,
)
    ensures
        mtime_after(
            spec_mtime_action(lookup(store(db, path, sha256, recorded), path, sha256), on_disk),
            on_disk,
        ) == recorded,
{
}

/// A file whose content has no record (a new file, or one whose content changed) is
/// not touched, and its current mtime is what gets recorded for that content.
pub proof fn lemma_unknown_content_is_recorded(db: MtimeDb, path: Seq<char>, sha256: Seq<char>, on_disk: i64)
    requires
        lookup(db, path, sha256) is None,
    ensures
        spec_mtime_action(lookup(db, path, sha256), on_disk) == MtimeAction::Record(on_disk),
        mtime_after(spec_mtime_action(lookup(db, path, sha256), on_disk), on_disk) == on_disk,
        lookup(store(db, path, sha256, on_disk), path, sha256) == Some(on_disk),
{
}

} // verus!
