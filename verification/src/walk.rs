//! Decisions of the directory walk: which directories to skip, and what to do with
//! each entry found.
use crate::metrics::{bump, Metrics};
use vstd::prelude::*;

verus! {

/// Whether the walk descends into a directory.
#[derive(Debug, Clone, Copy, PartialEq, Eq, Structural)]
pub enum EntryFilter {
    /// Walk the entry (and, for a directory, what it holds).
    Continue,
    /// Skip the directory and everything under it.
    IgnoreDir,
}

/// Whether a file name is hidden: it starts with a dot.
pub open spec fn spec_is_hidden(name: Seq<char>) -> bool {
    name.len() > 0 && name[0] == '.'
}

/// Whether a file name starts with a dot.
pub fn is_hidden(name: &str) -> (r: bool)
    ensures
        r == spec_is_hidden(name@),
        r <==> name@.len() > 0 && name@[0] == '.',
{
    let mut chars = name.chars();
    match chars.next() {
        Some(c) => c == '.',
        None => false,
    }
}

/// Decides whether the walk enters an entry, from its file name (if it has one)
/// and whether it holds a `.rustc_info.json`, which marks a rustc build directory.
///
/// Hidden entries and build directories are skipped.
pub fn filter_entry(file_name: Option<&str>, has_rustc_info: bool) -> (r: EntryFilter)
    ensures
        r == (if (file_name matches Some(n) && spec_is_hidden(n@)) || has_rustc_info {
            EntryFilter::IgnoreDir
        } else {
            EntryFilter::Continue
        }),
        r == EntryFilter::Continue <==> !has_rustc_info && !(file_name matches Some(n) && n@.len() > 0 && n@[0]
            == '.'),
{
    if let Some(name) = file_name {
        if is_hidden(name) {
            return EntryFilter::IgnoreDir;
        }
    }
    if has_rustc_info {
        return EntryFilter::IgnoreDir;
    }
    EntryFilter::Continue
}

/// Exactly the names that begin with a dot are hidden: a dot followed by anything is
/// hidden, and the empty name or one that begins with any other character is not.
pub proof fn lemma_hidden_names(c: char, rest: Seq<char>)
    ensures
        spec_is_hidden(seq!['.'] + rest),
        c != '.' ==> !spec_is_hidden(seq![c] + rest),
        !spec_is_hidden(Seq::<char>::empty()),
{
    assert((seq!['.'] + rest)[0] == '.');
    assert((seq![c] + rest)[0] == c);
}

/// What the walk yields next.
#[derive(Debug, Clone, Copy, PartialEq, Eq, Structural)]
pub enum WalkEvent {
    /// An entry; `is_file` is false for a directory, or when its type is unknown.
    Entry { is_file: bool },
    /// The walk failed.
    Error,
    /// The walk is over.
    End,
}

/// What to do after a walk event.
#[derive(Debug, Clone, Copy, PartialEq, Eq, Structural)]
pub enum WalkAction {
    /// Restore or record the file's mtime.
    Manage,
    /// Go on with the next entry.
    Skip,
    /// Stop walking.
    Stop,
}

/// One step of the walk: counts the entry, and decides what to do with it.
///
/// Every entry is counted as processed; one that is not a file is also counted as a
/// directory and skipped. The walk stops at its end or at its first error.
pub fn walk_step(metrics: &mut Metrics, event: WalkEvent) -> (action: WalkAction)
    ensures
        match event {
            WalkEvent::Entry { is_file } => {
                &&& action == if is_file {
                    WalkAction::Manage
                } else {
                    WalkAction::Skip
                }
                &&& *final(metrics) == (Metrics {
                    files_processed: bump(old(metrics).files_processed, 1),
                    files_was_directory: if is_file {
                        old(metrics).files_was_directory
                    } else {
                        bump(old(metrics).files_was_directory, 1)
                    },
                    ..*old(metrics)
                })
            },
            _ => action == WalkAction::Stop && *final(metrics) == *old(metrics),
        },
{
    match event {
        WalkEvent::Entry { is_file } => {
            metrics.files_processed = metrics.files_processed.wrapping_add(1);
            if !is_file {
                metrics.files_was_directory = metrics.files_was_directory.wrapping_add(1);
                WalkAction::Skip
            } else {
                WalkAction::Manage
            }
        },
        WalkEvent::Error => WalkAction::Stop,
        WalkEvent::End => WalkAction::Stop,
    }
}

} // verus!
