use cargo_mtime::cache::disk::AppState;
use cargo_mtime::metrics::Metrics;
use cargo_mtime::mtime::{mtime_action, MtimeAction};
use cargo_mtime::walk::{filter_entry, is_hidden, walk_step, EntryFilter, WalkAction, WalkEvent};

#[test]
fn hidden_names_start_with_a_dot() {
    assert!(is_hidden(".git"));
    assert!(is_hidden("."));
    assert!(!is_hidden("src"));
    assert!(!is_hidden(""));
    assert!(!is_hidden("a.b"));
}

#[test]
fn filter_skips_hidden_and_build_directories() {
    assert_eq!(filter_entry(Some(".cargo"), false), EntryFilter::IgnoreDir);
    assert_eq!(filter_entry(Some("target"), true), EntryFilter::IgnoreDir);
    assert_eq!(filter_entry(Some("src"), false), EntryFilter::Continue);
    assert_eq!(filter_entry(None, false), EntryFilter::Continue);
    assert_eq!(filter_entry(None, true), EntryFilter::IgnoreDir);
}

#[test]
fn walk_step_counts_entries() {
    let mut m = Metrics::new();
    assert_eq!(walk_step(&mut m, WalkEvent::Entry { is_file: true }), WalkAction::Manage);
    assert_eq!(walk_step(&mut m, WalkEvent::Entry { is_file: false }), WalkAction::Skip);
    assert_eq!(walk_step(&mut m, WalkEvent::Error), WalkAction::Stop);
    assert_eq!(walk_step(&mut m, WalkEvent::End), WalkAction::Stop);
    assert_eq!(m.files_processed, 2);
    assert_eq!(m.files_was_directory, 1);
}

#[test]
fn mtime_action_cases() {
    let mut m = Metrics::new();
    assert_eq!(mtime_action(Some(5), 9, &mut m), MtimeAction::Restore(5));
    assert_eq!(mtime_action(Some(9), 9, &mut m), MtimeAction::Skip);
    assert_eq!(mtime_action(None, 9, &mut m), MtimeAction::Record(9));
    assert_eq!(m.files_mtime_restored, 1);
    assert_eq!(m.files_mtime_skipped, 1);
    assert_eq!(m.files_mtime_updated, 1);
}

#[test]
fn recorded_mtime_comes_back_for_unchanged_content() {
    let mut db = AppState::new();
    let mut m = Metrics::new();
    let first = mtime_action(db.get_mtime("f", "h"), 1000, &mut m);
    assert_eq!(first, MtimeAction::Record(1000));
    db.set_mtime("f".to_string(), "h".to_string(), 1000);
    assert_eq!(mtime_action(db.get_mtime("f", "h"), 2000, &mut m), MtimeAction::Restore(1000));
    assert_eq!(mtime_action(db.get_mtime("f", "h2"), 2000, &mut m), MtimeAction::Record(2000));
}

#[test]
fn metrics_wrap_around() {
    let mut m = Metrics::new();
    m.database_mtime_queries = usize::MAX;
    m.database_mtime_write = usize::MAX - 1;
    m.record_lookup(true);
    m.record_writes(3);
    assert_eq!(m.database_mtime_queries, 0);
    assert_eq!(m.database_mtime_hits, 1);
    assert_eq!(m.database_mtime_write, 1);
    assert_eq!(Metrics::default(), Metrics::new());
}

#[test]
fn lookups_stay_balanced_across_wrap_around() {
    let mut m = Metrics::new();
    m.database_mtime_queries = usize::MAX;
    m.database_mtime_hits = usize::MAX - 1;
    m.database_mtime_misses = 1;
    for hit in [true, false, true, true] {
        m.record_lookup(hit);
        assert_eq!(
            m.database_mtime_hits.wrapping_add(m.database_mtime_misses),
            m.database_mtime_queries
        );
    }
    assert_eq!(m.database_mtime_queries, 3);
}
