use cargo_mtime::cache::disk::{
    open_database, try_get_mtime, try_open_database, update_database, AppState, DatabaseError, DATABASE_VERSION,
};
use cargo_mtime::cache::{gather_step, BatchAction, BatchEvent, BATCH_SIZE};
use cargo_mtime::metrics::Metrics;

fn write(path: &str, sha: &str, mtime: i64) -> (String, String, i64) {
    (path.to_string(), sha.to_string(), mtime)
}

#[test]
fn new_state_is_empty_and_unversioned() {
    let s = AppState::default();
    assert_eq!(s.version(), None);
    assert_eq!(s.get_mtime("a", "b"), None);
    assert!(s.to_records().is_empty());
}

#[test]
fn get_after_set_returns_written_mtime() {
    let mut s = AppState::new();
    s.set_mtime("src/lib.rs".to_string(), "abc".to_string(), 100);
    assert_eq!(s.get_mtime("src/lib.rs", "abc"), Some(100));
    assert_eq!(s.get_mtime("src/lib.rs", "abd"), None);
    assert_eq!(s.get_mtime("src/main.rs", "abc"), None);
    s.set_mtime("src/lib.rs".to_string(), "abc".to_string(), 200);
    assert_eq!(s.get_mtime("src/lib.rs", "abc"), Some(200));
}

#[test]
fn set_leaves_other_records() {
    let mut s = AppState::new();
    s.set_mtime("a".to_string(), "h1".to_string(), 1);
    s.set_mtime("a".to_string(), "h2".to_string(), 2);
    s.set_mtime("b".to_string(), "h1".to_string(), 3);
    assert_eq!(s.get_mtime("a", "h1"), Some(1));
    assert_eq!(s.get_mtime("a", "h2"), Some(2));
    assert_eq!(s.get_mtime("b", "h1"), Some(3));
}

#[test]
fn records_are_sorted_by_bytes() {
    let mut s = AppState::new();
    for (p, h, m) in [("z", "2", 1), ("a", "9", 2), ("é", "1", 3), ("B", "1", 4), ("a", "1", 5)] {
        s.set_mtime(p.to_string(), h.to_string(), m);
    }
    let recs = s.to_records();
    let paths: Vec<&str> = recs.iter().map(|r| r.0.as_str()).collect();
    assert_eq!(paths, vec!["B", "a", "z", "é"]);
    assert_eq!(recs[1].1, vec![("1".to_string(), 5), ("9".to_string(), 2)]);
}

#[test]
fn records_roundtrip() {
    let mut s = AppState::with_version(Some(1));
    s.set_mtime("x/y".to_string(), "aa".to_string(), -5);
    s.set_mtime("x".to_string(), "bb".to_string(), 7);
    s.set_mtime("x/y".to_string(), "cc".to_string(), 9);
    let recs = s.to_records();
    let t = AppState::from_records(s.version(), &recs);
    assert_eq!(t.version(), Some(1));
    assert_eq!(t.to_records(), recs);
    assert_eq!(t.get_mtime("x/y", "aa"), Some(-5));
    assert_eq!(t.get_mtime("x", "bb"), Some(7));
}

#[test]
fn from_records_later_path_wins() {
    let recs = vec![
        ("p".to_string(), vec![("h".to_string(), 1)]),
        ("p".to_string(), vec![("g".to_string(), 2), ("g".to_string(), 3)]),
    ];
    let s = AppState::from_records(None, &recs);
    assert_eq!(s.version(), None);
    assert_eq!(s.get_mtime("p", "h"), None);
    assert_eq!(s.get_mtime("p", "g"), Some(3));
}

#[test]
fn from_records_keeps_empty_path() {
    let recs = vec![("p".to_string(), vec![])];
    let s = AppState::from_records(Some(1), &recs);
    assert_eq!(s.to_records(), recs);
}

#[test]
fn open_database_without_stored_state() {
    let s = open_database(None);
    assert_eq!(s.version(), Some(DATABASE_VERSION));
    assert!(s.to_records().is_empty());
    let t = try_open_database(None).unwrap();
    assert_eq!(t.version(), Some(DATABASE_VERSION));
}

#[test]
fn open_database_versions() {
    let mut unversioned = AppState::new();
    unversioned.set_mtime("a".to_string(), "b".to_string(), 3);
    let s = open_database(Some(unversioned));
    assert_eq!(s.version(), Some(1));
    assert_eq!(s.get_mtime("a", "b"), Some(3));

    let current = AppState::with_version(Some(1));
    assert_eq!(open_database(Some(current)).version(), Some(1));

    let mut unversioned = AppState::new();
    unversioned.set_mtime("c".to_string(), "d".to_string(), 4);
    let s = try_open_database(Some(unversioned)).unwrap();
    assert_eq!(s.version(), Some(1));
    assert_eq!(s.get_mtime("c", "d"), Some(4));

    let future = AppState::with_version(Some(2));
    assert!(matches!(try_open_database(Some(future)), Err(DatabaseError::UnsupportedVersion(2))));
    let old = AppState::with_version(Some(0));
    assert!(matches!(try_open_database(Some(old)), Err(DatabaseError::UnsupportedVersion(0))));
}

#[test]
fn try_get_mtime_counts_hits_and_misses() {
    let mut s = AppState::new();
    s.set_mtime("f".to_string(), "h".to_string(), 42);
    let mut m = Metrics::new();
    assert_eq!(try_get_mtime(&s, "f", "h", &mut m), Some(42));
    assert_eq!(try_get_mtime(&s, "f", "other", &mut m), None);
    assert_eq!(try_get_mtime(&s, "g", "h", &mut m), None);
    assert_eq!(m.database_mtime_queries, 3);
    assert_eq!(m.database_mtime_hits, 1);
    assert_eq!(m.database_mtime_misses, 2);
    assert_eq!(m.database_mtime_write, 0);
}

#[test]
fn update_database_applies_batch_in_order() {
    let mut s = AppState::new();
    let mut m = Metrics::new();
    let mut batch = vec![write("a", "1", 10), write("b", "2", 20), write("a", "1", 30)];
    update_database(&mut s, &mut batch, &mut m);
    assert!(batch.is_empty());
    assert_eq!(s.get_mtime("a", "1"), Some(30));
    assert_eq!(s.get_mtime("b", "2"), Some(20));
    assert_eq!(m.database_mtime_write, 3);
}

#[test]
fn batched_writes_equal_single_batch() {
    let writes = vec![write("a", "1", 1), write("b", "1", 2), write("a", "1", 3), write("a", "2", 4)];
    let mut whole = AppState::new();
    let mut m = Metrics::new();
    update_database(&mut whole, &mut writes.clone(), &mut m);
    let mut split = AppState::new();
    update_database(&mut split, &mut writes[..2].to_vec(), &mut m);
    update_database(&mut split, &mut writes[2..].to_vec(), &mut m);
    assert_eq!(whole.to_records(), split.to_records());
    assert_eq!(m.database_mtime_write, 8);
}

#[test]
fn gather_step_flushes_full_batches_and_the_rest_at_close() {
    let mut batch: Vec<u32> = Vec::new();
    for i in 0..(BATCH_SIZE as u32 - 1) {
        assert_eq!(gather_step(&mut batch, BatchEvent::Received(i)), BatchAction::Wait);
    }
    assert_eq!(gather_step(&mut batch, BatchEvent::Received(99)), BatchAction::Flush);
    assert_eq!(batch.len(), 100);
    assert_eq!(batch[99], 99);
    assert_eq!(gather_step(&mut batch, BatchEvent::Closed), BatchAction::FlushAndStop);
    batch.clear();
    assert_eq!(gather_step(&mut batch, BatchEvent::Closed), BatchAction::Stop);
}

#[test]
fn writer_keeps_fewer_than_a_batch_pending() {
    let mut db = AppState::new();
    let mut batch: Vec<(String, String, i64)> = Vec::new();
    let mut m = Metrics::new();
    for i in 0..250i64 {
        let action = gather_step(&mut batch, BatchEvent::Received(write(&format!("f{i}"), "h", i)));
        if action == BatchAction::Flush {
            update_database(&mut db, &mut batch, &mut m);
        }
        assert!(batch.len() < BATCH_SIZE);
    }
    assert_eq!(batch.len(), 50);
    assert_eq!(db.get_mtime("f199", "h"), Some(199));
    assert_eq!(db.get_mtime("f200", "h"), None);
    assert_eq!(gather_step(&mut batch, BatchEvent::Closed), BatchAction::FlushAndStop);
    update_database(&mut db, &mut batch, &mut m);
    assert_eq!(db.get_mtime("f249", "h"), Some(249));
    assert_eq!(m.database_mtime_write, 250);
}

#[test]
fn get_after_insert_across_runs() {
    let mut db = open_database(None);
    let mut m = Metrics::new();
    let mut batch = vec![write("p", "s", 5), write("q", "s", 6), write("p", "s", 7)];
    update_database(&mut db, &mut batch, &mut m);
    let saved = db.to_records();
    let loaded = open_database(Some(AppState::from_records(db.version(), &saved)));
    assert_eq!(try_get_mtime(&loaded, "p", "s", &mut m), Some(7));
    assert_eq!(try_get_mtime(&loaded, "q", "s", &mut m), Some(6));
}
