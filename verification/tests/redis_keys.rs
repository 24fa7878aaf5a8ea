use cargo_mtime::cache::redis::{mset_entries, redis_key, take_mset_entries, WriteRequest};
use cargo_mtime::cache::redis_client::open_redis_client;
use cargo_mtime::cache::{gather_step, BatchAction, BatchEvent};
use cargo_mtime::config::RedisConfig;

#[test]
fn redis_key_appends_hash_to_path() {
    assert_eq!(redis_key("src/lib.rs".to_string(), "deadbeef"), "src/lib.rsdeadbeef");
    assert_eq!(redis_key(String::new(), "h"), "h");
}

#[test]
fn mset_entries_keep_batch_order() {
    let batch = vec![
        WriteRequest { path: "a".to_string(), sha256: "1".to_string(), mtime: 5 },
        WriteRequest { path: "b".to_string(), sha256: "2".to_string(), mtime: -6 },
    ];
    let ops = mset_entries(&batch);
    assert_eq!(ops, vec![("a1".to_string(), 5), ("b2".to_string(), -6)]);
    assert!(mset_entries(&[]).is_empty());
}

#[test]
fn redis_keys_differ_for_equal_length_hashes() {
    assert_ne!(redis_key("a".to_string(), "bc"), redis_key("ab".to_string(), "xc"));
    assert_ne!(redis_key("a".to_string(), "12"), redis_key("b".to_string(), "12"));
    // Hashes of different lengths can give the same key.
    assert_eq!(redis_key("ab".to_string(), "c"), redis_key("a".to_string(), "bc"));
}

#[test]
fn take_mset_entries_empties_the_batch() {
    let mut batch = vec![
        WriteRequest { path: "a".to_string(), sha256: "1".to_string(), mtime: 5 },
        WriteRequest { path: "b".to_string(), sha256: "2".to_string(), mtime: 6 },
    ];
    let ops = take_mset_entries(&mut batch);
    assert!(batch.is_empty());
    assert_eq!(ops, vec![("a1".to_string(), 5), ("b2".to_string(), 6)]);
    assert!(take_mset_entries(&mut batch).is_empty());
}

#[test]
fn redis_client_opens_only_for_urls_that_parse() {
    let good = RedisConfig { url: "redis://127.0.0.1/".to_string() };
    let client = open_redis_client(&good).unwrap();
    assert_eq!(client.client().get_connection_info().addr().to_string(), "127.0.0.1:6379");
    let other = RedisConfig { url: "redis://10.0.0.1:7000/".to_string() };
    let client = open_redis_client(&other).unwrap();
    assert_eq!(client.client().get_connection_info().addr().to_string(), "10.0.0.1:7000");
    let bad = RedisConfig { url: "not a url".to_string() };
    assert!(open_redis_client(&bad).is_err());
}

#[test]
fn redis_writer_sends_each_request_once_in_order() {
    let mut batch: Vec<WriteRequest> = Vec::new();
    let mut sent: Vec<(String, i64)> = Vec::new();
    for i in 0..250i64 {
        let req = WriteRequest { path: format!("f{i}"), sha256: "h".to_string(), mtime: i };
        if gather_step(&mut batch, BatchEvent::Received(req)) == BatchAction::Flush {
            sent.extend(take_mset_entries(&mut batch));
        }
        assert!(batch.len() < 100);
    }
    assert_eq!(sent.len(), 200);
    assert_eq!(gather_step(&mut batch, BatchEvent::Closed), BatchAction::FlushAndStop);
    sent.extend(take_mset_entries(&mut batch));
    assert_eq!(sent.len(), 250);
    for (i, (key, mtime)) in sent.iter().enumerate() {
        assert_eq!(key, &format!("f{i}h"));
        assert_eq!(*mtime, i as i64);
    }
}
