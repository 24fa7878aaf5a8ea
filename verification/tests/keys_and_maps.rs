use cargo_mtime::keyorder::{compare_bytes, compare_keys, KeyOrder};
use cargo_mtime::strmap::StrMap;

#[test]
fn compare_keys_orders_by_bytes() {
    assert_eq!(compare_keys("a", "b"), KeyOrder::Less);
    assert_eq!(compare_keys("b", "a"), KeyOrder::Greater);
    assert_eq!(compare_keys("abc", "abc"), KeyOrder::Equal);
    assert_eq!(compare_keys("ab", "abc"), KeyOrder::Less);
    assert_eq!(compare_keys("abc", "ab"), KeyOrder::Greater);
    assert_eq!(compare_keys("", ""), KeyOrder::Equal);
    assert_eq!(compare_keys("Z", "a"), KeyOrder::Less);
    assert_eq!(compare_keys("é", "z"), KeyOrder::Greater);
    assert_eq!(compare_bytes(&[1, 2], &[1, 3]), KeyOrder::Less);
}

#[test]
fn compare_keys_agrees_with_string_ord() {
    let words = ["", "a", "ab", "b", "é", "ée", "z", "Z", "0", "a/b", "a.b"];
    for x in words {
        for y in words {
            let expected = match x.cmp(y) {
                std::cmp::Ordering::Less => KeyOrder::Less,
                std::cmp::Ordering::Equal => KeyOrder::Equal,
                std::cmp::Ordering::Greater => KeyOrder::Greater,
            };
            assert_eq!(compare_keys(x, y), expected, "{x:?} {y:?}");
        }
    }
}

#[test]
fn strmap_insert_get_and_order() {
    let mut m: StrMap<i32> = StrMap::new();
    assert_eq!(m.get("x"), None);
    m.insert("m".to_string(), 1);
    m.insert("c".to_string(), 2);
    m.insert("x".to_string(), 3);
    m.insert("c".to_string(), 4);
    assert_eq!(m.get("c"), Some(&4));
    assert_eq!(m.get("m"), Some(&1));
    assert_eq!(m.get("d"), None);
    let keys: Vec<&str> = m.as_slice().iter().map(|e| e.0.as_str()).collect();
    assert_eq!(keys, vec!["c", "m", "x"]);
}

#[test]
fn strmap_swap_value() {
    let mut m: StrMap<i32> = StrMap::new();
    m.insert("k".to_string(), 1);
    let mut v = 5;
    assert!(m.swap_value("k", &mut v));
    assert_eq!(v, 1);
    assert_eq!(m.get("k"), Some(&5));
    let mut w = 9;
    assert!(!m.swap_value("absent", &mut w));
    assert_eq!(w, 9);
    assert_eq!(m.get("absent"), None);
}
