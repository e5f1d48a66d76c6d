use clawhive::store::{compare_keys, starts_with, InMemoryStore, KeyOrder, Store};

#[test]
fn read_after_write_and_delete() {
    let mut s = InMemoryStore::new();
    assert_eq!(s.get_raw("a"), Ok(None));
    s.set_raw("a", vec![1, 2]).unwrap();
    s.set_raw("b", vec![3]).unwrap();
    assert_eq!(s.get_raw("a"), Ok(Some(vec![1, 2])));
    s.set_raw("a", vec![9]).unwrap();
    assert_eq!(s.get_raw("a"), Ok(Some(vec![9])));
    assert_eq!(s.key_exists("b"), Ok(true));
    s.delete("b").unwrap();
    assert_eq!(s.key_exists("b"), Ok(false));
    assert_eq!(s.get_raw("b"), Ok(None));
    s.delete("missing").unwrap();
    assert_eq!(s.get_raw("a"), Ok(Some(vec![9])));
}

#[test]
fn prefix_scan_is_sorted_and_complete() {
    let mut s = InMemoryStore::new();
    s.set_raw("agent:2", vec![2]).unwrap();
    s.set_raw("task:1", vec![7]).unwrap();
    s.set_raw("agent:1", vec![1]).unwrap();
    s.set_raw("agent:10", vec![10]).unwrap();
    let scanned = s.scan_prefix_raw("agent:").unwrap();
    let keys: Vec<&str> = scanned.iter().map(|(k, _)| k.as_str()).collect();
    assert_eq!(keys, vec!["agent:1", "agent:10", "agent:2"]);
    assert_eq!(scanned[1].1, vec![10]);
    assert_eq!(s.list_keys("task").unwrap(), vec!["task:1".to_string()]);
    assert_eq!(s.list_keys("").unwrap().len(), 4);
    assert!(s.list_keys("zzz").unwrap().is_empty());
}

#[test]
fn clear_empties_the_store() {
    let mut s = InMemoryStore::new();
    s.set_raw("x", vec![0]).unwrap();
    s.clear().unwrap();
    assert_eq!(s.list_keys("").unwrap(), Vec::<String>::new());
}

#[test]
fn store_trait_dispatches_to_the_in_memory_store() {
    fn roundtrip<S: Store>(s: &mut S) -> Option<Vec<u8>> {
        s.set_raw("k", vec![5]).unwrap();
        s.get_raw("k").unwrap()
    }
    let mut s = InMemoryStore::new();
    assert_eq!(roundtrip(&mut s), Some(vec![5]));
}

#[test]
fn key_order_and_prefix() {
    let a: Vec<char> = "ab".chars().collect();
    let b: Vec<char> = "abc".chars().collect();
    let c: Vec<char> = "b".chars().collect();
    assert_eq!(compare_keys(&a, &b), KeyOrder::Less);
    assert_eq!(compare_keys(&c, &b), KeyOrder::Greater);
    assert_eq!(compare_keys(&a, &a), KeyOrder::Equal);
    assert!(starts_with(&b, &a));
    assert!(!starts_with(&a, &b));
}
