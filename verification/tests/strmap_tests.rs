use logstream::strmap::{str_less, StrMap};

#[test]
fn keys_kept_in_order() {
    let mut m: StrMap<u64> = StrMap::new();
    for k in ["pear", "apple", "fig", "apple", "Zebra"] {
        m.increment(k);
    }
    let keys: Vec<&str> = (0..m.len()).map(|i| m.key_at(i).as_str()).collect();
    assert_eq!(keys, vec!["Zebra", "apple", "fig", "pear"]);
    assert_eq!(m.get("apple"), Some(&2));
    assert_eq!(m.get("fig"), Some(&1));
    assert_eq!(m.get("kiwi"), None);
}

#[test]
fn insert_then_read_back() {
    let mut m: StrMap<String> = StrMap::new();
    m.insert("b".to_string(), "1".to_string());
    m.insert("a".to_string(), "2".to_string());
    m.insert("b".to_string(), "3".to_string());
    assert_eq!(m.len(), 2);
    assert_eq!(m.get("b").map(String::as_str), Some("3"));
    assert_eq!(m.get("a").map(String::as_str), Some("2"));
    let copy = m.duplicate();
    assert_eq!(copy.get("b").map(String::as_str), Some("3"));
}

#[test]
fn string_order() {
    let a: Vec<char> = "ab".chars().collect();
    let b: Vec<char> = "abc".chars().collect();
    let c: Vec<char> = "b".chars().collect();
    assert!(str_less(&a, &b));
    assert!(str_less(&b, &c));
    assert!(!str_less(&c, &a));
    assert!(!str_less(&a, &a));
}
