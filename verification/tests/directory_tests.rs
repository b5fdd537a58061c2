use chat::directory::Directory;

#[test]
fn a_directory_keeps_the_order_of_arrival() {
    let mut d: Directory<u32> = Directory::new();
    assert_eq!(d.len(), 0);
    assert_eq!(d.insert("b".to_string(), 2), None);
    assert_eq!(d.insert("a".to_string(), 1), None);
    assert_eq!(d.insert("c".to_string(), 3), None);
    assert_eq!(d.names(), vec!["b", "a", "c"]);
    assert_eq!(d.len(), 3);
    assert_eq!(d.find(&"a".to_string()), Some(1));
    assert_eq!(d.find(&"z".to_string()), None);
    assert!(d.contains(&"c".to_string()));
    assert!(!d.contains(&"C".to_string()));
    assert_eq!(d.get(&"c".to_string()), Some(&3));
}

#[test]
fn insert_replaces_in_place() {
    let mut d: Directory<u32> = Directory::new();
    d.insert("a".to_string(), 1);
    d.insert("b".to_string(), 2);
    assert_eq!(d.insert("a".to_string(), 7), Some(1));
    assert_eq!(d.names(), vec!["a", "b"]);
    assert_eq!(d.get(&"a".to_string()), Some(&7));
    assert_eq!(d.len(), 2);
}

#[test]
fn remove_takes_one_out() {
    let mut d: Directory<u32> = Directory::new();
    d.insert("a".to_string(), 1);
    d.insert("b".to_string(), 2);
    d.insert("c".to_string(), 3);
    assert_eq!(d.remove(&"b".to_string()), Some(2));
    assert_eq!(d.remove(&"b".to_string()), None);
    assert_eq!(d.names(), vec!["a", "c"]);
    assert_eq!(d.get(&"c".to_string()), Some(&3));
}
