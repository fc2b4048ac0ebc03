use forestry::ordered_map::OrderedMap;

#[test]
fn new_map_is_empty() {
    let map: OrderedMap<u32> = OrderedMap::new();
    assert_eq!(map.len(), 0);
    assert!(map.is_empty());
    assert_eq!(map.position(&"a".to_string()), None);
}

#[test]
fn entries_keep_insertion_order() {
    let mut map = OrderedMap::new();
    assert_eq!(map.insert("zeta".to_string(), 1), None);
    assert_eq!(map.insert("alpha".to_string(), 2), None);
    assert_eq!(map.insert("mid".to_string(), 3), None);
    assert_eq!(map.len(), 3);
    assert!(!map.is_empty());
    assert_eq!(map.key(0), "zeta");
    assert_eq!(map.key(1), "alpha");
    assert_eq!(map.key(2), "mid");
    assert_eq!(*map.value(0), 1);
    assert_eq!(*map.value(1), 2);
    assert_eq!(*map.value(2), 3);
    assert_eq!(map.position(&"alpha".to_string()), Some(1));
    assert_eq!(map.position(&"none".to_string()), None);
}

#[test]
fn inserting_a_present_key_replaces_its_value_in_place() {
    let mut map = OrderedMap::new();
    map.insert("a".to_string(), "one".to_string());
    map.insert("b".to_string(), "two".to_string());
    assert_eq!(map.insert("a".to_string(), "three".to_string()), Some("one".to_string()));
    assert_eq!(map.len(), 2);
    assert_eq!(map.key(0), "a");
    assert_eq!(map.value(0), "three");
    assert_eq!(map.key(1), "b");
    assert_eq!(map.value(1), "two");
}

#[test]
fn entries_can_be_taken_out_in_order() {
    let mut map = OrderedMap::new();
    map.insert("x".to_string(), 10);
    map.insert("y".to_string(), 20);
    map.insert("x".to_string(), 30);
    assert_eq!(map.into_entries(), vec![("x".to_string(), 30), ("y".to_string(), 20)]);
}
