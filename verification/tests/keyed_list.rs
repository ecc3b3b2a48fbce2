use statekit::cache::keyed_list::KeyedList;

#[test]
fn keyed_list_maps_each_key_once() {
    let mut list: KeyedList<u8> = KeyedList::new();
    assert_eq!(list.len(), 0);
    assert_eq!(list.insert("a".to_string(), 1), None);
    assert_eq!(list.insert("b".to_string(), 2), None);
    assert_eq!(list.insert("a".to_string(), 3), Some(1));
    assert_eq!(list.len(), 2);
    assert_eq!(list.get("a"), Some(&3));
    assert_eq!(list.get("b"), Some(&2));
    assert_eq!(list.get(""), None);
}

#[test]
fn keyed_list_remove_and_clear() {
    let mut list: KeyedList<u8> = KeyedList::with_capacity(4);
    list.insert("a".to_string(), 1);
    list.insert("b".to_string(), 2);
    list.insert("c".to_string(), 3);
    assert_eq!(list.remove("b"), Some(2));
    assert_eq!(list.remove("b"), None);
    assert_eq!(list.len(), 2);
    assert_eq!(list.get("a"), Some(&1));
    assert_eq!(list.get("c"), Some(&3));
    list.clear();
    assert_eq!(list.len(), 0);
    assert_eq!(list.get("a"), None);
}

#[test]
fn keyed_list_pairs_can_be_walked() {
    let mut list: KeyedList<u8> = KeyedList::new();
    list.insert("a".to_string(), 1);
    list.insert("b".to_string(), 2);
    let mut seen = Vec::new();
    for i in 0..list.len() {
        let (key, value) = list.pair_at(i);
        assert_eq!(list.get(key), Some(value));
        seen.push((key.clone(), *value));
    }
    seen.sort();
    assert_eq!(seen, vec![("a".to_string(), 1), ("b".to_string(), 2)]);
}
