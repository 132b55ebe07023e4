use std::collections::HashMap;
use warroom_scribe::ids::{add_id, has_id, keys_of};

#[test]
fn identifiers_are_kept_in_order() {
    let mut ids: Vec<u64> = Vec::new();
    for id in [5, 1, 9, 5, u64::MAX, 0, 9] {
        add_id(&mut ids, id);
    }
    assert_eq!(ids, vec![0, 1, 5, 9, u64::MAX]);
    assert!(has_id(&ids, 9));
    assert!(!has_id(&ids, 2));
}

#[test]
fn keys_are_listed_once() {
    let mut map: HashMap<u32, &str> = HashMap::new();
    map.insert(3, "a");
    map.insert(1, "b");
    map.insert(3, "c");
    let mut keys = keys_of(&map);
    keys.sort();
    assert_eq!(keys, vec![1, 3]);
}
