use i18nrs::keymap::KeyMap;

#[test]
fn insert_keeps_each_key_once() {
    let mut map = KeyMap::new();
    assert!(map.is_empty());
    assert_eq!(map.insert("name".to_string(), "Bla".to_string()), None);
    assert_eq!(
        map.insert("name".to_string(), "Bla Bla".to_string()),
        Some("Bla".to_string())
    );
    assert_eq!(map.len(), 1);
    assert_eq!(map.get("name"), Some(&"Bla Bla".to_string()));
}

#[test]
fn keys_are_kept_in_their_order() {
    let mut map = KeyMap::new();
    for key in ["b", "a", "d", "c", "ab", "é", "Z"] {
        map.insert(key.to_string(), String::new());
    }
    let mut keys = Vec::new();
    for i in 0..map.len() {
        keys.push(map.key_at(i).clone());
    }
    assert_eq!(keys, vec!["Z", "a", "ab", "b", "c", "d", "é"]);
}

#[test]
fn remove_takes_the_key_out() {
    let mut map = KeyMap::new();
    map.insert("a".to_string(), "1".to_string());
    map.insert("b".to_string(), "2".to_string());
    assert_eq!(map.remove("a"), Some("1".to_string()));
    assert_eq!(map.remove("a"), None);
    assert!(!map.contains_key("a"));
    assert!(map.contains_key("b"));
    assert_eq!(map.value_at(0), "2");
}

#[test]
fn a_map_without_the_key_gives_nothing() {
    let mut map = KeyMap::new();
    assert_eq!(map.get("a"), None);
    assert!(!map.contains_key("a"));
    assert_eq!(map.remove("a"), None);
    map.insert("b".to_string(), "2".to_string());
    assert_eq!(map.get("a"), None);
    assert_eq!(map.get("c"), None);
    assert_eq!(map.get(""), None);
}

#[test]
fn many_keys_are_found_again() {
    let mut map = KeyMap::new();
    for i in 0..200 {
        let key = format!("key{}", (i * 37) % 200);
        assert_eq!(map.insert(key, i.to_string()), None);
    }
    assert_eq!(map.len(), 200);
    for i in 0..200 {
        let key = format!("key{}", (i * 37) % 200);
        assert_eq!(map.get(&key), Some(&i.to_string()));
    }
    for i in 1..map.len() {
        assert!(map.key_at(i - 1) < map.key_at(i));
    }
    for i in 0..100 {
        assert!(map.remove(&format!("key{}", i)).is_some());
    }
    assert_eq!(map.len(), 100);
    assert!(!map.contains_key("key5"));
    assert!(map.contains_key("key150"));
}

#[test]
fn clone_holds_the_same_entries() {
    let mut map = KeyMap::new();
    map.insert("a".to_string(), "1".to_string());
    let copy = map.clone();
    assert_eq!(copy, map);
    map.insert("b".to_string(), "2".to_string());
    assert_ne!(copy, map);
    assert_eq!(copy.len(), 1);
}
