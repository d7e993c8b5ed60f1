use secret_sync::fields::{Field, FieldMap};

fn field(key: &str, value: &str) -> Field {
    Field { key: key.to_string(), value: value.to_string() }
}

#[test]
fn new_map_is_empty() {
    let map = FieldMap::new();
    assert_eq!(map.len(), 0);
    assert_eq!(map.get("user"), None);
    assert_eq!(map.position("user"), None);
}

#[test]
fn insert_appends_new_keys_in_order() {
    let mut map = FieldMap::new();
    map.insert("user".to_string(), "a".to_string());
    map.insert("pass".to_string(), "b".to_string());
    assert_eq!(map.len(), 2);
    assert_eq!(map.field(0), &field("user", "a"));
    assert_eq!(map.field(1), &field("pass", "b"));
}

#[test]
fn insert_replaces_the_value_of_a_known_key_in_place() {
    let mut map = FieldMap::new();
    map.insert("user".to_string(), "a".to_string());
    map.insert("pass".to_string(), "b".to_string());
    map.insert("user".to_string(), "c".to_string());
    assert_eq!(map.len(), 2);
    assert_eq!(map.field(0), &field("user", "c"));
    assert_eq!(map.field(1), &field("pass", "b"));
}

#[test]
fn get_finds_the_value_under_a_key() {
    let mut map = FieldMap::new();
    map.insert("user".to_string(), "a".to_string());
    map.insert("pass".to_string(), "b".to_string());
    assert_eq!(map.get("pass"), Some(&"b".to_string()));
    assert_eq!(map.get("host"), None);
}

#[test]
fn position_is_the_place_of_the_key() {
    let mut map = FieldMap::new();
    map.insert("user".to_string(), "a".to_string());
    map.insert("pass".to_string(), "b".to_string());
    assert_eq!(map.position("user"), Some(0));
    assert_eq!(map.position("pass"), Some(1));
    assert_eq!(map.position("host"), None);
}

#[test]
fn clone_keeps_fields_and_order() {
    let mut map = FieldMap::new();
    map.insert("user".to_string(), "a".to_string());
    map.insert("pass".to_string(), "b".to_string());
    let copy = map.clone();
    assert_eq!(copy, map);
    assert_eq!(copy.field(0), &field("user", "a"));
    assert_eq!(copy.field(1), &field("pass", "b"));
}

#[test]
fn keys_are_compared_as_whole_texts() {
    let mut map = FieldMap::new();
    map.insert("user".to_string(), "a".to_string());
    map.insert("use".to_string(), "b".to_string());
    map.insert("".to_string(), "c".to_string());
    assert_eq!(map.len(), 3);
    assert_eq!(map.get("use"), Some(&"b".to_string()));
    assert_eq!(map.get(""), Some(&"c".to_string()));
}
