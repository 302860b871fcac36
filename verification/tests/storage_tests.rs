use banco_memoria::storage::Storage;

#[test]
fn test_add_and_get() {
    let mut storage = Storage::new();

    storage.add("user_1", "Alice");
    assert_eq!(storage.get("user_1"), Some("Alice"));
    assert_eq!(storage.get("missing_key"), None);
    assert_eq!(storage.get_key_by_value("Alice"), Some("user_1"));
    assert_eq!(storage.get_key_by_value("Bob"), None);
}

#[test]
fn test_overwrite() {
    let mut storage = Storage::new();

    storage.add("key", "initial");
    assert_eq!(storage.get_key_by_value("initial"), Some("key"));

    storage.add("key", "updated");
    assert_eq!(storage.get("key"), Some("updated"));
    assert_eq!(storage.get_key_by_value("initial"), None);
    assert_eq!(storage.get_key_by_value("updated"), Some("key"));
}

#[test]
fn test_multiple_keys_same_value() {
    let mut storage = Storage::new();

    storage.add("user_1", "Alice");
    storage.add("user_2", "Alice");

    assert_eq!(storage.get("user_1"), Some("Alice"));
    assert_eq!(storage.get("user_2"), Some("Alice"));

    let key = storage.get_key_by_value("Alice");
    assert!(key == Some("user_1") || key == Some("user_2"));

    // Update user_1, user_2 still has Alice
    storage.add("user_1", "Bob");
    assert_eq!(storage.get_key_by_value("Alice"), Some("user_2"));
    assert_eq!(storage.get_key_by_value("Bob"), Some("user_1"));

    // Update user_2 as well, Alice no longer exists
    storage.add("user_2", "Charlie");
    assert_eq!(storage.get_key_by_value("Alice"), None);
}

#[test]
fn same_value_again_keeps_the_reverse_index() {
    let mut storage = Storage::default();
    storage.add("a", "x");
    storage.add("a", "x");
    assert_eq!(storage.get("a"), Some("x"));
    assert_eq!(storage.get_key_by_value("x"), Some("a"));
    storage.add("a", "y");
    assert_eq!(storage.get_key_by_value("x"), None);
    assert_eq!(storage.get_key_by_value("y"), Some("a"));
}

#[test]
fn empty_key_and_value_are_stored() {
    let mut storage = Storage::new();
    storage.add("", "");
    assert_eq!(storage.get(""), Some(""));
    assert_eq!(storage.get_key_by_value(""), Some(""));
}

#[test]
fn reverse_lookup_after_many_rewrites() {
    let mut storage = Storage::new();
    for i in 0..20 {
        storage.add(&format!("k{i}"), "shared");
    }
    for i in 0..19 {
        storage.add(&format!("k{i}"), &format!("own{i}"));
    }
    assert_eq!(storage.get_key_by_value("shared"), Some("k19"));
    assert_eq!(storage.get_key_by_value("own7"), Some("k7"));
    storage.add("k19", "last");
    assert_eq!(storage.get_key_by_value("shared"), None);
}

#[test]
fn reverse_lookup_answer_stays_for_untouched_values() {
    let mut storage = Storage::new();
    storage.add("a", "x");
    storage.add("b", "x");
    storage.add("c", "y");
    let before = storage.get_key_by_value("x").map(str::to_string);
    storage.add("c", "z");
    assert_eq!(storage.get_key_by_value("x").map(str::to_string), before);
    storage.add("d", "x");
    assert_eq!(storage.get_key_by_value("x").map(str::to_string), before);
    storage.add("b", "x");
    assert_eq!(storage.get_key_by_value("x").map(str::to_string), before);
    assert_eq!(storage.get_key_by_value("z"), Some("c"));
    assert_eq!(storage.get_key_by_value("y"), None);
}
