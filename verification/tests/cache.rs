use alexa_cli::cache::{key_for, Cache};

#[test]
fn key_is_stable_and_content_addressed() {
    let a = key_for(b"hello");
    let b = key_for(b"hello");
    let c = key_for(b"world");
    assert_eq!(a, b);
    assert_ne!(a, c);
    assert_eq!(a.len(), 64); // blake3 hex
}

#[test]
fn key_is_the_blake3_hex_digest() {
    assert_eq!(key_for(b"hello"), blake3::hash(b"hello").to_hex().to_string());
    assert_eq!(
        key_for(b""),
        "af1349b9f5f9a1a6a0404dea36dcc9499bcb25c9adc112b7cc9a93cae41f3262"
    );
}

#[test]
fn put_then_get_roundtrips_in_memory() {
    let mut cache = Cache::empty_for_test();
    assert_eq!(cache.get("k"), None);
    cache.put_mem("k", "the time is noon");
    assert_eq!(cache.get("k"), Some("the time is noon".to_string()));
}

#[test]
fn later_put_replaces_and_leaves_other_keys() {
    let mut cache = Cache::empty_for_test();
    cache.put_mem("a", "one");
    cache.put_mem("b", "two");
    cache.put_mem("a", "three");
    assert_eq!(cache.get("a"), Some("three".to_string()));
    assert_eq!(cache.get("b"), Some("two".to_string()));
    assert_eq!(cache.entries().len(), 2);
}

#[test]
fn cache_from_entries_keeps_the_last_value_per_key() {
    let cache = Cache::from_entries(
        "/tmp/c.json".to_string(),
        vec![
            ("x".to_string(), "1".to_string()),
            ("y".to_string(), "2".to_string()),
            ("x".to_string(), "3".to_string()),
        ],
    );
    assert_eq!(cache.path(), "/tmp/c.json");
    assert_eq!(cache.get("x"), Some("3".to_string()));
    assert_eq!(cache.get("y"), Some("2".to_string()));
    assert_eq!(cache.get("z"), None);
}

#[test]
fn cache_file_is_under_the_alexa_dir() {
    assert!(Cache::file_path().ends_with(".alexa/cache.json"));
}

#[test]
fn cache_read_from_file_text() {
    let c = Cache::from_file_text(
        "/tmp/c.json".to_string(),
        Some(r#"{"k1": "noon", "k2": "rain"}"#),
    );
    assert_eq!(c.get("k1"), Some("noon".to_string()));
    assert_eq!(c.get("k2"), Some("rain".to_string()));
    assert_eq!(c.entries().len(), 2);
    assert_eq!(c.path(), "/tmp/c.json");
    let bad = Cache::from_file_text("/tmp/c.json".to_string(), Some("[1, 2]"));
    assert!(bad.entries().is_empty());
    let none = Cache::from_file_text("/tmp/c.json".to_string(), None);
    assert!(none.entries().is_empty());
}
