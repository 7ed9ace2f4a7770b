use zws::seamap::{text_hash, SeaMap, BUCKETS};
use zws::strmap::StrMap;

#[test]
fn strmap_starts_empty() {
    let m: StrMap<u32> = StrMap::new();
    assert_eq!(m.len(), 0);
    assert_eq!(m.get("a"), None);
    assert!(!m.contains_key("a"));
}

#[test]
fn strmap_insert_get_remove() {
    let mut m: StrMap<u32> = StrMap::new();
    assert_eq!(m.insert("a".to_string(), 1), None);
    assert_eq!(m.insert("b".to_string(), 2), None);
    assert_eq!(m.len(), 2);
    assert_eq!(m.get("a"), Some(&1));
    assert_eq!(m.get("b"), Some(&2));
    assert_eq!(m.get("c"), None);
    assert_eq!(m.remove("a"), Some(1));
    assert_eq!(m.remove("a"), None);
    assert_eq!(m.get("a"), None);
    assert_eq!(m.get("b"), Some(&2));
    assert_eq!(m.len(), 1);
}

#[test]
fn strmap_insert_replaces_and_keeps_the_place() {
    let mut m: StrMap<u32> = StrMap::new();
    m.insert("a".to_string(), 1);
    m.insert("b".to_string(), 2);
    m.insert("c".to_string(), 3);
    assert_eq!(m.insert("b".to_string(), 20), Some(2));
    assert_eq!(m.len(), 3);
    assert_eq!(m.key_at(0), "a");
    assert_eq!(m.key_at(1), "b");
    assert_eq!(m.key_at(2), "c");
    assert_eq!(*m.value_at(1), 20);
}

#[test]
fn strmap_clone_is_equal() {
    let mut m: StrMap<String> = StrMap::new();
    m.insert("x".to_string(), "1".to_string());
    m.insert("y".to_string(), "2".to_string());
    let c = m.clone();
    m.remove("x");
    assert_eq!(c.len(), 2);
    assert_eq!(c.get("x"), Some(&"1".to_string()));
    assert_eq!(c.get("y"), Some(&"2".to_string()));
    assert_eq!(c.key_at(0), "x");
}

#[test]
fn text_hash_is_seahash_of_the_bytes() {
    for key in ["", "a", "webroot/index.html", "héllo", "/user/:fname/:lname/:age"] {
        assert_eq!(text_hash(key), seahash::reference::hash(key.as_bytes()), "{:?}", key);
    }
    assert_ne!(text_hash("a"), text_hash("b"));
    assert_eq!(text_hash("to be or not to be"), 1988685042348123509);
}

#[test]
fn seamap_starts_empty() {
    let m: SeaMap<u32> = SeaMap::new();
    assert_eq!(m.bucket_count(), BUCKETS);
    assert_eq!(m.get("a"), None);
    assert!(!m.contains_key("a"));
    let one: SeaMap<u32> = SeaMap::with_buckets(0);
    assert_eq!(one.bucket_count(), 1);
    let seven: SeaMap<u32> = SeaMap::with_buckets(7);
    assert_eq!(seven.bucket_count(), 7);
}

#[test]
fn seamap_puts_each_key_in_the_bucket_of_its_hash() {
    let mut m: SeaMap<u32> = SeaMap::with_buckets(16);
    let keys = ["a", "b", "webroot/index.html", "webroot/css/site.css", "héllo"];
    for (i, key) in keys.iter().enumerate() {
        m.insert(key.to_string(), i as u32);
    }
    let mut expected = vec![0usize; 16];
    for key in keys.iter() {
        expected[(seahash::reference::hash(key.as_bytes()) % 16) as usize] += 1;
    }
    for b in 0..16 {
        assert_eq!(m.bucket_len(b), expected[b], "bucket {}", b);
    }
}

#[test]
fn seamap_insert_get_remove() {
    for buckets in [1usize, 2, 3, 256] {
        let mut m: SeaMap<u32> = SeaMap::with_buckets(buckets);
        for i in 0..200u32 {
            assert_eq!(m.insert(format!("key-{}", i), i), None);
        }
        for i in 0..200u32 {
            assert_eq!(m.get(&format!("key-{}", i)), Some(&i));
        }
        assert_eq!(m.get("key-200"), None);
        assert_eq!(m.insert("key-7".to_string(), 70), Some(7));
        assert_eq!(m.get("key-7"), Some(&70));
        assert_eq!(m.remove("key-7"), Some(70));
        assert_eq!(m.remove("key-7"), None);
        assert!(!m.contains_key("key-7"));
        assert!(m.contains_key("key-8"));
    }
}
