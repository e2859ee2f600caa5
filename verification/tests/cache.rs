use schemalint::cache::{hash_bytes, Cache, MAX_MEMORY_ENTRIES};
use schemalint::json::parse_json_text;
use schemalint::normalize::pipeline::{normalize, NormalizedSchema};

fn schema() -> NormalizedSchema {
    normalize(&parse_json_text(r#"{"type":"object"}"#).unwrap()).unwrap()
}

#[test]
fn hit_needs_the_same_bytes() {
    let mut cache = Cache::new();
    assert!(cache.is_empty());
    let bytes = b"{\"type\":\"object\"}".to_vec();
    let h = hash_bytes(&bytes);
    assert_eq!(h, hash_bytes(&bytes));
    cache.insert(h, bytes.clone(), schema());
    assert_eq!(cache.len(), 1);
    assert!(cache.get(h, &bytes).is_some());
    assert!(cache.get(h, b"other").is_none());
    assert!(cache.get(h.wrapping_add(1), &bytes).is_none());
    cache.insert(h, bytes.clone(), schema());
    assert_eq!(cache.len(), 1);
    cache.clear();
    assert!(cache.is_empty());
    assert!(cache.get(h, &bytes).is_none());
}

#[test]
fn full_cache_evicts_the_oldest() {
    let mut cache = Cache::new();
    for k in 0..MAX_MEMORY_ENTRIES as u64 {
        cache.insert(k, vec![k as u8], schema());
    }
    assert_eq!(cache.len(), MAX_MEMORY_ENTRIES);
    cache.insert(5000, vec![1], schema());
    assert_eq!(cache.len(), MAX_MEMORY_ENTRIES);
    assert!(cache.get(0, &[0]).is_none());
    assert!(cache.get(1, &[1]).is_some());
    assert!(cache.get(5000, &[1]).is_some());
}
