use voice_core::tts_cache::{generate_cache_key, TtsCache, TtsCacheParams};

fn test_params(text: &str) -> TtsCacheParams {
    TtsCacheParams {
        text: text.to_string(),
        model: "test-model".to_string(),
        speed_milli: 1000,
        style_id: None,
        speaker_id: None,
        pitch_milli: None,
    }
}

#[test]
fn cache_key_deterministic() {
    let p = test_params("hello");
    let k1 = generate_cache_key(&p);
    let k2 = generate_cache_key(&p);
    assert_eq!(k1, k2);
    assert_eq!(k1.len(), 64);
}

#[test]
fn cache_key_differs_for_different_text() {
    let k1 = generate_cache_key(&test_params("hello"));
    let k2 = generate_cache_key(&test_params("world"));
    assert_ne!(k1, k2);
}

#[test]
fn cache_key_differs_for_different_speed() {
    let mut p1 = test_params("hello");
    p1.model = "m".to_string();
    let mut p2 = test_params("hello");
    p2.model = "m".to_string();
    p2.speed_milli = 1500;
    assert_ne!(generate_cache_key(&p1), generate_cache_key(&p2));
}

#[test]
fn miss_then_hit() {
    let mut cache = TtsCache::in_memory(100);
    let params = test_params("hello");

    assert!(cache.lookup(&params).is_none());

    let audio = vec![1u8, 2, 3, 4, 5];
    cache.insert(&params, "raw", &audio, 100);

    let hit = cache.lookup(&params).unwrap();
    assert_eq!(hit.audio_data, audio);
    assert_eq!(hit.audio_format, "raw");
    assert_eq!(hit.duration_ms, 100);
}

#[test]
fn use_count_increments() {
    let mut cache = TtsCache::in_memory(100);
    let params = test_params("count-test");
    let audio = vec![0u8; 10];

    cache.insert(&params, "raw", &audio, 50);

    for _ in 0..3 {
        cache.lookup(&params).unwrap();
    }

    // One from the insert plus three lookups.
    assert_eq!(cache.use_count(&params), Some(4));
}

#[test]
fn total_size_tracking() {
    let mut cache = TtsCache::in_memory(100);

    assert_eq!(cache.total_size_bytes(), 0);

    let audio = vec![0u8; 1000];
    cache.insert(&test_params("a"), "raw", &audio, 10);
    assert_eq!(cache.total_size_bytes(), 1000);

    cache.insert(&test_params("b"), "raw", &audio, 10);
    assert_eq!(cache.total_size_bytes(), 2000);
}

#[test]
fn entry_count() {
    let mut cache = TtsCache::in_memory(100);
    assert_eq!(cache.entry_count(), 0);

    cache.insert(&test_params("a"), "raw", &[0; 10], 10);
    cache.insert(&test_params("b"), "raw", &[0; 10], 10);
    assert_eq!(cache.entry_count(), 2);
}

#[test]
fn lru_eviction() {
    let mut cache = TtsCache::with_limit_bytes(100);

    let audio_50 = vec![0u8; 50];

    cache.insert(&test_params("a"), "raw", &audio_50, 10);
    assert_eq!(cache.entry_count(), 1);

    cache.insert(&test_params("b"), "raw", &audio_50, 10);
    assert_eq!(cache.entry_count(), 2);

    // Touch the first entry so the second becomes least recently used.
    cache.lookup(&test_params("a"));

    // A third 50-byte entry pushes the total past the limit: the least
    // recently used entry leaves.
    cache.insert(&test_params("c"), "raw", &audio_50, 10);

    assert!(cache.total_size_bytes() <= 100);
    assert!(cache.lookup(&test_params("b")).is_none());
    assert!(cache.lookup(&test_params("a")).is_some());
    assert!(cache.lookup(&test_params("c")).is_some());
}

#[test]
fn clear_removes_all() {
    let mut cache = TtsCache::in_memory(100);
    cache.insert(&test_params("a"), "raw", &[0; 10], 10);
    cache.insert(&test_params("b"), "raw", &[0; 10], 10);

    cache.clear();
    assert_eq!(cache.entry_count(), 0);
    assert_eq!(cache.total_size_bytes(), 0);
}

#[test]
fn insert_or_replace_same_key() {
    let mut cache = TtsCache::in_memory(100);
    let params = test_params("replace-test");

    cache.insert(&params, "raw", &[1, 2, 3], 30);
    cache.insert(&params, "raw", &[4, 5, 6, 7], 40);

    assert_eq!(cache.entry_count(), 1);
    let hit = cache.lookup(&params).unwrap();
    assert_eq!(hit.audio_data, vec![4, 5, 6, 7]);
    assert_eq!(hit.duration_ms, 40);
}

#[test]
fn style_and_speaker_in_key() {
    let p1 = TtsCacheParams {
        text: "hello".to_string(),
        model: "m".to_string(),
        speed_milli: 1000,
        style_id: Some(1),
        speaker_id: Some(10),
        pitch_milli: Some(500),
    };
    let p2 = TtsCacheParams {
        text: "hello".to_string(),
        model: "m".to_string(),
        speed_milli: 1000,
        style_id: Some(2),
        speaker_id: Some(10),
        pitch_milli: Some(500),
    };
    assert_ne!(generate_cache_key(&p1), generate_cache_key(&p2));
}

#[test]
fn oversized_audio_empties_the_table() {
    let mut cache = TtsCache::with_limit_bytes(10);
    cache.insert(&test_params("big"), "raw", &[0u8; 11], 10);
    assert_eq!(cache.entry_count(), 0);
    assert_eq!(cache.total_size_bytes(), 0);
}

#[test]
fn cache_key_escapes_text() {
    // Quotes and backslashes in the text still yield distinct keys.
    let k1 = generate_cache_key(&test_params("a\"b"));
    let k2 = generate_cache_key(&test_params("a\\b"));
    assert_ne!(k1, k2);
    assert_eq!(k1.len(), 64);
}
