use metastasa::embedding_cache::{calculate_embedding, find_similar_embeddings, EmbeddingCache};
use metastasa::text_processor::{Action, Entity, EntityType, Property};

fn normalized(profile: &[u128]) -> Vec<f32> {
    let scaled: Vec<f32> = profile.iter().map(|&s| s as f32 / 255.0).collect();
    let norm: f32 = scaled.iter().map(|x| x * x).sum::<f32>().sqrt();
    if norm > 0.0 {
        scaled.iter().map(|x| x / norm).collect()
    } else {
        scaled
    }
}

#[test]
fn test_calculate_embedding() {
    let text = "кот";
    let embedding = calculate_embedding(text);
    assert_eq!(embedding.len(), 64);

    let norm: f32 = normalized(&embedding).iter().map(|x| x * x).sum::<f32>().sqrt();
    assert!((norm - 1.0).abs() < 0.001 || norm == 0.0);
}

#[test]
fn profile_accumulates_bytes_by_slot() {
    // The UTF-8 encoding of this text is d0 ba d0 be d1 82.
    let embedding = calculate_embedding("кот");
    let expected_head: Vec<u128> = vec![0xd0, 0xba, 0xd0, 0xbe, 0xd1, 0x82];
    assert_eq!(&embedding[..6], &expected_head[..]);
    assert!(embedding[6..].iter().all(|&s| s == 0));

    // 70 bytes of 0x61 wrap around: slots 0..6 get two bytes each.
    let long = "a".repeat(70);
    let wrapped = calculate_embedding(&long);
    assert_eq!(wrapped[0], 2 * 0x61);
    assert_eq!(wrapped[5], 2 * 0x61);
    assert_eq!(wrapped[6], 0x61);
    assert_eq!(wrapped[63], 0x61);
}

#[test]
fn empty_text_has_a_zero_profile() {
    let embedding = calculate_embedding("");
    assert_eq!(embedding.len(), 64);
    assert!(embedding.iter().all(|&s| s == 0));
}

#[test]
fn embedding_is_deterministic() {
    let first = calculate_embedding("кот");
    let second = calculate_embedding("кот");
    assert_eq!(first, second);
}

#[test]
fn test_get_cached_embedding() {
    let mut cache = EmbeddingCache::new();
    let text = "тест";
    let embedding1 = cache.get_cached_embedding(text);
    let embedding2 = cache.get_cached_embedding(text);
    assert_eq!(embedding1, embedding2);
}

#[test]
fn test_embedding_cache() {
    let mut cache = EmbeddingCache::new();
    let embedding1 = cache.get_cached_embedding("кот");
    let embedding2 = cache.get_cached_embedding("кошка");
    assert_eq!(embedding1.len(), 64);
    assert_eq!(embedding2.len(), 64);

    let norm1: f32 = normalized(&embedding1).iter().map(|x| x * x).sum::<f32>().sqrt();
    let norm2: f32 = normalized(&embedding2).iter().map(|x| x * x).sum::<f32>().sqrt();
    assert!((norm1 - 1.0).abs() < 0.001 || norm1 == 0.0);
    assert!((norm2 - 1.0).abs() < 0.001 || norm2 == 0.0);

    let embedding1_cached = cache.get_cached_embedding("кот");
    assert_eq!(embedding1, embedding1_cached);
}

#[test]
fn embedding_cache_test_cache_stats() {
    let cache = EmbeddingCache::new();
    let stats = cache.get_cache_stats();
    assert!(stats.total_embeddings == 0);
    assert!(stats.entity_embeddings == 0);
    assert!(stats.action_embeddings == 0);
    assert!(stats.property_embeddings == 0);
}

#[test]
fn text_processing_test_cache_stats() {
    let mut cache = EmbeddingCache::new();
    cache.get_cached_embedding("кот");
    cache.get_cached_embedding("кот");
    cache.get_cached_embedding("рыба");
    cache.get_entity_embedding(&Entity { text: "кот".to_string(), entity_type: EntityType::Person });
    let stats = cache.get_cache_stats();
    assert_eq!(stats.total_embeddings, 2);
    assert_eq!(stats.entity_embeddings, 1);
    assert_eq!(stats.action_embeddings, 0);
    assert_eq!(stats.property_embeddings, 0);
}

#[test]
fn provenance_tables_do_not_collide() {
    let mut cache = EmbeddingCache::new();
    let raw = cache.get_cached_embedding("кот");
    let entity = cache.get_entity_embedding(&Entity {
        text: "кот".to_string(),
        entity_type: EntityType::Person,
    });
    // The same surface text lands in independent tables under
    // role-specific keys, with the same pure profile.
    assert_eq!(raw, entity);
    let stats = cache.get_cache_stats();
    assert_eq!(stats.total_embeddings, 1);
    assert_eq!(stats.entity_embeddings, 1);
}

#[test]
fn action_and_property_profiles_cover_the_joined_text() {
    let mut cache = EmbeddingCache::new();
    let action = Action {
        subject: "кот".to_string(),
        verb: "ест".to_string(),
        object: "рыбу".to_string(),
    };
    let from_action = cache.get_action_embedding(&action);
    assert_eq!(from_action, calculate_embedding("кот ест рыбу"));
    let again = cache.get_action_embedding(&action);
    assert_eq!(from_action, again);

    let property = Property {
        entity: "рыба".to_string(),
        attribute: "водится".to_string(),
        value: "море".to_string(),
    };
    let from_property = cache.get_property_embedding(&property);
    assert_eq!(from_property, calculate_embedding("рыба водится море"));
    let stats = cache.get_cache_stats();
    assert_eq!(stats.action_embeddings, 1);
    assert_eq!(stats.property_embeddings, 1);
}

#[test]
fn shared_role_keys_cannot_change_results() {
    // These two actions join to the same provenance key "a:b:c:d",
    // but each call still returns the profile of its own joined text.
    let mut cache = EmbeddingCache::new();
    let first = Action {
        subject: "a:b".to_string(),
        verb: "c".to_string(),
        object: "d".to_string(),
    };
    let second = Action {
        subject: "a".to_string(),
        verb: "b:c".to_string(),
        object: "d".to_string(),
    };
    let from_first = cache.get_action_embedding(&first);
    let from_second = cache.get_action_embedding(&second);
    assert_eq!(from_first, calculate_embedding("a:b c d"));
    assert_eq!(from_second, calculate_embedding("a b:c d"));
    assert_ne!(from_first, from_second);
    assert_eq!(cache.get_cache_stats().action_embeddings, 1);
}

#[test]
fn entity_type_labels_match_their_variants() {
    assert_eq!(EntityType::Person.label(), "Person");
    assert_eq!(EntityType::Date.label(), "Date");
    assert_eq!(EntityType::ScientificTerm.label(), "ScientificTerm");
    assert_eq!(EntityType::Unknown.label(), "Unknown");
}

#[test]
fn embedding_cache_test_find_similar_embeddings() {
    // Order-encoded scores of a query against an identical, an
    // orthogonal, and a partially similar candidate.
    let scores: Vec<u64> = vec![100, 0, 71];
    let similar = find_similar_embeddings(&scores, 2);
    assert_eq!(similar.len(), 2);
    assert_eq!(similar[0].0, 0);
    assert_eq!(similar, vec![(0, 100), (2, 71)]);
}

#[test]
fn text_processing_test_find_similar_embeddings() {
    let scores: Vec<u64> = vec![100, 0, 71];
    let similar = find_similar_embeddings(&scores, 2);
    assert_eq!(similar.len(), 2);
    assert_eq!(similar[0].0, 0);
    assert!(similar[0].1 > similar[1].1);
}

#[test]
fn ranking_breaks_ties_by_ascending_index() {
    let scores: Vec<u64> = vec![5, 9, 9, 5];
    let ranked = find_similar_embeddings(&scores, 4);
    assert_eq!(ranked, vec![(1, 9), (2, 9), (0, 5), (3, 5)]);
}

#[test]
fn ranking_handles_small_and_large_k() {
    let scores: Vec<u64> = vec![3, 1];
    assert_eq!(find_similar_embeddings(&scores, 0), vec![]);
    assert_eq!(find_similar_embeddings(&scores, 10), vec![(0, 3), (1, 1)]);
    assert_eq!(find_similar_embeddings(&Vec::new(), 5), vec![]);
}

#[test]
fn cleanup_currently_retains_everything() {
    let mut cache = EmbeddingCache::new();
    cache.get_cached_embedding("кот");
    cache.cleanup_old_embeddings(0);
    assert_eq!(cache.get_cache_stats().total_embeddings, 1);
}
