use aura_compression::accelerator::{
    ConversationAccelerator, PlatformAccelerator,
};
use aura_compression::conversation::{CachedPattern, ConversationCache};
use aura_compression::metadata::{compute_metadata_signature, MetadataEntry, MetadataKind};
use aura_compression::ratio::Ratio;

fn as_float(ratio: Ratio) -> f64 {
    ratio.numerator as f64 / ratio.denominator as f64
}

fn template(value: u16) -> Vec<MetadataEntry> {
    vec![MetadataEntry::new(0, MetadataKind::Template, value)]
}

#[test]
fn test_conversation_cache() {
    let mut cache = ConversationCache::new(100);

    let metadata = vec![MetadataEntry::new(0, MetadataKind::Template, 7)];
    let payload = vec![1, 2, 3, 4];

    assert!(cache.lookup(&metadata).is_none());
    assert_eq!(as_float(cache.get_hit_rate()), 0.0);

    cache.store(metadata.clone(), payload.clone(), Some("test".to_string()));

    assert!(cache.lookup(&metadata).is_some());
    assert!(as_float(cache.get_hit_rate()) > 0.0);
}

#[test]
fn test_conversation_accelerator() {
    let mut accelerator = ConversationAccelerator::new(true, false);

    let metadata = vec![MetadataEntry::new(0, MetadataKind::Template, 7)];
    let payload = vec![1, 2, 3, 4];

    let result1 = accelerator.process_message(
        metadata.clone(),
        payload.clone(),
        Some("test".to_string()),
    );
    assert!(!result1.cache_hit);

    let result2 = accelerator.process_message(
        metadata.clone(),
        payload.clone(),
        Some("test".to_string()),
    );
    assert!(result2.cache_hit);

    let stats = accelerator.get_conversation_stats();
    assert_eq!(stats.message_count, 2);
    assert!(as_float(stats.cache_hit_rate) > 0.0);
}

#[test]
fn test_platform_accelerator() {
    let mut platform = PlatformAccelerator::new();

    let metadata = vec![MetadataEntry::new(0, MetadataKind::Template, 7)];

    platform.update_global_patterns(&metadata);
    platform.update_global_patterns(&metadata);

    let top = platform.get_top_patterns(10);
    assert_eq!(top.len(), 1);

    let stats = platform.get_platform_stats();
    assert_eq!(stats.total_patterns, 1);
}

#[test]
fn cached_pattern_starts_unused() {
    let metadata = template(7);
    let signature = compute_metadata_signature(&metadata);
    let pattern = CachedPattern::new(signature, metadata.clone(), vec![9], None, 77);
    assert_eq!(pattern.signature, 0x0001_0007);
    assert_eq!(pattern.metadata, metadata);
    assert_eq!(pattern.compressed_payload, vec![9]);
    assert_eq!(pattern.decompressed_text, None);
    assert_eq!(pattern.hit_count, 0);
    assert_eq!(pattern.last_used, 77);
    let copy = pattern.snapshot();
    assert_eq!(copy.signature, pattern.signature);
    assert_eq!(copy.metadata, pattern.metadata);
    assert_eq!(copy.last_used, 77);
}

#[test]
fn hit_accounting() {
    let mut cache = ConversationCache::new(10);
    assert_eq!(cache.get_hit_rate(), Ratio { numerator: 0, denominator: 1 });
    assert!(cache.lookup_at(&template(1), 1).is_none());
    assert_eq!(cache.get_hit_rate(), Ratio { numerator: 0, denominator: 1 });
    cache.store_at(template(1), vec![1], Some("one".to_string()), 2);
    for now in 3..6 {
        assert!(cache.lookup_at(&template(1), now).is_some());
    }
    assert!(cache.lookup_at(&template(2), 6).is_none());
    assert_eq!(cache.hit_count(), 3);
    assert_eq!(cache.miss_count(), 2);
    assert_eq!(cache.get_hit_rate(), Ratio { numerator: 3, denominator: 5 });
    let stats = cache.get_stats();
    assert_eq!(stats.size, 1);
    assert_eq!(stats.max_size, 10);
    assert_eq!(stats.hits, 3);
    assert_eq!(stats.misses, 2);
    assert_eq!(stats.hit_rate, Ratio { numerator: 3, denominator: 5 });
    assert_eq!(stats.total_patterns, 1);
}

#[test]
fn lookup_counts_and_refreshes_the_entry() {
    let mut cache = ConversationCache::new(10);
    cache.store_at(template(1), vec![1, 2], Some("one".to_string()), 5);
    {
        let found = cache.lookup_at(&template(1), 9).unwrap();
        assert_eq!(found.signature, compute_metadata_signature(&template(1)));
        assert_eq!(found.hit_count, 1);
        assert_eq!(found.last_used, 9);
        assert_eq!(found.compressed_payload, vec![1, 2]);
        assert_eq!(found.decompressed_text.as_deref(), Some("one"));
    }
    let found = cache.lookup_at(&template(1), 12).unwrap();
    assert_eq!(found.hit_count, 2);
    assert_eq!(found.last_used, 12);
}

#[test]
fn store_overwrites_and_resets() {
    let mut cache = ConversationCache::new(10);
    cache.store_at(template(1), vec![1], Some("one".to_string()), 5);
    assert!(cache.lookup_at(&template(1), 6).is_some());
    cache.store_at(template(1), vec![2], None, 7);
    assert_eq!(cache.len(), 1);
    let found = cache.lookup_at(&template(1), 8).unwrap();
    assert_eq!(found.hit_count, 1);
    assert_eq!(found.compressed_payload, vec![2]);
    assert_eq!(found.decompressed_text, None);
}

#[test]
fn cache_of_one_evicts_on_second_store() {
    let mut cache = ConversationCache::new(1);
    let a = template(1);
    let b = template(2);
    cache.store(a.clone(), vec![1], None);
    cache.store(b.clone(), vec![2], None);
    assert_eq!(cache.len(), 1);
    assert!(cache.lookup(&a).is_none());
    assert!(cache.lookup(&b).is_some());
}

#[test]
fn cache_bound_evicts_the_oldest() {
    for capacity in [0usize, 1, 2, 5, 17] {
        let mut cache = ConversationCache::new(capacity);
        for i in 0..=capacity {
            cache.store_at(template(i as u16), vec![], None, 100 + i as u128);
        }
        assert_eq!(cache.len(), capacity);
        assert!(cache.lookup_at(&template(0), 1000).is_none());
        for i in 1..=capacity {
            assert!(cache.lookup_at(&template(i as u16), 1000).is_some());
        }
    }
}

#[test]
fn eviction_follows_last_use_not_insertion() {
    let mut cache = ConversationCache::new(3);
    cache.store_at(template(1), vec![], None, 10);
    cache.store_at(template(2), vec![], None, 20);
    cache.store_at(template(3), vec![], None, 30);
    // The first entry is used again, so the second is now the oldest.
    assert!(cache.lookup_at(&template(1), 40).is_some());
    cache.store_at(template(4), vec![], None, 50);
    assert_eq!(cache.len(), 3);
    assert!(cache.lookup_at(&template(2), 60).is_none());
    assert!(cache.lookup_at(&template(1), 60).is_some());
    assert!(cache.lookup_at(&template(3), 60).is_some());
    assert!(cache.lookup_at(&template(4), 60).is_some());
}

#[test]
fn eviction_of_equal_times_takes_the_lower_signature() {
    let mut cache = ConversationCache::new(2);
    cache.store_at(template(9), vec![], None, 10);
    cache.store_at(template(3), vec![], None, 10);
    cache.store_at(template(5), vec![], None, 10);
    assert!(cache.lookup_at(&template(3), 20).is_none());
    assert!(cache.lookup_at(&template(9), 20).is_some());
    assert!(cache.lookup_at(&template(5), 20).is_some());
}

#[test]
fn storing_a_present_signature_in_a_full_cache_evicts_nothing() {
    let mut cache = ConversationCache::new(2);
    cache.store_at(template(1), vec![], None, 10);
    cache.store_at(template(2), vec![], None, 20);
    cache.store_at(template(1), vec![7], None, 30);
    assert_eq!(cache.len(), 2);
    assert!(cache.lookup_at(&template(1), 40).is_some());
    assert!(cache.lookup_at(&template(2), 40).is_some());
}

#[test]
fn cache_of_capacity_zero_holds_nothing() {
    let mut cache = ConversationCache::new(0);
    cache.store_at(template(1), vec![], None, 10);
    assert_eq!(cache.len(), 0);
    assert!(cache.lookup_at(&template(1), 20).is_none());
    cache.store(template(2), vec![], None);
    assert_eq!(cache.len(), 0);
    assert!(cache.lookup(&template(2)).is_none());
    assert_eq!(cache.miss_count(), 2);
    assert_eq!(cache.hit_count(), 0);
}

#[test]
fn accelerator_miss_then_hit() {
    let mut accelerator = ConversationAccelerator::new(true, true);
    let miss = accelerator.process_message_at(
        template(7),
        vec![1],
        Some("cached".to_string()),
        100,
        2_000_000,
    );
    assert!(!miss.cache_hit);
    assert_eq!(miss.processing_time_ns, 2_000_000);
    assert_eq!(miss.decompressed_text.as_deref(), Some("cached"));
    assert_eq!(miss.speedup, Ratio { numerator: 1, denominator: 1 });

    let hit = accelerator.process_message_at(
        template(7),
        vec![2],
        Some("supplied".to_string()),
        200,
        130_000,
    );
    assert!(hit.cache_hit);
    assert_eq!(hit.processing_time_ns, 130_000);
    assert_eq!(hit.decompressed_text.as_deref(), Some("cached"));
    assert_eq!(hit.speedup, Ratio { numerator: 13_000_000, denominator: 130_000 });
    assert_eq!(as_float(hit.speedup), 100.0);

    let instant = accelerator.process_message_at(template(7), vec![], None, 300, 0);
    assert!(instant.cache_hit);
    assert_eq!(instant.speedup, Ratio { numerator: 1, denominator: 1 });
    assert_eq!(accelerator.message_count(), 3);
}

#[test]
fn conversation_stats_exact_values() {
    let mut accelerator = ConversationAccelerator::new(false, false);
    let empty = accelerator.get_conversation_stats();
    assert_eq!(empty.message_count, 0);
    assert_eq!(empty.cache_hit_rate, Ratio { numerator: 0, denominator: 1 });
    assert_eq!(empty.avg_processing_time_ns, Ratio { numerator: 0, denominator: 1 });
    assert_eq!(empty.early_avg_ns, Ratio { numerator: 0, denominator: 1 });
    assert_eq!(empty.late_avg_ns, Ratio { numerator: 0, denominator: 1 });
    assert_eq!(empty.improvement_factor, Ratio { numerator: 1, denominator: 1 });
    assert_eq!(empty.total_speedup, Ratio { numerator: 1, denominator: 1 });

    let samples = [10_000_000u64, 9_000_000, 8_000_000, 7_000_000];
    for (i, elapsed) in samples.iter().enumerate() {
        accelerator.process_message_at(template(1), vec![], None, i as u128, *elapsed);
    }
    let four = accelerator.get_conversation_stats();
    assert_eq!(four.message_count, 4);
    assert_eq!(four.cache_hit_rate, Ratio { numerator: 3, denominator: 4 });
    assert_eq!(four.avg_processing_time_ns, Ratio { numerator: 34_000_000, denominator: 4 });
    assert_eq!(four.early_avg_ns, Ratio { numerator: 0, denominator: 1 });
    assert_eq!(four.late_avg_ns, Ratio { numerator: 0, denominator: 1 });
    assert_eq!(four.improvement_factor, Ratio { numerator: 1, denominator: 1 });
    assert_eq!(four.total_speedup, Ratio { numerator: 52_000_000, denominator: 34_000_000 });

    for (i, elapsed) in [1_000_000u64, 500_000, 500_000].iter().enumerate() {
        accelerator.process_message_at(template(1), vec![], None, 10 + i as u128, *elapsed);
    }
    let seven = accelerator.get_conversation_stats();
    assert_eq!(seven.message_count, 7);
    assert_eq!(seven.cache_hit_rate, Ratio { numerator: 6, denominator: 7 });
    assert_eq!(seven.avg_processing_time_ns, Ratio { numerator: 36_000_000, denominator: 7 });
    assert_eq!(seven.early_avg_ns, Ratio { numerator: 35_000_000, denominator: 5 });
    assert_eq!(seven.late_avg_ns, Ratio { numerator: 17_000_000, denominator: 5 });
    assert_eq!(seven.improvement_factor, Ratio { numerator: 35_000_000, denominator: 17_000_000 });
    assert_eq!(seven.total_speedup, Ratio { numerator: 91_000_000, denominator: 36_000_000 });
    assert_eq!(seven.cache_stats.size, 1);
    assert_eq!(seven.cache_stats.max_size, 1000);
    assert_eq!(seven.cache_stats.hits, 6);
    assert_eq!(seven.cache_stats.misses, 1);
}

#[test]
fn improvement_is_one_when_late_samples_are_zero() {
    let mut accelerator = ConversationAccelerator::new(false, false);
    for i in 0..5u128 {
        accelerator.process_message_at(template(1), vec![], None, i, 0);
    }
    let stats = accelerator.get_conversation_stats();
    assert_eq!(stats.improvement_factor, Ratio { numerator: 1, denominator: 1 });
    assert_eq!(stats.total_speedup, Ratio { numerator: 1, denominator: 1 });
    assert_eq!(stats.late_avg_ns, Ratio { numerator: 0, denominator: 5 });
}

#[test]
fn conversation_type_thresholds() {
    // Fewer than three messages.
    let mut accelerator = ConversationAccelerator::new(false, false);
    assert_eq!(accelerator.classify_conversation_type(), "unknown");
    accelerator.process_message_at(template(1), vec![], None, 0, 1);
    accelerator.process_message_at(template(1), vec![], None, 1, 1);
    assert_eq!(accelerator.classify_conversation_type(), "unknown");

    // hits of messages: the first message of a signature misses.
    let run = |hits: usize, messages: usize| {
        let mut accelerator = ConversationAccelerator::new(false, false);
        for i in 0..messages {
            let value = if i < messages - hits { i as u16 + 100 } else { 100 };
            accelerator.process_message_at(template(value), vec![], None, i as u128, 1);
        }
        assert_eq!(accelerator.get_conversation_stats().cache_stats.hits, hits);
        accelerator.classify_conversation_type()
    };
    assert_eq!(run(9, 10), "qa");
    assert_eq!(run(5, 6), "qa");
    // Exactly four fifths is not above four fifths.
    assert_eq!(run(4, 5), "chat");
    assert_eq!(run(8, 10), "chat");
    assert_eq!(run(6, 10), "chat");
    // Exactly one half is not above one half.
    assert_eq!(run(5, 10), "support");
    assert_eq!(run(2, 4), "support");
    assert_eq!(run(0, 3), "support");
}

#[test]
fn predictions_need_preload() {
    let mut off = ConversationAccelerator::new(true, false);
    off.process_message_at(template(1), vec![], None, 0, 1);
    assert!(off.predict_next_patterns(&template(1), 5).is_empty());

    let mut on = ConversationAccelerator::new(true, true);
    assert!(on.predict_next_patterns(&template(1), 5).is_empty());
    on.process_message_at(template(1), vec![], None, 0, 1);
    on.process_message_at(template(2), vec![], None, 1, 1);
    on.process_message_at(template(1), vec![], None, 2, 1);
    // Each signature missed once; the lower signature comes first.
    let one = compute_metadata_signature(&template(1));
    let two = compute_metadata_signature(&template(2));
    assert_eq!(on.predict_next_patterns(&[], 5), vec![one, two]);
    assert_eq!(on.predict_next_patterns(&[], 1), vec![one]);
    assert!(on.predict_next_patterns(&[], 0).is_empty());
}

#[test]
fn predictions_count_misses_only_with_learning() {
    let mut accelerator = ConversationAccelerator::new(false, true);
    accelerator.process_message_at(template(1), vec![], None, 0, 1);
    assert!(accelerator.predict_next_patterns(&[], 5).is_empty());
}

#[test]
fn predictions_rank_by_misses() {
    // A cache of 1000 never evicts here, so every signature misses once.
    // Frequencies above one need eviction; use the platform table for those.
    let mut platform = PlatformAccelerator::new();
    for (value, times) in [(1u16, 2usize), (2, 5), (3, 5), (4, 1), (5, 3)] {
        for _ in 0..times {
            platform.update_global_patterns(&template(value));
        }
    }
    let sig = |value: u16| compute_metadata_signature(&template(value));
    assert_eq!(platform.pattern_frequency(&template(2)), 5);
    assert_eq!(platform.pattern_frequency(&template(9)), 0);
    assert_eq!(platform.get_top_patterns(10), vec![sig(2), sig(3), sig(5), sig(1), sig(4)]);
    assert_eq!(platform.get_top_patterns(3), vec![sig(2), sig(3), sig(5)]);
    assert!(platform.get_top_patterns(0).is_empty());
    let stats = platform.get_platform_stats();
    assert_eq!(stats.total_patterns, 5);
    assert_eq!(stats.total_conversations, 0);
    assert!(stats.conversation_types.is_empty());
    assert_eq!(stats.top_10_patterns, vec![sig(2), sig(3), sig(5), sig(1), sig(4)]);
}

#[test]
fn default_platform_is_empty() {
    let platform = PlatformAccelerator::default();
    assert!(platform.get_top_patterns(10).is_empty());
    assert_eq!(platform.get_platform_stats().total_patterns, 0);
}

#[test]
fn every_message_leaves_one_sample() {
    let mut accelerator = ConversationAccelerator::new(true, false);
    for i in 0..7u16 {
        accelerator.process_message(template(i % 3), vec![], None);
        let stats = accelerator.get_conversation_stats();
        assert_eq!(stats.message_count, i as usize + 1);
        assert_eq!(stats.avg_processing_time_ns.denominator, i as u128 + 1);
        assert_eq!(stats.cache_stats.hits + stats.cache_stats.misses, i as usize + 1);
    }
}
