use meteorite::cache::{
    adapt_max_size, budget_bytes, is_promotion, CacheStatistics, CacheTier, MemoryPressure,
    MIN_CACHE_SIZE,
};

#[test]
fn statistics_count_each_event() {
    let mut s = CacheStatistics::new();
    s.record_hit(40);
    s.record_hit(2);
    s.record_miss();
    s.record_eviction();
    s.record_promotion();
    s.record_demotion();
    s.record_demotion();
    assert_eq!(s.total_hits, 2);
    assert_eq!(s.time_saved_ms, 42);
    assert_eq!(s.total_misses, 1);
    assert_eq!(s.total_evictions, 1);
    assert_eq!(s.tier_promotions, 1);
    assert_eq!(s.tier_demotions, 2);
    assert_eq!(s.bytes_saved, 0);
}

#[test]
fn statistics_counters_wrap() {
    let mut s = CacheStatistics::default();
    s.total_misses = u64::MAX;
    s.record_miss();
    assert_eq!(s.total_misses, 0);
    s.time_saved_ms = u64::MAX - 1;
    s.record_hit(3);
    assert_eq!(s.time_saved_ms, 1);
}

#[test]
fn pressure_adapts_budget() {
    let mb100 = budget_bytes(100);
    assert_eq!(mb100, 104_857_600);
    assert_eq!(adapt_max_size(mb100, None), mb100);
    assert_eq!(adapt_max_size(mb100, Some(MemoryPressure::Low)), 115_343_360);
    assert_eq!(adapt_max_size(mb100, Some(MemoryPressure::Medium)), mb100);
    assert_eq!(adapt_max_size(mb100, Some(MemoryPressure::High)), 94_371_840);
    assert_eq!(adapt_max_size(mb100, Some(MemoryPressure::Critical)), 52_428_800);
    assert_eq!(adapt_max_size(MIN_CACHE_SIZE, Some(MemoryPressure::Critical)), MIN_CACHE_SIZE);
    assert_eq!(adapt_max_size(MIN_CACHE_SIZE, Some(MemoryPressure::High)), MIN_CACHE_SIZE);
    assert_eq!(adapt_max_size(u64::MAX, Some(MemoryPressure::Low)), u64::MAX);
}

#[test]
fn promotion_moves_towards_hot() {
    assert!(is_promotion(CacheTier::Cold, CacheTier::Hot));
    assert!(is_promotion(CacheTier::Warm, CacheTier::Hot));
    assert!(!is_promotion(CacheTier::Hot, CacheTier::Cold));
    assert!(!is_promotion(CacheTier::Warm, CacheTier::Warm));
}
