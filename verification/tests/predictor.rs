use meteorite::cache::plan_eviction;
use meteorite::predictor::{AccessPredictor, MAX_PREDICTOR_PATTERNS, MAX_TRANSITIONS_PER_KEY};

#[test]
fn predictor_ranks_by_count() {
    let mut p = AccessPredictor::new();
    for _ in 0..8 {
        p.record_access(Some("a"), "b");
    }
    p.record_access(Some("a"), "c");
    p.record_access(Some("a"), "c");
    p.record_access(None, "z");
    assert_eq!(p.pattern_count(), 1);
    let (all, total) = p.ranked_transitions("a", false);
    assert_eq!(total, 10);
    assert_eq!(all, vec![("b".to_string(), 8), ("c".to_string(), 2)]);
    let (kept, _) = p.ranked_transitions("a", true);
    assert_eq!(kept, vec![("b".to_string(), 8)]);
    let (none, total) = p.ranked_transitions("zzz", false);
    assert!(none.is_empty());
    assert_eq!(total, 0);
}

#[test]
fn predictor_threshold_is_clamped_and_inclusive() {
    let p = AccessPredictor::with_confidence_threshold(5000);
    assert_eq!(p.confidence_threshold(), 1000);
    let mut q = AccessPredictor::with_confidence_threshold(500);
    q.record_access(Some("x"), "y");
    q.record_access(Some("x"), "w");
    let (kept, total) = q.ranked_transitions("x", true);
    assert_eq!(total, 2);
    assert_eq!(kept.len(), 2);
    assert_eq!(AccessPredictor::default().confidence_threshold(), 700);
}

#[test]
fn predictor_is_bounded_and_clears() {
    let mut p = AccessPredictor::new();
    for i in 0..(MAX_PREDICTOR_PATTERNS + 5) {
        p.record_access(Some(&format!("k{i}")), "t");
    }
    assert_eq!(p.pattern_count(), MAX_PREDICTOR_PATTERNS as usize);
    for i in 0..(MAX_TRANSITIONS_PER_KEY + 5) {
        p.record_access(Some("k0"), &format!("t{i}"));
    }
    let (all, _) = p.ranked_transitions("k0", false);
    assert_eq!(all.len(), MAX_TRANSITIONS_PER_KEY as usize);
    p.clear();
    assert_eq!(p.pattern_count(), 0);
}

#[test]
fn eviction_plan_takes_until_target() {
    // budget holds the new entry: nothing is evicted
    let plan = plan_eviction(&vec![5, 5], 10, 80, 100);
    assert_eq!((plan.evicted, plan.freed, plan.enough), (0, 0, true));
    // target is 30 + 10 = 40: takes 20, 15, 10 (45 >= 40) and stops
    let plan = plan_eviction(&vec![20, 15, 10, 50], 30, 90, 100);
    assert_eq!((plan.evicted, plan.freed, plan.enough), (3, 45, true));
    // not enough candidates
    let plan = plan_eviction(&vec![5, 5], 30, 90, 100);
    assert_eq!((plan.evicted, plan.freed, plan.enough), (2, 10, false));
}
