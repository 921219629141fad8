use meteorite::cache::{evict_candidates, CacheStatistics};
use meteorite::dock::DockingLayout;
use meteorite::ui::{parse_u8, score_items, time_input_change, TimeField};

#[test]
fn score_items_empty_query_lists_everything() {
    assert_eq!(score_items(3, "", &vec![]), vec![(0, 0), (1, 0), (2, 0)]);
}

#[test]
fn score_items_ranks_matches_stably() {
    let scores = vec![Some(2), None, Some(5), Some(2)];
    assert_eq!(score_items(4, "q", &scores), vec![(2, 5), (0, 2), (3, 2)]);
}

#[test]
fn parse_u8_reads_like_std() {
    for text in ["0", "7", "+23", "255", "007", "256", "", "+", "-1", " 1", "1a", "999"] {
        assert_eq!(parse_u8(text), text.parse::<u8>().ok(), "text {text:?}");
    }
}

#[test]
fn time_input_change_clamps_the_typed_field() {
    assert_eq!(time_input_change(10, 30, TimeField::Hours, "99"), Some((23, 30)));
    assert_eq!(time_input_change(10, 30, TimeField::Hours, "7"), Some((7, 30)));
    assert_eq!(time_input_change(10, 30, TimeField::Minutes, "75"), Some((10, 59)));
    assert_eq!(time_input_change(10, 30, TimeField::Minutes, "x"), None);
    assert_eq!(time_input_change(10, 30, TimeField::Hours, "300"), None);
}

#[test]
fn evict_candidates_removes_the_planned_prefix() {
    let candidates = vec![
        ("a".to_string(), 400u64),
        ("b".to_string(), 300u64),
        ("c".to_string(), 500u64),
    ];
    let mut current = 1_100u64;
    let mut stats = CacheStatistics::new();
    let e = evict_candidates(&candidates, 200, &mut current, 1_000, &mut stats);
    // target is 200 + 100 = 300: the first candidate already frees it
    assert_eq!(e.keys, vec!["a".to_string()]);
    assert_eq!(e.freed, 400);
    assert!(e.enough);
    assert_eq!(current, 700);
    assert_eq!(stats.total_evictions, 1);

    let mut current = 500u64;
    let mut stats = CacheStatistics::new();
    let e = evict_candidates(&candidates, 100, &mut current, 1_000, &mut stats);
    assert!(e.keys.is_empty());
    assert_eq!(current, 500);
    assert_eq!(stats.total_evictions, 0);
}

fn zone_ids(l: &DockingLayout) -> Vec<String> {
    l.zones.iter().map(|(k, _)| k.clone()).collect()
}

#[test]
fn preset_layouts_have_their_zones() {
    let d = DockingLayout::default_preset();
    assert_eq!(
        zone_ids(&d),
        vec!["left", "left_bottom", "right", "center", "bottom_left", "bottom_right"]
    );
    assert!(d.zones[5].1.panels.is_empty());
    assert_eq!(zone_ids(&DockingLayout::minimal_preset()), vec!["left", "center"]);
    let w = DockingLayout::wide_preset();
    assert_eq!(zone_ids(&w), vec!["left", "center", "right"]);
    assert_eq!(w.zones[2].1.panels, vec!["transformations_panel".to_string(), "flow_view".to_string()]);
    assert_eq!(zone_ids(&DockingLayout::focus_preset()), vec!["center"]);
    assert!(d.floating_panels.is_empty());
}
