use meteorite::builder::{BuilderError, LayoutBuilder};
use meteorite::layout_node::LayoutNode;
use meteorite::node::SplitDirection;
use meteorite::presets::{CustomPresetData, LayoutPreset, PresetInfo, PRESET_STORAGE_KEY_PREFIX};
use meteorite::tree::LayoutTree;

fn zone_count(p: LayoutPreset) -> usize {
    p.build().expect("preset should build").get_all_zone_ids().len()
}

#[test]
fn preset_by_name_returns_correct_variant() {
    assert!(matches!(LayoutPreset::by_name("default"), Some(LayoutPreset::Default)));
    assert!(matches!(LayoutPreset::by_name("focus"), Some(LayoutPreset::Focus)));
    assert!(matches!(LayoutPreset::by_name("split"), Some(LayoutPreset::SplitView)));
    assert!(matches!(LayoutPreset::by_name("debug"), Some(LayoutPreset::Debug)));
    // Unknown names return Custom variant
    assert!(matches!(LayoutPreset::by_name("something_else"), Some(LayoutPreset::Custom(_))));
}

#[test]
fn presets_build_expected_zones() {
    assert_eq!(zone_count(LayoutPreset::Default), 6);
    assert_eq!(zone_count(LayoutPreset::Focus), 3);
    assert_eq!(zone_count(LayoutPreset::SplitView), 4);
    assert_eq!(zone_count(LayoutPreset::Debug), 6);
}

#[test]
fn default_preset_places_panels() {
    let tree = LayoutPreset::Default.build().unwrap();
    let center = tree.find_panel_zone("flow_view").unwrap();
    assert_eq!(center.0, "center");
    assert_eq!(tree.find_panel_zone("menu_bar").unwrap().0, "menu_zone");
    let zone = tree.find_zone(&center).unwrap().zone_content().unwrap();
    assert_eq!(zone.panels, vec!["main_content", "flow_view"]);
    assert_eq!(zone.active_panel, Some("main_content".to_string()));
    assert_eq!(zone.metadata, vec![("legacy_name".to_string(), "center".to_string())]);
    match tree.root() {
        LayoutNode::Split { direction, ratio, .. } => {
            assert_eq!(*direction, SplitDirection::Vertical);
            // the menu bar's 2% is clamped up to the 10% minimum
            assert_eq!(*ratio, 100);
        }
        _ => panic!("root should be a split"),
    }
}

#[test]
fn custom_preset_build_errors() {
    let e = LayoutPreset::Custom("mine".to_string()).build().unwrap_err();
    assert!(matches!(e, BuilderError::InvalidConfiguration(_)));
    assert!(e.message().starts_with("Invalid configuration: Custom preset 'mine' must be loaded"));
}

#[test]
fn preset_lists() {
    let all = LayoutPreset::all();
    let names: Vec<&str> = all.iter().map(|(n, _)| n.as_str()).collect();
    assert_eq!(names, vec!["default", "focus", "split", "debug"]);
    let infos = PresetInfo::all();
    assert_eq!(infos.len(), 4);
    assert_eq!(infos[1].display_name, "Focus Mode");
    assert_eq!(infos[3].description, "Multiple panels for debugging workflows");
}

#[test]
fn custom_preset_data_key_and_description() {
    let d = CustomPresetData::new_with_timestamp("mine".to_string(), LayoutTree::new(), 42)
        .with_description("a layout");
    assert_eq!(d.storage_key(), format!("{}mine", PRESET_STORAGE_KEY_PREFIX));
    assert_eq!(d.storage_key(), "seaglass_layout_preset_mine");
    assert_eq!(d.saved_at, Some(42));
    assert_eq!(d.description, Some("a layout".to_string()));
    let now = CustomPresetData::new("x".to_string(), LayoutTree::new());
    assert!(now.saved_at.is_some());
}

#[test]
fn builder_errors_and_clamping() {
    let e = LayoutBuilder::new().build().unwrap_err();
    assert!(matches!(e, BuilderError::EmptyLayout));
    assert_eq!(e.message(), "Layout is empty");
    let e = LayoutBuilder::new().split_horizontal().build().err().unwrap();
    assert!(matches!(e, BuilderError::IncompleteSplit));
    assert_eq!(e.message(), "Split node is incomplete");
    let tree = LayoutBuilder::two_column("l", vec!["a", "b"], "r", vec![], 990).unwrap();
    match tree.root() {
        LayoutNode::Split { ratio, .. } => assert_eq!(*ratio, 900),
        _ => panic!("expected split"),
    }
    let l = tree.find_panel_zone("b").unwrap();
    let content = tree.find_zone(&l).unwrap().zone_content().unwrap();
    assert_eq!(content.active_panel, Some("a".to_string()));
}

#[test]
fn builder_zone_metadata_and_active() {
    let tree = LayoutBuilder::new()
        .zone("z")
        .add_panel("p")
        .add_panel("q")
        .add_panel("p")
        .set_active("q")
        .with_metadata("k", "1")
        .with_metadata("k", "2")
        .build()
        .build()
        .unwrap();
    let content = tree.root().zone_content().unwrap();
    assert_eq!(content.panels, vec!["p", "q"]);
    assert_eq!(content.active_panel, Some("q".to_string()));
    assert_eq!(content.metadata, vec![("k".to_string(), "2".to_string())]);
}

#[test]
fn three_column_and_simple_zone() {
    let tree = LayoutBuilder::three_column("l", vec!["a"], "c", vec!["b"], "r", vec!["c1"]).unwrap();
    assert_eq!(tree.get_all_zone_ids().len(), 3);
    match tree.root() {
        LayoutNode::Split { ratio, second, .. } => {
            assert_eq!(*ratio, 200);
            assert!(matches!(**second, LayoutNode::Split { ratio: 750, .. }));
        }
        _ => panic!("expected split"),
    }
    let single = LayoutBuilder::simple_zone("only", vec!["x", "y"]).unwrap();
    assert_eq!(single.find_panel_zone("y").unwrap().0, "only");
}

fn ratios_ok(n: &LayoutNode) -> bool {
    match n {
        LayoutNode::Zone { .. } => true,
        LayoutNode::Split { ratio, first, second, .. } => {
            (100..=900).contains(ratio) && ratios_ok(first) && ratios_ok(second)
        }
        LayoutNode::Container { children, .. } => children.iter().all(ratios_ok),
    }
}

/// What the library can check of a preset's tree: it builds, has zones, each
/// zone is found again, and every split ratio lies within 10%..90%.
fn validate_preset_builds_cleanly(preset: LayoutPreset) {
    let tree = preset.build().expect("preset should build successfully");
    let zones = tree.get_all_zone_ids();
    assert!(!zones.is_empty(), "preset should produce at least one zone");
    for z in &zones {
        assert!(tree.find_zone(z).is_some(), "zone {:?} should be found", z.0);
    }
    assert!(ratios_ok(tree.root()));
}

#[test]
fn preset_default_builds_valid_tree() {
    validate_preset_builds_cleanly(LayoutPreset::Default);
}

#[test]
fn preset_focus_builds_valid_tree() {
    validate_preset_builds_cleanly(LayoutPreset::Focus);
}

#[test]
fn preset_split_view_builds_valid_tree() {
    validate_preset_builds_cleanly(LayoutPreset::SplitView);
}

#[test]
fn preset_debug_builds_valid_tree() {
    validate_preset_builds_cleanly(LayoutPreset::Debug);
}
