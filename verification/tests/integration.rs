use meteorite::dock::DockingLayout;
use meteorite::integration::{
    convert_legacy_state, find_zone_by_legacy_name, FlexibleLayoutAdapter, IntegrationError,
    LegacyZoneState,
};
use meteorite::layout_node::{ContainerInfo, LayoutNode};
use meteorite::migration::LayoutMigration;
use meteorite::node::{ContainerLayout, NodeId, ZoneContent};
use meteorite::text::ratio_string;
use meteorite::tree::{LayoutTree, TreeError};

fn sorted(mut v: Vec<String>) -> Vec<String> {
    v.sort();
    v
}

#[test]
fn convert_legacy_state_places_panels_and_active() {
    let mut legacy = LegacyZoneState::new();
    legacy.add_panel("left_top".to_string(), "p1".to_string());
    legacy.add_panel("left_top".to_string(), "p2".to_string());
    legacy.set_active("left_top".to_string(), "p2".to_string());
    let tree = convert_legacy_state(&legacy).expect("conversion should succeed");
    let zone = find_zone_by_legacy_name(&tree, "left_top").expect("zone should exist");
    let content = tree.find_zone(&zone).unwrap().zone_content().unwrap();
    assert_eq!(
        content.panels,
        vec!["nodes_panel".to_string(), "p1".to_string(), "p2".to_string()]
    );
    assert_eq!(content.active_panel, Some("p2".to_string()));
    assert_eq!(tree.find_panel_zone("p1"), Some(zone));
}

#[test]
fn convert_legacy_state_unknown_zone_errors() {
    let mut legacy = LegacyZoneState::default();
    legacy.add_panel("nowhere".to_string(), "p".to_string());
    match convert_legacy_state(&legacy) {
        Err(e) => {
            assert!(matches!(e, IntegrationError::LegacyZoneNotFound(ref z) if z == "nowhere"));
            assert_eq!(e.message(), "Legacy zone not found: nowhere");
        }
        Ok(_) => panic!("conversion should fail"),
    }
}

#[test]
fn legacy_state_groups_panels_by_zone() {
    let mut legacy = LegacyZoneState::new();
    legacy.add_panel("a".to_string(), "1".to_string());
    legacy.add_panel("b".to_string(), "2".to_string());
    legacy.add_panel("a".to_string(), "3".to_string());
    legacy.set_active("a".to_string(), "1".to_string());
    legacy.set_active("a".to_string(), "3".to_string());
    assert_eq!(legacy.zone_panels.len(), 2);
    assert_eq!(legacy.zone_panels[0].0, "a");
    assert_eq!(legacy.zone_panels[0].1, vec!["1".to_string(), "3".to_string()]);
    assert_eq!(legacy.active_panels, vec![("a".to_string(), "3".to_string())]);
}

#[test]
fn find_zone_by_legacy_name_on_plain_tree() {
    let tree = LayoutTree::new();
    assert_eq!(find_zone_by_legacy_name(&tree, "center"), None);
}

#[test]
fn adapter_maps_default_zones() {
    let adapter = FlexibleLayoutAdapter::new().expect("default adapter");
    let zones = sorted(adapter.get_legacy_zones());
    assert_eq!(
        zones,
        vec!["center", "left_middle", "left_top", "menu_zone", "right_middle", "right_top"]
    );
    let id = adapter.get_zone_id("center").expect("center should be mapped").clone();
    assert_eq!(adapter.get_legacy_name(&id), Some(&"center".to_string()));
    assert!(adapter.get_zone_id("bottom").is_none());
    assert_eq!(adapter.find_panel_zone("main_content"), Some("center".to_string()));
    assert_eq!(adapter.find_panel_zone("nope"), None);
}

#[test]
fn adapter_float_and_dock_panel() {
    let mut adapter = FlexibleLayoutAdapter::default();
    adapter.float_panel("nodes_panel").expect("float should succeed");
    assert!(adapter.is_panel_floating("nodes_panel"));
    assert_eq!(adapter.find_panel_zone("nodes_panel"), None);
    adapter
        .move_panel("nodes_panel", "right_top", Some(0))
        .expect("docking should succeed");
    assert!(!adapter.is_panel_floating("nodes_panel"));
    assert_eq!(adapter.find_panel_zone("nodes_panel"), Some("right_top".to_string()));
    let content = adapter.get_zone_content("right_top").unwrap();
    assert_eq!(content.panels[0], "nodes_panel");
}

#[test]
fn adapter_float_missing_panel_errors() {
    let mut adapter = FlexibleLayoutAdapter::default();
    let err = adapter.float_panel("ghost_panel").unwrap_err();
    assert_eq!(err.message(), "Tree error: Panel not found: ghost_panel");
    assert!(!adapter.is_panel_floating("ghost_panel"));
}

#[test]
fn adapter_move_panel_between_zones() {
    let mut adapter = FlexibleLayoutAdapter::default();
    adapter
        .move_panel("transformations_panel", "center", None)
        .expect("move should succeed");
    assert_eq!(adapter.find_panel_zone("transformations_panel"), Some("center".to_string()));
    let content = adapter.get_zone_content("center").unwrap();
    assert_eq!(content.active_panel, Some("transformations_panel".to_string()));
    assert!(adapter.get_zone_content("right_top").unwrap().panels.is_empty());
}

#[test]
fn adapter_move_to_unknown_zone_errors() {
    let mut adapter = FlexibleLayoutAdapter::default();
    let err = adapter.move_panel("menu_bar", "nowhere", None).unwrap_err();
    assert!(matches!(err, IntegrationError::LegacyZoneNotFound(ref z) if z == "nowhere"));
    assert_eq!(adapter.find_panel_zone("menu_bar"), Some("menu_zone".to_string()));
}

#[test]
fn adapter_add_remove_and_activate() {
    let mut adapter = FlexibleLayoutAdapter::default();
    adapter
        .add_panel_to_zone("left_middle", "extra".to_string())
        .expect("add should succeed");
    adapter
        .set_active_panel("left_middle", Some("extra".to_string()))
        .expect("activate should succeed");
    let content = adapter.get_zone_content("left_middle").unwrap();
    assert_eq!(content.active_panel, Some("extra".to_string()));
    adapter.remove_panel("extra").expect("remove should succeed");
    assert_eq!(adapter.find_panel_zone("extra"), None);
    assert!(adapter.remove_panel("extra").is_err());
    assert!(adapter.add_panel_to_zone("nowhere", "x".to_string()).is_err());
    assert!(adapter.set_active_panel("nowhere", None).is_err());
}

#[test]
fn adapter_remove_floating_panel() {
    let mut adapter = FlexibleLayoutAdapter::default();
    adapter.float_panel("menu_bar").unwrap();
    adapter.remove_panel("menu_bar").expect("remove should succeed");
    assert!(!adapter.is_panel_floating("menu_bar"));
}

#[test]
fn adapter_set_layout_tree_rebuilds_mappings() {
    let mut adapter = FlexibleLayoutAdapter::default();
    adapter.set_layout_tree(LayoutTree::new());
    assert!(adapter.get_legacy_zones().is_empty());
    assert!(adapter.get_zone_id("center").is_none());
    assert_eq!(adapter.get_layout_tree().get_all_zone_ids().len(), 1);
    assert_eq!(adapter.tree().get_all_zone_ids().len(), 1);
    let root = adapter.tree_mut().get_all_zone_ids()[0].clone();
    adapter.tree_mut().add_panel_to_zone(&root, "p".to_string()).unwrap();
    assert_eq!(adapter.tree.find_panel_zone("p"), Some(root));
}

#[test]
fn adapter_from_legacy_and_from_tree() {
    let mut legacy = LegacyZoneState::new();
    legacy.add_panel("center".to_string(), "table".to_string());
    let adapter = FlexibleLayoutAdapter::from_legacy(&legacy).expect("from legacy");
    assert_eq!(adapter.find_panel_zone("table"), Some("center".to_string()));
    let plain = FlexibleLayoutAdapter::from_tree(LayoutTree::new());
    assert!(plain.get_legacy_zones().is_empty());
}

#[test]
fn migration_from_docking_layout() {
    let layout = DockingLayout::new();
    let state = LayoutMigration::from_docking_layout(&layout);
    assert_eq!(state.zone_panels.len(), 6);
    assert_eq!(state.zone_panels[0], ("left".to_string(), vec!["nodes_panel".to_string()]));
    assert_eq!(state.active_panels.len(), 6);
    assert_eq!(
        state.active_panels[3],
        ("center".to_string(), "main_content".to_string())
    );
}

#[test]
fn migration_create_with_current_panels() {
    let adapter = LayoutMigration::create_with_current_panels(vec![
        ("x".to_string(), "center".to_string()),
        ("y".to_string(), "left_top".to_string()),
    ])
    .expect("placement should succeed");
    assert_eq!(adapter.find_panel_zone("x"), Some("center".to_string()));
    assert_eq!(adapter.find_panel_zone("y"), Some("left_top".to_string()));
    let err = LayoutMigration::create_with_current_panels(vec![(
        "z".to_string(),
        "left".to_string(),
    )]);
    assert!(matches!(err, Err(IntegrationError::LegacyZoneNotFound(ref z)) if z == "left"));
}

#[test]
fn migration_create_custom_layout_skips_unknown_zones() {
    let tree = LayoutMigration::create_custom_layout(vec![
        ("right_middle".to_string(), vec!["a".to_string(), "b".to_string()]),
        ("unknown".to_string(), vec!["c".to_string()]),
    ])
    .expect("custom layout should build");
    let zone = find_zone_by_legacy_name(&tree, "right_middle").unwrap();
    assert_eq!(tree.find_panel_zone("a"), Some(zone.clone()));
    assert_eq!(tree.find_panel_zone("b"), Some(zone));
    assert_eq!(tree.find_panel_zone("c"), None);
}

#[test]
fn tree_error_messages() {
    assert_eq!(TreeError::InvalidSplitRatio(50).message(), "Invalid split ratio: 0.05");
    assert_eq!(TreeError::InvalidSplitRatio(1000).message(), "Invalid split ratio: 1");
    assert_eq!(
        TreeError::MaxDepthExceeded(100).message(),
        "Layout tree exceeds maximum depth of 100"
    );
    assert_eq!(TreeError::NotAZone.message(), "Zone is not a content zone");
    let e = IntegrationError::TreeError(TreeError::NodeNotFound("n".to_string()));
    assert_eq!(e.message(), "Tree error: Node not found: n");
    assert_eq!(
        IntegrationError::InvalidMapping("m".to_string()).message(),
        "Invalid mapping: m"
    );
}

#[test]
fn ratio_strings() {
    assert_eq!(ratio_string(500), "0.5");
    assert_eq!(ratio_string(250), "0.25");
    assert_eq!(ratio_string(125), "0.125");
    assert_eq!(ratio_string(0), "0");
    assert_eq!(ratio_string(2300), "2.3");
}

#[test]
fn container_info_of_container_and_zone() {
    let mut tree = LayoutTree::new();
    let root = tree.get_all_zone_ids()[0].clone();
    let second = tree
        .split_zone(&root, meteorite::node::SplitDirection::Horizontal, 500, false)
        .expect("split should succeed");
    let cid = tree
        .create_container(&[root.clone(), second.clone()], ContainerLayout::Tabs)
        .expect("container should be created");
    let node = tree.root().find_node(&cid).expect("container should exist");
    let info = ContainerInfo::of(node).expect("container info");
    assert_eq!(info.id, cid);
    assert_eq!(info.container_layout, ContainerLayout::Tabs);
    assert_eq!(info.child_zones, vec![root.clone(), second]);
    let zone = LayoutNode::Zone { id: NodeId::from_string("z"), content: ZoneContent::new() };
    assert!(ContainerInfo::of(&zone).is_none());
}

#[test]
fn mutable_accessors_change_in_place() {
    let mut tree = LayoutTree::new();
    tree.root_mut()
        .zone_content_mut()
        .expect("root is a zone")
        .add_panel("p".to_string());
    assert_eq!(tree.root().zone_content().unwrap().panels, vec!["p".to_string()]);
    assert_eq!(tree.find_panel_zone("p"), None);
}
