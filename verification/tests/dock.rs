use meteorite::dock::{DockZone, DockingLayout, DockingLayoutError, DropResult, PanelState};

fn zone_panels(layout: &DockingLayout, id: &str) -> Vec<String> {
    layout.get_zone(id).unwrap().panels.clone()
}

#[test]
fn zone_add_remove_and_active() {
    let mut z = DockZone::new();
    assert!(z.is_empty());
    z.add_panel("a".to_string());
    z.add_panel("b".to_string());
    z.add_panel("a".to_string());
    assert_eq!(z.panels, vec!["a", "b"]);
    assert_eq!(z.get_active_panel(), Some(&"a".to_string()));
    assert_eq!(z.panel_count(), 2);
    assert!(z.remove_panel("a"));
    assert_eq!(z.active_panel, Some("b".to_string()));
    assert!(!z.remove_panel("zzz"));
    assert!(z.remove_panel("b"));
    assert_eq!(z.active_panel, None);
}

#[test]
fn zone_insert_and_move_clamp() {
    let mut z = DockZone::new();
    z.insert_panel("a".to_string(), 7);
    z.insert_panel("b".to_string(), 0);
    z.insert_panel("c".to_string(), 1);
    assert_eq!(z.panels, vec!["b", "c", "a"]);
    assert_eq!(z.active_panel, Some("a".to_string()));
    assert_eq!(z.get_panel_index("a"), Some(2));
    assert!(z.move_panel("b", 99));
    assert_eq!(z.panels, vec!["c", "a", "b"]);
    assert!(!z.move_panel("x", 0));
    assert!(z.set_active_panel("c".to_string()));
    assert!(!z.set_active_panel("x".to_string()));
    assert_eq!(z.active_panel, Some("c".to_string()));
    assert!(z.contains_panel("a"));
    assert!(!z.contains_panel("x"));
}

#[test]
fn new_layout_has_default_zones() {
    let layout = DockingLayout::new();
    assert_eq!(
        layout.get_zone_ids(),
        vec!["left", "left_bottom", "right", "center", "bottom_left", "bottom_right"]
    );
    assert_eq!(zone_panels(&layout, "center"), vec!["main_content"]);
    assert_eq!(layout.find_panel_zone("flow_view"), Some("bottom_left".to_string()));
    assert_eq!(layout.find_panel_zone("nope"), None);
}

#[test]
fn move_between_zones() {
    let mut layout = DockingLayout::new();
    let r = layout.move_panel("nodes_panel", "right", Some(0)).unwrap();
    assert_eq!(
        r,
        DropResult::ZoneChange {
            panel_id: "nodes_panel".to_string(),
            from_zone: Some("left".to_string()),
            to_zone: "right".to_string(),
            insert_index: Some(0),
        }
    );
    assert_eq!(zone_panels(&layout, "right"), vec!["nodes_panel", "transformations_panel"]);
    assert!(zone_panels(&layout, "left").is_empty());
    assert_eq!(layout.get_zone("left").unwrap().active_panel, None);
    assert_eq!(layout.find_panel_zone("nodes_panel"), Some("right".to_string()));
}

#[test]
fn reorder_within_zone() {
    let mut layout = DockingLayout::new();
    layout.move_panel("flow_view", "center", None).unwrap();
    let r = layout.move_panel("flow_view", "center", Some(0)).unwrap();
    assert_eq!(
        r,
        DropResult::Reorder {
            panel_id: "flow_view".to_string(),
            zone_id: "center".to_string(),
            from_index: 1,
            to_index: 0,
        }
    );
    assert_eq!(zone_panels(&layout, "center"), vec!["flow_view", "main_content"]);
    let r = layout.move_panel("flow_view", "center", None).unwrap();
    assert_eq!(r, DropResult::Cancel { panel_id: "flow_view".to_string() });
}

#[test]
fn move_errors() {
    let mut layout = DockingLayout::new();
    let e = layout.move_panel("ghost_panel", "center", None).unwrap_err();
    assert_eq!(e, DockingLayoutError::PanelNotFound { panel_id: "ghost_panel".to_string() });
    assert_eq!(e.message(), "Panel 'ghost_panel' not found");
    let e = layout.move_panel("flow_view", "nowhere", None).unwrap_err();
    assert_eq!(e, DockingLayoutError::ZoneNotFound { zone_id: "nowhere".to_string() });
    assert_eq!(e.message(), "Target zone 'nowhere' not found");
    // The panel has already left its zone when the target is missing.
    assert_eq!(layout.find_panel_zone("flow_view"), None);
}

#[test]
fn float_and_dock() {
    let mut layout = DockingLayout::new();
    let r = layout.float_panel("flow_view");
    assert_eq!(
        r,
        DropResult::Float {
            panel_id: "flow_view".to_string(),
            from_zone: Some("bottom_left".to_string()),
        }
    );
    assert!(layout.is_panel_floating("flow_view"));
    assert_eq!(layout.find_panel_zone("flow_view"), None);
    let r = layout.dock_floating_panel("flow_view", "center").unwrap();
    assert_eq!(
        r,
        DropResult::ZoneChange {
            panel_id: "flow_view".to_string(),
            from_zone: None,
            to_zone: "center".to_string(),
            insert_index: None,
        }
    );
    assert!(!layout.is_panel_floating("flow_view"));
    assert_eq!(zone_panels(&layout, "center"), vec!["main_content", "flow_view"]);
    let e = layout.dock_floating_panel("flow_view", "center").unwrap_err();
    assert_eq!(e.message(), "Floating panel 'flow_view' not found");
}

#[test]
fn floating_panel_moves_into_zone() {
    let mut layout = DockingLayout::new();
    layout.float_panel("main_content");
    let r = layout.move_panel("main_content", "right", Some(3)).unwrap();
    assert_eq!(
        r,
        DropResult::ZoneChange {
            panel_id: "main_content".to_string(),
            from_zone: None,
            to_zone: "right".to_string(),
            insert_index: Some(3),
        }
    );
    assert_eq!(zone_panels(&layout, "right"), vec!["transformations_panel", "main_content"]);
}

#[test]
fn set_active_panel_checks_zone_and_panel() {
    let mut layout = DockingLayout::new();
    layout.move_panel("flow_view", "center", None).unwrap();
    assert!(layout.set_active_panel("center", "flow_view").is_ok());
    assert_eq!(layout.get_zone("center").unwrap().active_panel, Some("flow_view".to_string()));
    let e = layout.set_active_panel("center", "nodes_panel").unwrap_err();
    assert_eq!(e.message(), "Panel 'nodes_panel' not found in zone 'center'");
    let e = layout.set_active_panel("moon", "x").unwrap_err();
    assert_eq!(e, DockingLayoutError::ZoneNotFound { zone_id: "moon".to_string() });
    assert_eq!(DockingLayoutError::PanelNotInZone.message(), "Panel not found in zone");
}

#[test]
fn panel_state_defaults_to_hidden() {
    assert_eq!(PanelState::default(), PanelState::Hidden);
    let s = PanelState::Docked { zone_id: "left".to_string() };
    assert_ne!(s, PanelState::Floating);
}
