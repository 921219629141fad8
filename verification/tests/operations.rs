use meteorite::operations::LayoutPreset;
use meteorite::operations::LayoutOperationBuilder;
use meteorite::node::NodeId;
use meteorite::migration::LayoutMigration;
use meteorite::layout_node::LayoutNode;
use meteorite::node::SplitDirection;
use meteorite::operations::{LayoutOperation, LayoutOperationExecutor};
use meteorite::tree::LayoutTree;

#[test]
fn execute_split_operation() {
    let mut tree = LayoutTree::new();
    let root_id = tree.get_all_zone_ids()[0].clone();
    let mut executor = LayoutOperationExecutor::new();

    executor
        .execute(
            LayoutOperation::SplitZone {
                zone_id: root_id.clone(),
                direction: SplitDirection::Horizontal,
                ratio: 500,
                new_zone_first: false,
            },
            &mut tree,
        )
        .expect("split operation should succeed");

    assert_eq!(tree.get_all_zone_ids().len(), 2);
    assert!(tree.root().is_split());
}

#[test]
fn execute_merge_operation() {
    let mut tree = LayoutTree::new();
    let root_id = tree.get_all_zone_ids()[0].clone();
    let mut executor = LayoutOperationExecutor::new();

    // Split first
    executor
        .execute(
            LayoutOperation::SplitZone {
                zone_id: root_id.clone(),
                direction: SplitDirection::Horizontal,
                ratio: 500,
                new_zone_first: false,
            },
            &mut tree,
        )
        .unwrap();

    let zones = tree.get_all_zone_ids();
    assert_eq!(zones.len(), 2);
    let zone1 = zones[0].clone();
    let zone2 = zones[1].clone();

    // Merge
    executor
        .execute(
            LayoutOperation::MergeZones {
                zone1_id: zone1,
                zone2_id: zone2,
            },
            &mut tree,
        )
        .expect("merge operation should succeed");

    assert_eq!(tree.get_all_zone_ids().len(), 1);
    assert!(tree.root().is_zone());
}

#[test]
fn undo_restores_previous_state() {
    let mut tree = LayoutTree::new();
    let original_zones = tree.get_all_zone_ids().len();
    let root_id = tree.get_all_zone_ids()[0].clone();
    let mut executor = LayoutOperationExecutor::new();

    // Execute a split
    executor
        .execute(
            LayoutOperation::SplitZone {
                zone_id: root_id,
                direction: SplitDirection::Horizontal,
                ratio: 500,
                new_zone_first: false,
            },
            &mut tree,
        )
        .unwrap();
    assert_eq!(tree.get_all_zone_ids().len(), 2);

    // Undo
    executor.undo(&mut tree).expect("undo should succeed");
    assert_eq!(
        tree.get_all_zone_ids().len(),
        original_zones,
        "undo should restore original zone count"
    );
    assert!(tree.root().is_zone(), "root should be a zone after undo");
}

#[test]
fn redo_reapplies_operation() {
    let mut tree = LayoutTree::new();
    let root_id = tree.get_all_zone_ids()[0].clone();
    let mut executor = LayoutOperationExecutor::new();

    // Execute a split
    executor
        .execute(
            LayoutOperation::SplitZone {
                zone_id: root_id,
                direction: SplitDirection::Horizontal,
                ratio: 500,
                new_zone_first: false,
            },
            &mut tree,
        )
        .unwrap();

    // Undo
    executor.undo(&mut tree).unwrap();
    assert_eq!(tree.get_all_zone_ids().len(), 1);

    // Redo
    executor.redo(&mut tree).expect("redo should succeed");
    assert_eq!(tree.get_all_zone_ids().len(), 2);
    assert!(tree.root().is_split(), "root should be a split after redo");
}

#[test]
fn undo_empty_stack_errors() {
    let mut tree = LayoutTree::new();
    let mut executor = LayoutOperationExecutor::new();

    let result = executor.undo(&mut tree);
    assert!(result.is_err(), "undo on empty stack should fail");
}

#[test]
fn multiple_operations_undo_in_order() {
    let mut tree = LayoutTree::new();
    let mut executor = LayoutOperationExecutor::new();

    // Operation 1: split root
    let root_id = tree.get_all_zone_ids()[0].clone();
    executor
        .execute(
            LayoutOperation::SplitZone {
                zone_id: root_id.clone(),
                direction: SplitDirection::Horizontal,
                ratio: 500,
                new_zone_first: false,
            },
            &mut tree,
        )
        .unwrap();
    assert_eq!(tree.get_all_zone_ids().len(), 2);

    // Operation 2: add panel
    executor
        .execute(
            LayoutOperation::AddPanel {
                panel_id: "panel1".to_string(),
                zone_id: root_id.clone(),
            },
            &mut tree,
        )
        .unwrap();

    // Operation 3: split again
    let zones = tree.get_all_zone_ids();
    let target = zones.iter().find(|z| *z != &root_id).unwrap().clone();
    executor
        .execute(
            LayoutOperation::SplitZone {
                zone_id: target,
                direction: SplitDirection::Vertical,
                ratio: 500,
                new_zone_first: false,
            },
            &mut tree,
        )
        .unwrap();
    assert_eq!(tree.get_all_zone_ids().len(), 3);

    // Undo all 3
    executor.undo(&mut tree).unwrap(); // undo split #2
    assert_eq!(tree.get_all_zone_ids().len(), 2);

    executor.undo(&mut tree).unwrap(); // undo add panel
    let root_content = tree.find_zone(&root_id).unwrap().zone_content().unwrap();
    assert!(
        !root_content.panels.contains(&"panel1".to_string()),
        "panel should be removed after undo"
    );

    executor.undo(&mut tree).unwrap(); // undo split #1
    assert_eq!(tree.get_all_zone_ids().len(), 1);
    assert!(tree.root().is_zone());
}

#[test]
fn from_preset_layouts() {
    let single = LayoutTree::from_preset(LayoutPreset::SinglePane).unwrap();
    assert_eq!(single.get_all_zone_ids().len(), 1);
    let two = LayoutTree::from_preset(LayoutPreset::TwoPaneVertical { ratio: 300 }).unwrap();
    let ids = two.get_all_zone_ids();
    assert_eq!(ids.len(), 2);
    // the new zone comes first, the root zone second
    assert_eq!(ids[1].0, "root");
    match two.root() {
        LayoutNode::Split { direction, ratio, .. } => {
            assert_eq!(*direction, SplitDirection::Vertical);
            assert_eq!(*ratio, 300);
        }
        _ => panic!("expected split"),
    }
    let three = LayoutTree::from_preset(LayoutPreset::ThreeColumn { left_ratio: 200, right_ratio: 250 }).unwrap();
    assert_eq!(three.get_all_zone_ids().len(), 3);
    assert_eq!(three.get_all_zone_ids()[2].0, "root");
    assert!(LayoutTree::from_preset(LayoutPreset::TwoPaneHorizontal { ratio: 950 }).is_err());
    assert!(LayoutTree::from_preset(LayoutPreset::ThreeColumn { left_ratio: 200, right_ratio: 1200 }).is_err());
    let seaglass = LayoutTree::from_preset(LayoutPreset::Seaglass).unwrap();
    assert_eq!(seaglass.get_all_zone_ids().len(), 6);
}

#[test]
fn operation_builder_collects_in_order() {
    let ops = LayoutOperationBuilder::new()
        .split_zone(NodeId::from_string("root"), SplitDirection::Horizontal, 500, false)
        .move_panel("p".to_string(), NodeId::from_string("root"))
        .move_panel_at("q".to_string(), NodeId::from_string("root"), 2)
        .resize_split(NodeId::from_string("s"), 400)
        .build();
    assert_eq!(ops.len(), 4);
    assert!(matches!(ops[0], LayoutOperation::SplitZone { ratio: 500, .. }));
    assert!(matches!(ops[2], LayoutOperation::MovePanel { insert_index: Some(2), .. }));
    assert!(matches!(ops[3], LayoutOperation::ResizeSplit { new_ratio: 400, .. }));
    let mut tree = LayoutTree::new();
    let mut executor = LayoutOperationExecutor::new();
    for op in ops.into_iter().take(1) {
        executor.execute(op, &mut tree).unwrap();
    }
    assert_eq!(tree.get_all_zone_ids().len(), 2);
}

#[test]
fn migration_detects_zone_format() {
    assert!(LayoutMigration::needs_migration(r#"{"zones": {}}"#));
    assert!(!LayoutMigration::needs_migration(r#"{"zones": {}, "tree": {}}"#));
    assert!(!LayoutMigration::needs_migration(r#"{"tree": {}}"#));
    assert!(!LayoutMigration::needs_migration("zones"));
    assert!(!LayoutMigration::needs_migration(""));
}

#[test]
fn migration_default_assignments() {
    let a = LayoutMigration::default_panel_assignments();
    assert_eq!(a.len(), 8);
    assert_eq!(a[0], ("menu_zone".to_string(), vec!["menu_bar".to_string()]));
    assert_eq!(a[4].0, "center");
    assert_eq!(a[4].1, vec!["main_content", "flow_view"]);
    assert!(a[7].1.is_empty());
}
