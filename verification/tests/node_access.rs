use meteorite::builder::LayoutBuilder;
use meteorite::layout_node::LayoutNode;
use meteorite::node::{ContainerLayout, NodeId, NodePath, SplitDirection, ZoneContent};
use meteorite::operations::{LayoutOperation, LayoutOperationExecutor, MAX_UNDO_LEVELS};
use meteorite::tree::{LayoutTree, TreeError};

#[test]
fn get_at_path_mut_changes_the_reached_node() {
    let tree = LayoutBuilder::two_column("l", vec!["a"], "r", vec![], 500).unwrap();
    let mut root = tree.root().copy();
    {
        let right = root.get_at_path_mut(&NodePath(vec![1])).expect("second child");
        right.zone_content_mut().unwrap().add_panel("x".to_string());
    }
    let right = root.get_at_path(&NodePath(vec![1])).unwrap();
    assert_eq!(right.zone_content().unwrap().panels, vec!["x".to_string()]);
    let left = root.get_at_path(&NodePath(vec![0])).unwrap();
    assert_eq!(left.zone_content().unwrap().panels, vec!["a".to_string()]);
    assert!(root.get_at_path_mut(&NodePath(vec![2])).is_none());
    assert!(root.get_at_path_mut(&NodePath(vec![0, 0])).is_none());
    let whole = root.get_at_path_mut(&NodePath(vec![])).unwrap();
    assert!(matches!(whole, LayoutNode::Split { .. }));
}

#[test]
fn find_node_mut_reaches_node_by_id() {
    let tree = LayoutBuilder::two_column("l", vec!["a"], "r", vec!["b"], 500).unwrap();
    let mut root = tree.root().copy();
    let left_id = NodeId::from_string("l");
    {
        let left = root.find_node_mut(&left_id).expect("zone l");
        left.zone_content_mut().unwrap().add_panel("c".to_string());
    }
    let left = root.find_node(&left_id).unwrap();
    assert_eq!(
        left.zone_content().unwrap().panels,
        vec!["a".to_string(), "c".to_string()]
    );
    assert!(root.find_node_mut(&NodeId::from_string("missing")).is_none());
}

#[test]
fn find_zone_mut_only_reaches_zones() {
    let mut tree = LayoutBuilder::two_column("l", vec!["a"], "r", vec!["b"], 500).unwrap();
    let right_id = NodeId::from_string("r");
    {
        let right = tree.find_zone_mut(&right_id).expect("zone r");
        right.zone_content_mut().unwrap().set_active_panel(Some("b".to_string()));
    }
    let right = tree.find_zone(&right_id).unwrap();
    assert_eq!(right.zone_content().unwrap().active_panel, Some("b".to_string()));
    let split_id = tree.root().id().copy();
    assert!(tree.find_zone_mut(&split_id).is_none());
    assert!(tree.find_zone_mut(&NodeId::from_string("missing")).is_none());
}

fn zone(id: &str) -> LayoutNode {
    LayoutNode::Zone { id: NodeId::from_string(id), content: ZoneContent::new() }
}

fn three_in_container() -> LayoutTree {
    LayoutTree::from_root(LayoutNode::Container {
        id: NodeId::from_string("c"),
        layout: ContainerLayout::Stack,
        children: vec![zone("a"), zone("b"), zone("d")],
        active_child: Some(0),
    })
}

#[test]
fn merge_zones_needs_a_split_parent() {
    let mut tree = three_in_container();
    let r = tree.merge_zones(&NodeId::from_string("a"), &NodeId::from_string("b"));
    match r {
        Err(TreeError::InvalidOperation(m)) => {
            assert_eq!(m, "Zones must be children of the same split to merge")
        }
        _ => panic!("expected an invalid operation"),
    }
    assert_eq!(tree.get_all_zone_ids().len(), 3);
}

#[test]
fn create_container_moves_zones_out_of_their_places() {
    let mut tree = three_in_container();
    let a = NodeId::from_string("a");
    let d = NodeId::from_string("d");
    let cid = tree.create_container(&[d.clone(), a.clone()], ContainerLayout::Tabs).unwrap();
    let ids: Vec<String> = tree.get_all_zone_ids().iter().map(|z| z.text()).collect();
    assert_eq!(ids, vec!["b".to_string(), "d".to_string(), "a".to_string()]);
    match tree.root() {
        LayoutNode::Container { children, .. } => {
            assert_eq!(children.len(), 2);
            assert!(children[0].is_zone());
            assert_eq!(children[1].id().text(), cid.text());
        }
        _ => panic!("expected the outer container"),
    }
    assert_eq!(cid.text().len(), 36);
}

#[test]
fn create_container_under_a_split_replaces_the_split() {
    let mut tree = LayoutBuilder::two_column("l", vec!["a"], "r", vec![], 500).unwrap();
    let l = NodeId::from_string("l");
    let r = NodeId::from_string("r");
    let cid = tree.create_container(&[l.clone(), r.clone()], ContainerLayout::Tabs).unwrap();
    assert_eq!(tree.root().id().text(), cid.text());
    assert_eq!(tree.get_all_zone_ids().len(), 2);
}

#[test]
fn create_container_groups_repeats_once_and_refuses_strangers() {
    let mut tree = three_in_container();
    let a = NodeId::from_string("a");
    let cid = tree.create_container(&[a.clone(), a.clone()], ContainerLayout::Tabs).unwrap();
    let ids: Vec<String> = tree.get_all_zone_ids().iter().map(|z| z.text()).collect();
    assert_eq!(ids, vec!["a".to_string(), "b".to_string(), "d".to_string()]);
    match tree.root() {
        LayoutNode::Container { children, .. } => {
            assert_eq!(children.len(), 3);
            assert_eq!(children[0].id().text(), cid.text());
            match &children[0] {
                LayoutNode::Container { children: inner, .. } => assert_eq!(inner.len(), 1),
                _ => panic!("expected the new container"),
            }
        }
        _ => panic!("expected the outer container"),
    }
    let mut split = LayoutBuilder::new()
        .split_horizontal()
        .first(|f| f.zone("x").build())
        .second(|s| {
            s.split_vertical()
                .first(|f| f.zone("y").build())
                .second(|g| g.zone("z").build())
                .build()
                .unwrap()
        })
        .build()
        .unwrap()
        .build()
        .unwrap();
    let before = split.get_all_zone_ids().len();
    match split.create_container(&[NodeId::from_string("x"), NodeId::from_string("y")], ContainerLayout::Tabs) {
        Err(TreeError::InvalidOperation(m)) => {
            assert_eq!(m, "Zones must be siblings (have the same parent)")
        }
        _ => panic!("expected an invalid operation"),
    }
    assert_eq!(split.get_all_zone_ids().len(), before);
}

#[test]
fn split_zone_gives_a_uuid_shaped_id() {
    let mut tree = LayoutTree::new();
    let root = tree.get_all_zone_ids()[0].clone();
    let n = tree.split_zone(&root, SplitDirection::Horizontal, 500, false).unwrap();
    assert_eq!(n.text().len(), 36);
    assert!(!n.same(&root));
    assert_eq!(tree.get_all_zone_ids().len(), 2);
}

#[test]
fn create_container_of_one_split_child_keeps_the_split() {
    let mut tree = LayoutBuilder::two_column("l", vec!["a"], "r", vec![], 500).unwrap();
    let l = NodeId::from_string("l");
    let cid = tree.create_container(&[l.clone(), l.clone()], ContainerLayout::Stack).unwrap();
    match tree.root() {
        LayoutNode::Split { first, second, .. } => {
            assert_eq!(first.id().text(), cid.text());
            assert_eq!(second.id().text(), "r");
        }
        _ => panic!("the split should stay"),
    }
    assert_eq!(tree.get_all_zone_ids().len(), 2);
}

#[test]
fn zone_counts_follow_split_merge_and_grouping() {
    let mut tree = LayoutTree::new();
    let root = tree.get_all_zone_ids()[0].clone();
    tree.add_panel_to_zone(&root, "p".to_string()).unwrap();
    let mut last = root.clone();
    for k in 0..20 {
        last = tree.split_zone(&last, SplitDirection::Vertical, 500, false).unwrap();
        assert_eq!(tree.get_all_zone_ids().len(), k + 2);
        assert_eq!(tree.find_panel_zone("p"), Some(root.clone()));
    }
    let mut small = LayoutTree::new();
    let r = small.get_all_zone_ids()[0].clone();
    let n = small.split_zone(&r, SplitDirection::Horizontal, 500, false).unwrap();
    assert_eq!(small.get_all_zone_ids().len(), 2);
    small.merge_zones(&r, &n).unwrap();
    assert_eq!(small.get_all_zone_ids().len(), 1);
    let mut grouped = three_in_container();
    grouped
        .create_container(&[NodeId::from_string("b"), NodeId::from_string("d")], ContainerLayout::Tabs)
        .unwrap();
    assert_eq!(grouped.get_all_zone_ids().len(), 3);
}

#[test]
fn undo_limit_is_fifty_and_undos_come_back_in_order() {
    assert_eq!(MAX_UNDO_LEVELS, 50);
    let mut tree = LayoutTree::new();
    let root = tree.get_all_zone_ids()[0].clone();
    let mut ex = LayoutOperationExecutor::new();
    for name in ["a", "b", "c"] {
        ex.execute(
            LayoutOperation::AddPanel { panel_id: name.to_string(), zone_id: root.copy() },
            &mut tree,
        )
        .unwrap();
    }
    ex.undo(&mut tree).unwrap();
    assert_eq!(tree.find_panel_zone("c"), None);
    assert!(tree.find_panel_zone("b").is_some());
    ex.undo(&mut tree).unwrap();
    assert_eq!(tree.find_panel_zone("b"), None);
    assert!(tree.find_panel_zone("a").is_some());
}
