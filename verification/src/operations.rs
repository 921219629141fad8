use vstd::prelude::*;
use crate::builder::{default_shape, layout_with_shape, LayoutBuilder};
use crate::layout_node::{height, height_with, ids_view, node_at, zone_ids, LayoutNode, NodeModel};
use crate::node::{empty_content, ContainerLayout, ContentModel, NodeId, SplitDirection};
use crate::tree::{
    tree_error_message, insert_all, rebuilt, split_node, zone_entries, MAX_TREE_DEPTH,
    add_panel_spec, container_fits, container_spec, content_at, merge_fits, merge_spec,
    move_panel_spec, remove_panel_spec, set_active_spec, split_fits, split_spec, unit_result,
    update_ratio_spec, zone_path, LayoutTree, TreeError, TreeErrorModel, TreeModel,
};

verus! {

/// Errors that can occur during layout operations.
#[derive(Debug)]
pub enum OperationError {
    TreeError(TreeError),
    InvalidTarget(String),
    NotAllowed(String),
    NothingToUndo,
    NothingToRedo,
}

pub ghost enum OperationErrorModel {
    TreeError(TreeErrorModel),
    InvalidTarget(Seq<char>),
    NotAllowed(Seq<char>),
    NothingToUndo,
    NothingToRedo,
}

impl View for OperationError {
    type V = OperationErrorModel;

    open spec fn view(&self) -> OperationErrorModel {
        match self {
            OperationError::TreeError(e) => OperationErrorModel::TreeError(e@),
            OperationError::InvalidTarget(s) => OperationErrorModel::InvalidTarget(s@),
            OperationError::NotAllowed(s) => OperationErrorModel::NotAllowed(s@),
            OperationError::NothingToUndo => OperationErrorModel::NothingToUndo,
            OperationError::NothingToRedo => OperationErrorModel::NothingToRedo,
        }
    }
}

/// The text of an operation error.
pub open spec fn operation_error_message(e: OperationErrorModel) -> Seq<char> {
    match e {
        OperationErrorModel::TreeError(t) => "Tree error: "@ + tree_error_message(t),
        OperationErrorModel::InvalidTarget(s) => "Invalid target: "@ + s,
        OperationErrorModel::NotAllowed(s) => "Operation not allowed: "@ + s,
        OperationErrorModel::NothingToUndo => "Undo stack is empty"@,
        OperationErrorModel::NothingToRedo => "Redo stack is empty"@,
    }
}

impl OperationError {
    /// The error's message.
    pub fn message(&self) -> (r: String)
        ensures
            r@ == operation_error_message(self@),
    {
        match self {
            OperationError::TreeError(t) => String::from_str("Tree error: ").concat(t.message().as_str()),
            OperationError::InvalidTarget(s) => String::from_str("Invalid target: ").concat(s.as_str()),
            OperationError::NotAllowed(s) => String::from_str("Operation not allowed: ").concat(s.as_str()),
            OperationError::NothingToUndo => String::from_str("Undo stack is empty"),
            OperationError::NothingToRedo => String::from_str("Redo stack is empty"),
        }
    }
}

pub open spec fn op_result(r: Result<(), OperationError>) -> Result<(), OperationErrorModel> {
    match r {
        Ok(_) => Ok(()),
        Err(e) => Err(e@),
    }
}

/// A tree outcome as an operation outcome.
pub open spec fn lift<T>(r: Result<T, TreeErrorModel>) -> Result<(), OperationErrorModel> {
    match r {
        Ok(_) => Ok(()),
        Err(e) => Err(OperationErrorModel::TreeError(e)),
    }
}

/// Position for inserting a new zone. Ratios are in thousandths.
#[derive(Debug)]
pub enum ZonePosition {
    /// Replace the parent node with a split containing the new zone.
    AsSibling { direction: SplitDirection, ratio: u32, new_zone_first: bool },
    /// Add as a child in a container.
    AsChild { index: Option<usize> },
}

/// High-level layout operations. Ratios are in thousandths.
#[derive(Debug)]
pub enum LayoutOperation {
    SplitZone { zone_id: NodeId, direction: SplitDirection, ratio: u32, new_zone_first: bool },
    MergeZones { zone1_id: NodeId, zone2_id: NodeId },
    MovePanel { panel_id: String, target_zone_id: NodeId, insert_index: Option<usize> },
    AddPanel { panel_id: String, zone_id: NodeId },
    RemovePanel { panel_id: String },
    ResizeSplit { split_id: NodeId, new_ratio: u32 },
    CreateContainer { zone_ids: Vec<NodeId>, container_layout: ContainerLayout },
    FloatPanel { panel_id: String },
    DockPanel { panel_id: String, target_zone_id: NodeId },
    SetActivePanel { zone_id: NodeId, panel_id: String },
    SwapZones { zone1_id: NodeId, zone2_id: NodeId },
    CreateZone { zone_id: NodeId, parent_id: NodeId, position: ZonePosition },
}

/// Result data from a layout operation. Ratios are in thousandths.
#[derive(Debug)]
pub enum OperationResultData {
    ZoneSplit { new_zone_id: NodeId },
    ZonesMerged { result_zone_id: NodeId },
    PanelMoved { panel_id: String, from_zone: NodeId, to_zone: NodeId },
    PanelAdded { panel_id: String, zone_id: NodeId },
    PanelRemoved { panel_id: String, from_zone: NodeId },
    SplitResized { split_id: NodeId, old_ratio: u32, new_ratio: u32 },
    ContainerCreated { container_id: NodeId, zone_ids: Vec<NodeId> },
    PanelFloated { panel_id: String, from_zone: NodeId },
    PanelDocked { panel_id: String, to_zone: NodeId },
    ActivePanelSet { zone_id: NodeId, panel_id: String },
    ZonesSwapped { zone1_id: NodeId, zone2_id: NodeId },
    ZoneCreated { zone_id: NodeId, parent_id: NodeId },
}

/// Remove each panel in turn, stopping at the first failure.
pub open spec fn remove_all_spec(t: TreeModel, ps: Seq<Seq<char>>) -> (TreeModel, Result<(), TreeErrorModel>)
    decreases ps.len(),
{
    if ps.len() == 0 {
        (t, Ok(()))
    } else {
        let (t1, r1) = remove_all_spec(t, ps.drop_last());
        if r1 is Err {
            (t1, r1)
        } else {
            remove_panel_spec(t1, ps.last())
        }
    }
}

/// Add each panel in turn to a zone, stopping at the first failure.
pub open spec fn add_all_spec(t: TreeModel, zone: Seq<char>, ps: Seq<Seq<char>>) -> (TreeModel, Result<(), TreeErrorModel>)
    decreases ps.len(),
{
    if ps.len() == 0 {
        (t, Ok(()))
    } else {
        let (t1, r1) = add_all_spec(t, zone, ps.drop_last());
        if r1 is Err {
            (t1, r1)
        } else {
            add_panel_spec(t1, zone, ps.last(), None)
        }
    }
}

/// "Zone {id} not found".
pub open spec fn zone_not_found_msg(id: Seq<char>) -> Seq<char> {
    "Zone "@ + id + " not found"@
}

/// The panels of the zone `find_zone` reaches.
pub open spec fn zone_panels(t: TreeModel, z: Seq<char>) -> Seq<Seq<char>> {
    content_at(t.root, zone_path(t.root, z).unwrap()).panels
}

/// `SwapZones`: every panel of each zone is removed, then added to the other zone.
pub open spec fn swap_spec(t: TreeModel, a: Seq<char>, b: Seq<char>) -> (TreeModel, Result<(), OperationErrorModel>) {
    if zone_path(t.root, a) is None {
        (t, Err(OperationErrorModel::InvalidTarget(zone_not_found_msg(a))))
    } else if zone_path(t.root, b) is None {
        (t, Err(OperationErrorModel::InvalidTarget(zone_not_found_msg(b))))
    } else {
        let pa = zone_panels(t, a);
        let pb = zone_panels(t, b);
        let (t1, r1) = remove_all_spec(t, pa);
        if r1 is Err {
            (t1, lift(r1))
        } else {
            let (t2, r2) = remove_all_spec(t1, pb);
            if r2 is Err {
                (t2, lift(r2))
            } else {
                let (t3, r3) = add_all_spec(t2, b, pa);
                if r3 is Err {
                    (t3, lift(r3))
                } else {
                    let (t4, r4) = add_all_spec(t3, a, pb);
                    (t4, lift(r4))
                }
            }
        }
    }
}

/// "Parent {id} is not a zone".
pub open spec fn not_a_zone_msg(id: Seq<char>) -> Seq<char> {
    "Parent "@ + id + " is not a zone"@
}

/// Whether `(t2, r)` is a possible outcome of applying `op` to `t`.
pub open spec fn op_outcome(t: TreeModel, op: LayoutOperation, t2: TreeModel, r: Result<(), OperationErrorModel>) -> bool {
    match op {
        LayoutOperation::SplitZone { zone_id, direction, ratio, new_zone_first } => exists|a: Seq<char>, b: Seq<char>|
            a.len() == 36 && b.len() == 36 && #[trigger] split_spec(t, zone_id@, direction, ratio, new_zone_first, a, b).0 == t2
                && lift(split_spec(t, zone_id@, direction, ratio, new_zone_first, a, b).1) == r,
        LayoutOperation::MergeZones { zone1_id, zone2_id } => merge_spec(t, zone1_id@, zone2_id@).0 == t2
            && lift(merge_spec(t, zone1_id@, zone2_id@).1) == r,
        LayoutOperation::MovePanel { panel_id, target_zone_id, insert_index } => {
            let s = move_panel_spec(t, panel_id@, target_zone_id@, match insert_index {
                Some(i) => Some(i as nat),
                None => None,
            });
            s.0 == t2 && lift(s.1) == r
        },
        LayoutOperation::AddPanel { panel_id, zone_id } => add_panel_spec(t, zone_id@, panel_id@, None).0 == t2
            && lift(add_panel_spec(t, zone_id@, panel_id@, None).1) == r,
        LayoutOperation::RemovePanel { panel_id } => remove_panel_spec(t, panel_id@).0 == t2
            && lift(remove_panel_spec(t, panel_id@).1) == r,
        LayoutOperation::ResizeSplit { split_id, new_ratio } => update_ratio_spec(t, split_id@, new_ratio).0 == t2
            && lift(update_ratio_spec(t, split_id@, new_ratio).1) == r,
        LayoutOperation::CreateContainer { zone_ids, container_layout } => exists|c: Seq<char>|
            c.len() == 36 && #[trigger] container_spec(t, ids_view(zone_ids@), container_layout, c).0 == t2
                && lift(container_spec(t, ids_view(zone_ids@), container_layout, c).1) == r,
        LayoutOperation::FloatPanel { panel_id } => remove_panel_spec(t, panel_id@).0 == t2
            && lift(remove_panel_spec(t, panel_id@).1) == r,
        LayoutOperation::DockPanel { panel_id, target_zone_id } => add_panel_spec(t, target_zone_id@, panel_id@, None).0 == t2
            && lift(add_panel_spec(t, target_zone_id@, panel_id@, None).1) == r,
        LayoutOperation::SetActivePanel { zone_id, panel_id } => set_active_spec(t, zone_id@, Some(panel_id@)).0 == t2
            && lift(set_active_spec(t, zone_id@, Some(panel_id@)).1) == r,
        LayoutOperation::SwapZones { zone1_id, zone2_id } => swap_spec(t, zone1_id@, zone2_id@) == (t2, r),
        LayoutOperation::CreateZone { parent_id, position, .. } => match position {
            ZonePosition::AsSibling { direction, ratio, new_zone_first } => if zone_path(t.root, parent_id@) is Some {
                exists|a: Seq<char>, b: Seq<char>|
                    a.len() == 36 && b.len() == 36 && #[trigger] split_spec(t, parent_id@, direction, ratio, new_zone_first, a, b).0 == t2
                        && lift(split_spec(t, parent_id@, direction, ratio, new_zone_first, a, b).1) == r
            } else {
                t2 == t && r == Err::<(), OperationErrorModel>(OperationErrorModel::InvalidTarget(not_a_zone_msg(parent_id@)))
            },
            ZonePosition::AsChild { .. } => t2 == t && r == Err::<(), OperationErrorModel>(OperationErrorModel::NotAllowed(
                "Adding zones as container children not yet implemented"@,
            )),
        },
    }
}

/// What `op` needs of the tree so that no depth limit is crossed.
pub open spec fn op_fits(t: TreeModel, op: LayoutOperation) -> bool {
    match op {
        LayoutOperation::SplitZone { zone_id, ratio, .. } => split_fits(t, zone_id@, ratio),
        LayoutOperation::MergeZones { zone1_id, zone2_id } => merge_fits(t, zone1_id@, zone2_id@),
        LayoutOperation::CreateContainer { zone_ids, .. } => container_fits(t, ids_view(zone_ids@)),
        LayoutOperation::CreateZone { parent_id, position, .. } => match position {
            ZonePosition::AsSibling { ratio, .. } => split_fits(t, parent_id@, ratio),
            _ => true,
        },
        _ => true,
    }
}

/// Whether the operation's arguments are in range.
pub open spec fn op_args_ok(op: LayoutOperation) -> bool {
    match op {
        LayoutOperation::MovePanel { insert_index, .. } => insert_index matches Some(i) ==> i <= u32::MAX,
        _ => true,
    }
}

/// Apply `op` to `tree`.
pub fn apply_operation(op: &LayoutOperation, tree: &mut LayoutTree) -> (r: Result<(), OperationError>)
    requires
        op_fits(old(tree)@, *op),
        op_args_ok(*op),
    ensures
        op_outcome(old(tree)@, *op, final(tree)@, op_result(r)),
{
    match op {
        LayoutOperation::SplitZone { zone_id, direction, ratio, new_zone_first } => {
            let ghost t0 = tree@;
            let res = tree.split_zone(zone_id, *direction, *ratio, *new_zone_first);
            let ghost (a, b) = choose|a: Seq<char>, b: Seq<char>|
                (tree@, crate::tree::id_result(res)) == #[trigger] split_spec(t0, zone_id@, *direction, *ratio, *new_zone_first, a, b);
            let r = match res {
                Ok(_) => Ok(()),
                Err(e) => Err(OperationError::TreeError(e)),
            };
            assert(split_spec(t0, zone_id@, *direction, *ratio, *new_zone_first, a, b).0 == tree@
                && lift(split_spec(t0, zone_id@, *direction, *ratio, *new_zone_first, a, b).1) == op_result(r));
            r
        },
        LayoutOperation::MergeZones { zone1_id, zone2_id } => {
            match tree.merge_zones(zone1_id, zone2_id) {
                Ok(_) => Ok(()),
                Err(e) => Err(OperationError::TreeError(e)),
            }
        },
        LayoutOperation::MovePanel { panel_id, target_zone_id, insert_index } => {
            match tree.move_panel(panel_id.as_str(), target_zone_id, *insert_index) {
                Ok(_) => Ok(()),
                Err(e) => Err(OperationError::TreeError(e)),
            }
        },
        LayoutOperation::AddPanel { panel_id, zone_id } => {
            match tree.add_panel_to_zone(zone_id, panel_id.clone()) {
                Ok(_) => Ok(()),
                Err(e) => Err(OperationError::TreeError(e)),
            }
        },
        LayoutOperation::RemovePanel { panel_id } => {
            match tree.remove_panel(panel_id.as_str()) {
                Ok(_) => Ok(()),
                Err(e) => Err(OperationError::TreeError(e)),
            }
        },
        LayoutOperation::ResizeSplit { split_id, new_ratio } => {
            match tree.update_split_ratio(split_id, *new_ratio) {
                Ok(_) => Ok(()),
                Err(e) => Err(OperationError::TreeError(e)),
            }
        },
        LayoutOperation::CreateContainer { zone_ids, container_layout } => {
            let ghost t0 = tree@;
            let res = tree.create_container(zone_ids.as_slice(), *container_layout);
            let ghost c = choose|c: Seq<char>|
                (tree@, crate::tree::id_result(res)) == #[trigger] container_spec(t0, ids_view(zone_ids@), *container_layout, c);
            let r = match res {
                Ok(_) => Ok(()),
                Err(e) => Err(OperationError::TreeError(e)),
            };
            assert(container_spec(t0, ids_view(zone_ids@), *container_layout, c).0 == tree@
                && lift(container_spec(t0, ids_view(zone_ids@), *container_layout, c).1) == op_result(r));
            r
        },
        LayoutOperation::FloatPanel { panel_id } => {
            match tree.remove_panel(panel_id.as_str()) {
                Ok(_) => Ok(()),
                Err(e) => Err(OperationError::TreeError(e)),
            }
        },
        LayoutOperation::DockPanel { panel_id, target_zone_id } => {
            match tree.add_panel_to_zone(target_zone_id, panel_id.clone()) {
                Ok(_) => Ok(()),
                Err(e) => Err(OperationError::TreeError(e)),
            }
        },
        LayoutOperation::SetActivePanel { zone_id, panel_id } => {
            match tree.set_active_panel(zone_id, Some(panel_id.clone())) {
                Ok(_) => Ok(()),
                Err(e) => Err(OperationError::TreeError(e)),
            }
        },
        LayoutOperation::SwapZones { zone1_id, zone2_id } => swap_zones(tree, zone1_id, zone2_id),
        LayoutOperation::CreateZone { zone_id, parent_id, position } => create_zone(tree, zone_id, parent_id, position),
    }
}

/// Concatenate three strings.
fn concat3(a: &str, b: &str, c: &str) -> (r: String)
    ensures
        r@ == a@ + b@ + c@,
{
    let mut s = a.to_string();
    s.append(b);
    s.append(c);
    s
}

/// Add a new zone next to `parent_id` (only splitting is supported).
fn create_zone(tree: &mut LayoutTree, _zone_id: &NodeId, parent_id: &NodeId, position: &ZonePosition) -> (r: Result<(), OperationError>)
    requires
        match *position {
            ZonePosition::AsSibling { ratio, .. } => split_fits(old(tree)@, parent_id@, ratio),
            _ => true,
        },
    ensures
        op_outcome(
            old(tree)@,
            LayoutOperation::CreateZone { zone_id: *_zone_id, parent_id: *parent_id, position: *position },
            final(tree)@,
            op_result(r),
        ),
{
    match position {
        ZonePosition::AsSibling { direction, ratio, new_zone_first } => {
            if tree.find_zone(parent_id).is_some() {
                let ghost t0 = tree@;
                let res = tree.split_zone(parent_id, *direction, *ratio, *new_zone_first);
                let ghost (a, b) = choose|a: Seq<char>, b: Seq<char>|
                    (tree@, crate::tree::id_result(res)) == #[trigger] split_spec(t0, parent_id@, *direction, *ratio, *new_zone_first, a, b);
                let r = match res {
                    Ok(_) => Ok(()),
                    Err(e) => Err(OperationError::TreeError(e)),
                };
                assert(split_spec(t0, parent_id@, *direction, *ratio, *new_zone_first, a, b).0 == tree@
                    && lift(split_spec(t0, parent_id@, *direction, *ratio, *new_zone_first, a, b).1) == op_result(r));
                r
            } else {
                Err(OperationError::InvalidTarget(concat3("Parent ", parent_id.0.as_str(), " is not a zone")))
            }
        },
        ZonePosition::AsChild { .. } => Err(
            OperationError::NotAllowed("Adding zones as container children not yet implemented".to_string()),
        ),
    }
}

/// Remove each panel in turn.
fn remove_all(tree: &mut LayoutTree, panels: &Vec<String>) -> (r: Result<(), TreeError>)
    ensures
        (final(tree)@, unit_result(r)) == remove_all_spec(old(tree)@, crate::node::strs(panels@)),
{
    let ghost ps = crate::node::strs(panels@);
    let ghost t0 = tree@;
    let mut i: usize = 0;
    assert(ps.subrange(0, 0) =~= Seq::<Seq<char>>::empty());
    while i < panels.len()
        invariant
            i <= panels@.len(),
            ps == crate::node::strs(panels@),
            t0 == old(tree)@,
            remove_all_spec(t0, ps.subrange(0, i as int)) == (tree@, Ok::<(), TreeErrorModel>(())),
        decreases panels@.len() - i,
    {
        assert(ps.subrange(0, i + 1).drop_last() =~= ps.subrange(0, i as int));
        let ghost tb = tree@;
        let r = tree.remove_panel(panels[i].as_str());
        assert(ps[i as int] == panels@[i as int]@);
        assert(remove_all_spec(t0, ps.subrange(0, i + 1)) == remove_panel_spec(tb, ps[i as int]));
        if r.is_err() {
            proof {
                lemma_remove_all_stops(t0, ps, i as int + 1);
            }
            return r;
        }
        i = i + 1;
    }
    assert(ps.subrange(0, i as int) =~= ps);
    Ok(())
}

/// Once a step fails, the later steps change nothing.
proof fn lemma_remove_all_stops(t: TreeModel, ps: Seq<Seq<char>>, k: int)
    requires
        0 <= k <= ps.len(),
        remove_all_spec(t, ps.subrange(0, k)).1 is Err,
    ensures
        remove_all_spec(t, ps) == remove_all_spec(t, ps.subrange(0, k)),
    decreases ps.len() - k,
{
    if k < ps.len() {
        assert(ps.subrange(0, k + 1).drop_last() =~= ps.subrange(0, k));
        lemma_remove_all_stops(t, ps, k + 1);
    } else {
        assert(ps.subrange(0, k) =~= ps);
    }
}

proof fn lemma_add_all_stops(t: TreeModel, z: Seq<char>, ps: Seq<Seq<char>>, k: int)
    requires
        0 <= k <= ps.len(),
        add_all_spec(t, z, ps.subrange(0, k)).1 is Err,
    ensures
        add_all_spec(t, z, ps) == add_all_spec(t, z, ps.subrange(0, k)),
    decreases ps.len() - k,
{
    if k < ps.len() {
        assert(ps.subrange(0, k + 1).drop_last() =~= ps.subrange(0, k));
        lemma_add_all_stops(t, z, ps, k + 1);
    } else {
        assert(ps.subrange(0, k) =~= ps);
    }
}

/// Add each panel in turn to a zone.
fn add_all(tree: &mut LayoutTree, zone: &NodeId, panels: &Vec<String>) -> (r: Result<(), TreeError>)
    ensures
        (final(tree)@, unit_result(r)) == add_all_spec(old(tree)@, zone@, crate::node::strs(panels@)),
{
    let ghost ps = crate::node::strs(panels@);
    let ghost t0 = tree@;
    let mut i: usize = 0;
    assert(ps.subrange(0, 0) =~= Seq::<Seq<char>>::empty());
    while i < panels.len()
        invariant
            i <= panels@.len(),
            ps == crate::node::strs(panels@),
            t0 == old(tree)@,
            add_all_spec(t0, zone@, ps.subrange(0, i as int)) == (tree@, Ok::<(), TreeErrorModel>(())),
        decreases panels@.len() - i,
    {
        assert(ps.subrange(0, i + 1).drop_last() =~= ps.subrange(0, i as int));
        let ghost tb = tree@;
        let r = tree.add_panel_to_zone(zone, panels[i].clone());
        assert(ps[i as int] == panels@[i as int]@);
        assert(add_all_spec(t0, zone@, ps.subrange(0, i + 1)) == add_panel_spec(tb, zone@, ps[i as int], None));
        if r.is_err() {
            proof {
                lemma_add_all_stops(t0, zone@, ps, i as int + 1);
            }
            return r;
        }
        i = i + 1;
    }
    assert(ps.subrange(0, i as int) =~= ps);
    Ok(())
}

/// The panels of a zone node, copied.
fn panels_of(node: &LayoutNode) -> (r: Vec<String>)
    ensures
        match node@ {
            NodeModel::Zone { content, .. } => crate::node::strs(r@) == content.panels,
            _ => r@.len() == 0,
        },
{
    match node.zone_content() {
        Some(c) => c.copy().panels,
        None => Vec::new(),
    }
}

/// Exchange the panels of two zones.
fn swap_zones(tree: &mut LayoutTree, zone_a: &NodeId, zone_b: &NodeId) -> (r: Result<(), OperationError>)
    ensures
        swap_spec(old(tree)@, zone_a@, zone_b@) == (final(tree)@, op_result(r)),
{
    let ghost t0 = tree@;
    let panels_a = match tree.find_zone(zone_a) {
        Some(z) => panels_of(z),
        None => {
            return Err(OperationError::InvalidTarget(concat3("Zone ", zone_a.0.as_str(), " not found")));
        },
    };
    let panels_b = match tree.find_zone(zone_b) {
        Some(z) => panels_of(z),
        None => {
            return Err(OperationError::InvalidTarget(concat3("Zone ", zone_b.0.as_str(), " not found")));
        },
    };
    match remove_all(tree, &panels_a) {
        Ok(()) => {},
        Err(e) => {
            return Err(OperationError::TreeError(e));
        },
    }
    match remove_all(tree, &panels_b) {
        Ok(()) => {},
        Err(e) => {
            return Err(OperationError::TreeError(e));
        },
    }
    match add_all(tree, zone_b, &panels_a) {
        Ok(()) => {},
        Err(e) => {
            return Err(OperationError::TreeError(e));
        },
    }
    match add_all(tree, zone_a, &panels_b) {
        Ok(()) => Ok(()),
        Err(e) => Err(OperationError::TreeError(e)),
    }
}


/// Abstract executor: the undo and redo stacks (each entry: an operation and
/// the tree state to go back to) and the undo limit.
#[verifier::ext_equal]
pub ghost struct ExecutorModel {
    pub undo: Seq<(LayoutOperation, TreeModel)>,
    pub redo: Seq<(LayoutOperation, TreeModel)>,
    pub max_undo: nat,
}

/// Executor for layout operations with undo/redo support.
pub struct LayoutOperationExecutor {
    undo_stack: Vec<(LayoutOperation, LayoutTree)>,
    redo_stack: Vec<(LayoutOperation, LayoutTree)>,
}

/// How many operations the undo history keeps.
pub const MAX_UNDO_LEVELS: usize = 50;

pub open spec fn stack_view(s: Seq<(LayoutOperation, LayoutTree)>) -> Seq<(LayoutOperation, TreeModel)> {
    s.map_values(|e: (LayoutOperation, LayoutTree)| (e.0, e.1@))
}

impl View for LayoutOperationExecutor {
    type V = ExecutorModel;

    closed spec fn view(&self) -> ExecutorModel {
        ExecutorModel {
            undo: stack_view(self.undo_stack@),
            redo: stack_view(self.redo_stack@),
            max_undo: MAX_UNDO_LEVELS as nat,
        }
    }
}

/// The stack after pushing `x`, dropping the oldest entry when over the limit.
pub open spec fn push_bounded(s: Seq<(LayoutOperation, TreeModel)>, x: (LayoutOperation, TreeModel), max: nat) -> Seq<(LayoutOperation, TreeModel)> {
    if s.len() + 1 > max {
        s.push(x).drop_first()
    } else {
        s.push(x)
    }
}

/// The executor after a successful operation `op` applied to state `before`.
pub open spec fn recorded(e: ExecutorModel, op: LayoutOperation, before: TreeModel) -> ExecutorModel {
    ExecutorModel { undo: push_bounded(e.undo, (op, before), e.max_undo), redo: Seq::empty(), max_undo: e.max_undo }
}

/// `undo`: the executor, the tree and the outcome afterwards.
pub open spec fn undo_spec(e: ExecutorModel, t: TreeModel) -> (ExecutorModel, TreeModel, Result<(), OperationErrorModel>) {
    if e.undo.len() == 0 {
        (e, t, Err(OperationErrorModel::NothingToUndo))
    } else {
        (
            ExecutorModel { undo: e.undo.drop_last(), redo: e.redo.push((e.undo.last().0, t)), max_undo: e.max_undo },
            e.undo.last().1,
            Ok(()),
        )
    }
}

/// `redo`: the executor, the tree and the outcome afterwards.
pub open spec fn redo_spec(e: ExecutorModel, t: TreeModel) -> (ExecutorModel, TreeModel, Result<(), OperationErrorModel>) {
    if e.redo.len() == 0 {
        (e, t, Err(OperationErrorModel::NothingToRedo))
    } else {
        (
            ExecutorModel { undo: e.undo.push((e.redo.last().0, t)), redo: e.redo.drop_last(), max_undo: e.max_undo },
            e.redo.last().1,
            Ok(()),
        )
    }
}

impl LayoutOperationExecutor {
    /// A new executor with empty history and an undo limit of 50.
    pub fn new() -> (r: LayoutOperationExecutor)
        ensures
            r@ == (ExecutorModel { undo: Seq::empty(), redo: Seq::empty(), max_undo: 50 }),
    {
        let r = LayoutOperationExecutor { undo_stack: Vec::new(), redo_stack: Vec::new() };
        assert(r@ =~= ExecutorModel { undo: Seq::empty(), redo: Seq::empty(), max_undo: 50 });
        r
    }

    /// Apply an operation to the tree; on success it is recorded for undo
    /// and the redo history is cleared.
    pub fn execute(&mut self, operation: LayoutOperation, tree: &mut LayoutTree) -> (r: Result<(), OperationError>)
        requires
            op_fits(old(tree)@, operation),
            op_args_ok(operation),
        ensures
            op_outcome(old(tree)@, operation, final(tree)@, op_result(r)),
            r is Ok ==> final(self)@ == recorded(old(self)@, operation, old(tree)@),
            r is Err ==> final(self)@ == old(self)@,
    {
        let ghost e0 = self@;
        let ghost t0 = tree@;
        let previous_state = tree.clone();
        let r = apply_operation(&operation, tree);
        if r.is_err() {
            return r;
        }
        let ghost opg = operation;
        let ghost u0 = self.undo_stack@;
        self.undo_stack.push((operation, previous_state));
        assert(stack_view(self.undo_stack@) =~= stack_view(u0).push((opg, t0)));
        if self.undo_stack.len() > MAX_UNDO_LEVELS {
            let ghost u1 = self.undo_stack@;
            self.undo_stack.remove(0);
            assert(stack_view(self.undo_stack@) =~= stack_view(u1).drop_first());
        }
        self.redo_stack.clear();
        assert(self@ =~= recorded(e0, opg, t0));
        r
    }

    /// Go back to the state before the last recorded operation.
    pub fn undo(&mut self, tree: &mut LayoutTree) -> (r: Result<(), OperationError>)
        ensures
            (final(self)@, final(tree)@, op_result(r)) == undo_spec(old(self)@, old(tree)@),
    {
        let ghost e0 = self@;
        let ghost u0 = self.undo_stack@;
        match self.undo_stack.pop() {
            Some((operation, previous_state)) => {
                assert(stack_view(self.undo_stack@) =~= stack_view(u0).drop_last());
                let current_state = tree.clone();
                *tree = previous_state;
                let ghost r0 = self.redo_stack@;
                self.redo_stack.push((operation, current_state));
                assert(stack_view(self.redo_stack@) =~= stack_view(r0).push((e0.undo.last().0, old(tree)@)));
                assert(self@ =~= undo_spec(e0, old(tree)@).0);
                Ok(())
            },
            None => Err(OperationError::NothingToUndo),
        }
    }

    /// Re-apply the last undone operation.
    pub fn redo(&mut self, tree: &mut LayoutTree) -> (r: Result<(), OperationError>)
        ensures
            (final(self)@, final(tree)@, op_result(r)) == redo_spec(old(self)@, old(tree)@),
    {
        let ghost e0 = self@;
        let ghost r0 = self.redo_stack@;
        match self.redo_stack.pop() {
            Some((operation, next_state)) => {
                assert(stack_view(self.redo_stack@) =~= stack_view(r0).drop_last());
                let current_state = tree.clone();
                *tree = next_state;
                let ghost u0 = self.undo_stack@;
                self.undo_stack.push((operation, current_state));
                assert(stack_view(self.undo_stack@) =~= stack_view(u0).push((e0.redo.last().0, old(tree)@)));
                assert(self@ =~= redo_spec(e0, old(tree)@).0);
                Ok(())
            },
            None => Err(OperationError::NothingToRedo),
        }
    }

    /// Whether there is an operation to undo.
    pub fn can_undo(&self) -> (r: bool)
        ensures
            r == (self@.undo.len() > 0),
    {
        self.undo_stack.len() > 0
    }

    /// Whether there is an operation to redo.
    pub fn can_redo(&self) -> (r: bool)
        ensures
            r == (self@.redo.len() > 0),
    {
        self.redo_stack.len() > 0
    }

    /// Forget the undo and redo history.
    pub fn clear_history(&mut self)
        ensures
            final(self)@ == (ExecutorModel { undo: Seq::empty(), redo: Seq::empty(), max_undo: old(self)@.max_undo }),
    {
        self.undo_stack.clear();
        self.redo_stack.clear();
        assert(self@ =~= ExecutorModel { undo: Seq::empty(), redo: Seq::empty(), max_undo: old(self)@.max_undo });
    }
}

impl Default for LayoutOperationExecutor {
    fn default() -> (r: LayoutOperationExecutor)
        ensures
            r@ == (ExecutorModel { undo: Seq::empty(), redo: Seq::empty(), max_undo: 50 }),
    {
        LayoutOperationExecutor::new()
    }
}

/// Every executor keeps at most 50 operations in its undo history: the limit
/// is the same for all executors and never changes.
pub proof fn law_undo_limit_fixed(e: &LayoutOperationExecutor)
    ensures
        e@.max_undo == 50,
{
}

/// Undoing right after a successful operation gives back the tree as it was
/// before the operation, and, while the history was below its limit, the
/// undo history as it was.
pub proof fn law_undo_after_execute(e: ExecutorModel, op: LayoutOperation, before: TreeModel, after: TreeModel)
    requires
        e.max_undo > 0,
    ensures
        undo_spec(recorded(e, op, before), after).1 == before,
        undo_spec(recorded(e, op, before), after).2 is Ok,
        e.undo.len() + 1 <= e.max_undo ==> undo_spec(recorded(e, op, before), after).0.undo == e.undo,
{
    let s = e.undo.push((op, before));
    if e.undo.len() + 1 <= e.max_undo {
        assert(s.drop_last() =~= e.undo);
    } else {
        assert(s.drop_first().last() == s.last());
    }
}

/// Redo right after a successful undo restores both the executor and the tree.
pub proof fn law_redo_after_undo(e: ExecutorModel, t: TreeModel)
    requires
        e.undo.len() > 0,
    ensures
        ({
            let (e1, t1, _) = undo_spec(e, t);
            redo_spec(e1, t1) == (e, t, Ok::<(), OperationErrorModel>(()))
        }),
{
    let (e1, t1, _) = undo_spec(e, t);
    assert(e1.redo.drop_last() =~= e.redo);
    assert(e1.undo.push((e1.redo.last().0, t1)) =~= e.undo);
    assert(redo_spec(e1, t1).0 =~= e);
}

/// Undo right after a successful redo restores both the executor and the tree.
pub proof fn law_undo_after_redo(e: ExecutorModel, t: TreeModel)
    requires
        e.redo.len() > 0,
    ensures
        ({
            let (e1, t1, _) = redo_spec(e, t);
            undo_spec(e1, t1) == (e, t, Ok::<(), OperationErrorModel>(()))
        }),
{
    let (e1, t1, _) = redo_spec(e, t);
    assert(e1.undo.drop_last() =~= e.undo);
    assert(e1.redo.push((e1.undo.last().0, t1)) =~= e.redo);
    assert(undo_spec(e1, t1).0 =~= e);
}

/// The undo history never grows beyond its limit.
pub proof fn law_undo_history_bounded(e: ExecutorModel, op: LayoutOperation, before: TreeModel)
    requires
        e.undo.len() <= e.max_undo,
    ensures
        recorded(e, op, before).undo.len() <= e.max_undo,
{
}

/// A successful operation empties the redo history: right after it there is
/// nothing to redo, and a redo fails and leaves the tree as it is, even when
/// undone operations were waiting to be redone.
pub proof fn law_execute_clears_redo(e: ExecutorModel, op: LayoutOperation, before: TreeModel, t: TreeModel)
    ensures
        recorded(e, op, before).redo.len() == 0,
        redo_spec(recorded(e, op, before), t).2 == Err::<(), OperationErrorModel>(OperationErrorModel::NothingToRedo),
        redo_spec(recorded(e, op, before), t).1 == t,
        redo_spec(recorded(e, op, before), t).0 == recorded(e, op, before),
{
}

/// The executor after the operations `ops` succeeded in turn, the `i`-th
/// applied to the tree `ts[i]`.
pub open spec fn record_all(e: ExecutorModel, ops: Seq<LayoutOperation>, ts: Seq<TreeModel>) -> ExecutorModel
    decreases ops.len(),
{
    if ops.len() == 0 {
        e
    } else {
        recorded(record_all(e, ops.drop_last(), ts), ops.last(), ts[ops.len() - 1])
    }
}

/// The executor and tree after `k` undos in a row, and whether all succeeded.
pub open spec fn undo_n(e: ExecutorModel, t: TreeModel, k: nat) -> (ExecutorModel, TreeModel, bool)
    decreases k,
{
    if k == 0 {
        (e, t, true)
    } else {
        let (e1, t1, r) = undo_spec(e, t);
        let (e2, t2, ok) = undo_n(e1, t1, (k - 1) as nat);
        (e2, t2, ok && r is Ok)
    }
}

proof fn lemma_record_all(e: ExecutorModel, ops: Seq<LayoutOperation>, ts: Seq<TreeModel>)
    requires
        ts.len() == ops.len() + 1,
        e.undo.len() + ops.len() <= e.max_undo,
    ensures
        record_all(e, ops, ts).undo == e.undo + Seq::new(ops.len(), |i: int| (ops[i], ts[i])),
        record_all(e, ops, ts).max_undo == e.max_undo,
    decreases ops.len(),
{
    if ops.len() > 0 {
        let n = ops.len() - 1;
        lemma_record_all(e, ops.drop_last(), ts.subrange(0, ts.len() - 1));
        assert forall|i: int| 0 <= i < n implies ts.subrange(0, ts.len() - 1)[i] == ts[i] by {}
        assert(record_all(e, ops.drop_last(), ts.subrange(0, ts.len() - 1)) == record_all(e, ops.drop_last(), ts)) by {
            lemma_record_all_prefix(e, ops.drop_last(), ts.subrange(0, ts.len() - 1), ts);
        }
        assert(record_all(e, ops, ts).undo =~= e.undo + Seq::new(ops.len(), |i: int| (ops[i], ts[i])));
    }
}

proof fn lemma_record_all_prefix(e: ExecutorModel, ops: Seq<LayoutOperation>, a: Seq<TreeModel>, b: Seq<TreeModel>)
    requires
        ops.len() <= a.len(),
        ops.len() <= b.len(),
        forall|i: int| 0 <= i < ops.len() ==> a[i] == b[i],
    ensures
        record_all(e, ops, a) == record_all(e, ops, b),
    decreases ops.len(),
{
    if ops.len() > 0 {
        lemma_record_all_prefix(e, ops.drop_last(), a, b);
    }
}

proof fn lemma_undo_n(e: ExecutorModel, t: TreeModel, k: nat)
    requires
        0 < k <= e.undo.len(),
    ensures
        undo_n(e, t, k).2,
        undo_n(e, t, k).1 == e.undo[e.undo.len() - k].1,
        undo_n(e, t, k).0.undo == e.undo.subrange(0, e.undo.len() - k),
    decreases k,
{
    let (e1, t1, r) = undo_spec(e, t);
    assert(r is Ok);
    assert(undo_n(e, t, k) == ({
        let (e2, t2, ok) = undo_n(e1, t1, (k - 1) as nat);
        (e2, t2, ok && r is Ok)
    }));
    if k > 1 {
        lemma_undo_n(e1, t1, (k - 1) as nat);
    } else {
        assert(undo_n(e1, t1, 0) == (e1, t1, true));
        assert(e.undo.drop_last() =~= e.undo.subrange(0, e.undo.len() - 1));
    }
}

/// Undos come back in last-in-first-out order: after `n` successful
/// operations, the `i`-th applied to the tree `ts[i]` and leaving `ts[n]`,
/// with room for all of them in the history, `k` undos (for `k <= n`) all
/// succeed and give back the tree from before the `(n - k)`-th operation,
/// with the earlier entries still in the history.
pub proof fn law_undo_lifo(e: ExecutorModel, ops: Seq<LayoutOperation>, ts: Seq<TreeModel>, k: nat)
    requires
        ts.len() == ops.len() + 1,
        e.undo.len() + ops.len() <= e.max_undo,
        k <= ops.len(),
    ensures
        ({
            let (e2, t2, ok) = undo_n(record_all(e, ops, ts), ts[ops.len() as int], k);
            &&& ok
            &&& t2 == ts[ops.len() - k]
            &&& e2.undo == e.undo + Seq::new((ops.len() - k) as nat, |i: int| (ops[i], ts[i]))
        }),
{
    lemma_record_all(e, ops, ts);
    let r = record_all(e, ops, ts);
    let n = ops.len();
    if k == 0 {
        assert(r.undo =~= e.undo + Seq::new((n - k) as nat, |i: int| (ops[i], ts[i])));
    } else {
        lemma_undo_n(r, ts[n as int], k);
        assert(r.undo[r.undo.len() - k] == (ops[n - k], ts[n - k]));
        assert(r.undo.subrange(0, r.undo.len() - k) =~= e.undo + Seq::new((n - k) as nat, |i: int| (ops[i], ts[i])));
    }
}

/// Result of a layout operation.
pub type OperationResult<T> = Result<T, OperationError>;

/// Common layouts that a tree can start from. Ratios are in thousandths.
#[derive(Debug, Clone, Copy, PartialEq, Eq)]
pub enum LayoutPreset {
    SinglePane,
    TwoPaneHorizontal { ratio: u32 },
    TwoPaneVertical { ratio: u32 },
    ThreeColumn { left_ratio: u32, right_ratio: u32 },
    Seaglass,
}

/// A tree with one empty zone, `root`.
pub open spec fn single_pane() -> TreeModel {
    rebuilt(NodeModel::Zone { id: "root"@, content: empty_content() })
}

pub open spec fn tree_outcome(r: OperationResult<LayoutTree>) -> Result<TreeModel, OperationErrorModel> {
    match r {
        Ok(t) => Ok(t@),
        Err(e) => Err(e@),
    }
}

/// The outcome of a split as a tree or an operation error.
pub open spec fn split_outcome(t: TreeModel, zone: Seq<char>, d: SplitDirection, ratio: u32, first: bool, a: Seq<char>, b: Seq<char>) -> Result<
    TreeModel,
    OperationErrorModel,
> {
    let (t2, r) = split_spec(t, zone, d, ratio, first, a, b);
    match r {
        Ok(_) => Ok(t2),
        Err(e) => Err(OperationErrorModel::TreeError(e)),
    }
}

/// The ratio of the right column's neighbour: what is left of the whole
/// (nothing, for a right column above the whole).
pub open spec fn rest_ratio(right: u32) -> u32 {
    if right <= 1000 {
        (1000 - right) as u32
    } else {
        0
    }
}

/// Three columns: the root is split with the new zone first, then that new
/// zone is split again, the new zone second.
pub open spec fn three_columns(left: u32, right: u32, a1: Seq<char>, b1: Seq<char>, a2: Seq<char>, b2: Seq<char>) -> Result<
    TreeModel,
    OperationErrorModel,
> {
    match split_outcome(single_pane(), "root"@, SplitDirection::Horizontal, left, true, a1, b1) {
        Ok(t1) => split_outcome(t1, a1, SplitDirection::Horizontal, rest_ratio(right), false, a2, b2),
        Err(e) => Err(e),
    }
}

impl LayoutTree {
    /// A tree laid out as a preset.
    pub fn from_preset(preset: LayoutPreset) -> (r: OperationResult<LayoutTree>)
        ensures
            match preset {
                LayoutPreset::SinglePane => r matches Ok(t) && t@ == single_pane(),
                LayoutPreset::TwoPaneHorizontal { ratio } => exists|a: Seq<char>, b: Seq<char>|
                    tree_outcome(r) == split_outcome(single_pane(), "root"@, SplitDirection::Horizontal, ratio, true, a, b),
                LayoutPreset::TwoPaneVertical { ratio } => exists|a: Seq<char>, b: Seq<char>|
                    tree_outcome(r) == split_outcome(single_pane(), "root"@, SplitDirection::Vertical, ratio, true, a, b),
                LayoutPreset::ThreeColumn { left_ratio, right_ratio } => exists|
                    a1: Seq<char>,
                    b1: Seq<char>,
                    a2: Seq<char>,
                    b2: Seq<char>,
                | a1.len() == 36 && tree_outcome(r) == three_columns(left_ratio, right_ratio, a1, b1, a2, b2),
                LayoutPreset::Seaglass => r matches Ok(t) && layout_with_shape(t@, default_shape()),
            },
    {
        match preset {
            LayoutPreset::SinglePane => {
                let t = LayoutTree::new();
                assert(t@ == single_pane());
                Ok(t)
            },
            LayoutPreset::TwoPaneHorizontal { ratio } => two_pane_tree(SplitDirection::Horizontal, ratio),
            LayoutPreset::TwoPaneVertical { ratio } => two_pane_tree(SplitDirection::Vertical, ratio),
            LayoutPreset::ThreeColumn { left_ratio, right_ratio } => three_column_tree(left_ratio, right_ratio),
            LayoutPreset::Seaglass => match LayoutBuilder::default_seaglass_layout() {
                Ok(t) => Ok(t),
                Err(e) => Err(OperationError::InvalidTarget(e.message())),
            },
        }
    }
}

fn two_pane_tree(direction: SplitDirection, ratio: u32) -> (r: OperationResult<LayoutTree>)
    ensures
        exists|a: Seq<char>, b: Seq<char>|
            tree_outcome(r) == split_outcome(single_pane(), "root"@, direction, ratio, true, a, b),
{
    let mut tree = LayoutTree::new();
    let root_id = NodeId::from_string("root");
    let ghost base = tree@;
    proof {
        reveal_strlit("root");
        reveal_with_fuel(insert_all, 3);
        assert(zone_entries(base.root, Seq::empty()) =~= seq![("root"@, Seq::<usize>::empty())]);
        assert(base.zones["root"@] == Seq::<usize>::empty());
    }
    let a = NodeId::new();
    let b = NodeId::new();
    let ghost av = a@;
    let ghost bv = b@;
    let res = tree.split_zone_with_ids(&root_id, direction, ratio, true, a, b);
    let r = match res {
        Ok(_) => Ok(tree),
        Err(e) => Err(OperationError::TreeError(e)),
    };
    assert(tree_outcome(r) == split_outcome(single_pane(), "root"@, direction, ratio, true, av, bv));
    r
}

fn three_column_tree(left_ratio: u32, right_ratio: u32) -> (r: OperationResult<LayoutTree>)
    ensures
        exists|a1: Seq<char>, b1: Seq<char>, a2: Seq<char>, b2: Seq<char>|
            a1.len() == 36 && tree_outcome(r) == three_columns(left_ratio, right_ratio, a1, b1, a2, b2),
{
    let mut tree = LayoutTree::new();
    let root_id = NodeId::from_string("root");
    let a1 = NodeId::new();
    let b1 = NodeId::new();
    let ghost a1v = a1@;
    let ghost b1v = b1@;
    let a2 = NodeId::new();
    let b2 = NodeId::new();
    let ghost a2v = a2@;
    let ghost b2v = b2@;
    let ghost base = tree@;
    proof {
        reveal_strlit("root");
        reveal_with_fuel(insert_all, 3);
        assert(zone_entries(base.root, Seq::empty()) =~= seq![("root"@, Seq::<usize>::empty())]);
        assert(insert_all(Map::<Seq<char>, Seq<usize>>::empty(), seq![("root"@, Seq::<usize>::empty())])
            == Map::<Seq<char>, Seq<usize>>::empty().insert("root"@, Seq::<usize>::empty())) by {
            assert(seq![("root"@, Seq::<usize>::empty())].drop_last() =~= Seq::<(Seq<char>, Seq<usize>)>::empty());
        }
        assert(base.zones["root"@] == Seq::<usize>::empty());
    }
    let first = tree.split_zone_with_ids(&root_id, SplitDirection::Horizontal, left_ratio, true, a1, b1);
    if let Err(e) = first {
        let r = Err(OperationError::TreeError(e));
        assert(a1v.len() == 36 && tree_outcome(r) == three_columns(left_ratio, right_ratio, a1v, b1v, a2v, b2v));
        return r;
    }
    let ghost t1 = tree@;
    let ghost sp = split_node(base.root, SplitDirection::Horizontal, left_ratio, true, a1v, b1v);
    proof {
        assert(t1 == rebuilt(sp));
        assert(a1v != "root"@) by {
            assert(a1v.len() != "root"@.len());
        }
        reveal_with_fuel(zone_entries, 3);
        reveal_with_fuel(insert_all, 3);
        assert(Seq::<usize>::empty().push(0) =~= seq![0usize]);
        assert(Seq::<usize>::empty().push(1) =~= seq![1usize]);
        assert(sp == NodeModel::Split {
            id: b1v,
            direction: SplitDirection::Horizontal,
            ratio: left_ratio,
            first: Box::new(NodeModel::Zone { id: a1v, content: empty_content() }),
            second: Box::new(base.root),
        });
        assert(zone_entries(NodeModel::Zone { id: a1v, content: empty_content() }, seq![0usize]) == seq![(a1v, seq![0usize])]);
        assert(zone_entries(base.root, seq![1usize]) == seq![("root"@, seq![1usize])]);
        assert(zone_entries(sp, Seq::empty()) =~= seq![(a1v, seq![0usize]), ("root"@, seq![1usize])]);
        let es = seq![(a1v, seq![0usize]), ("root"@, seq![1usize])];
        assert(es.drop_last() =~= seq![(a1v, seq![0usize])]);
        assert(seq![(a1v, seq![0usize])].drop_last() =~= Seq::<(Seq<char>, Seq<usize>)>::empty());
        assert(t1.zones[a1v] == seq![0usize]);
        reveal_with_fuel(zone_ids, 2);
        reveal_with_fuel(height, 2);
        assert(zone_ids(sp) =~= seq![a1v, "root"@]);
        assert(height(sp) == 1);
    }
    // The new zone is the first zone that is not the root.
    let zones = tree.get_all_zone_ids();
    assert(zones@[0]@ == a1v);
    let mut i: usize = 0;
    while i < zones.len() && zones[i].0 == root_id.0
        invariant
            i == 0,
            ids_view(zones@) == seq![a1v, "root"@],
            root_id@ == "root"@,
            a1v != "root"@,
        decreases zones@.len() - i,
    {
        i = i + 1;
    }
    assert(i == 0);
    let center = zones[i].copy();
    let ratio2 = if right_ratio <= 1000 {
        1000 - right_ratio
    } else {
        0
    };
    proof {
        reveal_with_fuel(node_at, 2);
        assert(seq![0usize].drop_first() =~= Seq::<usize>::empty());
        assert(node_at(sp, seq![0usize]) == Some(NodeModel::Zone { id: a1v, content: empty_content() }));
        reveal_with_fuel(height_with, 2);
    }
    let second = tree.split_zone_with_ids(&center, SplitDirection::Horizontal, ratio2, false, a2, b2);
    let r = match second {
        Ok(_) => Ok(tree),
        Err(e) => Err(OperationError::TreeError(e)),
    };
    assert(a1v.len() == 36 && tree_outcome(r) == three_columns(left_ratio, right_ratio, a1v, b1v, a2v, b2v));
    r
}

/// Builder for a list of layout operations. Ratios are in thousandths.
#[derive(Debug)]
pub struct LayoutOperationBuilder {
    operations: Vec<LayoutOperation>,
}

impl LayoutOperationBuilder {
    /// The operations added so far.
    pub closed spec fn ops(&self) -> Seq<LayoutOperation> {
        self.operations@
    }

    /// An empty builder.
    pub fn new() -> (r: LayoutOperationBuilder)
        ensures
            r.ops().len() == 0,
    {
        LayoutOperationBuilder { operations: Vec::new() }
    }

    /// Add a split zone operation.
    pub fn split_zone(self, zone_id: NodeId, direction: SplitDirection, ratio: u32, new_zone_first: bool) -> (r: LayoutOperationBuilder)
        ensures
            r.ops() == self.ops().push(LayoutOperation::SplitZone { zone_id, direction, ratio, new_zone_first }),
    {
        let mut s = self;
        s.operations.push(LayoutOperation::SplitZone { zone_id, direction, ratio, new_zone_first });
        s
    }

    /// Add a move panel operation (appends to end of zone).
    pub fn move_panel(self, panel_id: String, target_zone_id: NodeId) -> (r: LayoutOperationBuilder)
        ensures
            r.ops() == self.ops().push(LayoutOperation::MovePanel { panel_id, target_zone_id, insert_index: None }),
    {
        let mut s = self;
        s.operations.push(LayoutOperation::MovePanel { panel_id, target_zone_id, insert_index: None });
        s
    }

    /// Add a move panel operation at a specific index.
    pub fn move_panel_at(self, panel_id: String, target_zone_id: NodeId, insert_index: usize) -> (r: LayoutOperationBuilder)
        ensures
            r.ops() == self.ops().push(
                LayoutOperation::MovePanel { panel_id, target_zone_id, insert_index: Some(insert_index) },
            ),
    {
        let mut s = self;
        s.operations.push(
            LayoutOperation::MovePanel { panel_id, target_zone_id, insert_index: Some(insert_index) },
        );
        s
    }

    /// Add a resize split operation.
    pub fn resize_split(self, split_id: NodeId, new_ratio: u32) -> (r: LayoutOperationBuilder)
        ensures
            r.ops() == self.ops().push(LayoutOperation::ResizeSplit { split_id, new_ratio }),
    {
        let mut s = self;
        s.operations.push(LayoutOperation::ResizeSplit { split_id, new_ratio });
        s
    }

    /// The list of operations.
    pub fn build(self) -> (r: Vec<LayoutOperation>)
        ensures
            r@ == self.ops(),
    {
        self.operations
    }
}

impl Default for LayoutOperationBuilder {
    fn default() -> (r: LayoutOperationBuilder)
        ensures
            r.ops().len() == 0,
    {
        LayoutOperationBuilder::new()
    }
}

} // verus!
