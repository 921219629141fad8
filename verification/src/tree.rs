use vstd::prelude::*;
use crate::assoc::{assoc_get, assoc_insert, assoc_map, assoc_remove};
use crate::layout_node::{
    height, lemma_height_replace, lemma_models_index, lemma_replace_same, lemma_replace_twice,
    models, node_at, opt_model, placeholder, hole, replace_at, swap_at, first_path, find, height_with,
    zone_ids, zone_ids_seq, ids_view, lemma_heights_ge, heights, LayoutNode, NodeModel, child_at,
    first_path_from,
};
use crate::text::{dec, dec_string, ratio_string, ratio_text};
use crate::node::{
    content_add, content_insert_at, content_remove, content_set_active, empty_content,
    ContentModel, NodeId, NodePath, SplitDirection, ZoneContent, opt_str,
};

verus! {

/// Maximum depth of a layout tree: no node may sit deeper than 99 levels below the root.
pub const MAX_TREE_DEPTH: u32 = 100;

/// Errors that can occur during tree operations.
#[derive(Debug)]
pub enum TreeError {
    NodeNotFound(String),
    InvalidOperation(String),
    PanelNotFound(String),
    NotAZone,
    CannotSplitContainer,
    /// The rejected ratio, in thousandths.
    InvalidSplitRatio(u32),
    MaxDepthExceeded(u32),
}

/// The abstract form of a tree error.
pub ghost enum TreeErrorModel {
    NodeNotFound(Seq<char>),
    InvalidOperation(Seq<char>),
    PanelNotFound(Seq<char>),
    NotAZone,
    CannotSplitContainer,
    InvalidSplitRatio(u32),
    MaxDepthExceeded(u32),
}

impl View for TreeError {
    type V = TreeErrorModel;

    open spec fn view(&self) -> TreeErrorModel {
        match self {
            TreeError::NodeNotFound(s) => TreeErrorModel::NodeNotFound(s@),
            TreeError::InvalidOperation(s) => TreeErrorModel::InvalidOperation(s@),
            TreeError::PanelNotFound(s) => TreeErrorModel::PanelNotFound(s@),
            TreeError::NotAZone => TreeErrorModel::NotAZone,
            TreeError::CannotSplitContainer => TreeErrorModel::CannotSplitContainer,
            TreeError::InvalidSplitRatio(r) => TreeErrorModel::InvalidSplitRatio(*r),
            TreeError::MaxDepthExceeded(d) => TreeErrorModel::MaxDepthExceeded(*d),
        }
    }
}

/// The text of a tree error. Ratios are shown as fractions.
pub open spec fn tree_error_message(e: TreeErrorModel) -> Seq<char> {
    match e {
        TreeErrorModel::NodeNotFound(s) => "Node not found: "@ + s,
        TreeErrorModel::InvalidOperation(s) => "Invalid operation: "@ + s,
        TreeErrorModel::PanelNotFound(s) => "Panel not found: "@ + s,
        TreeErrorModel::NotAZone => "Zone is not a content zone"@,
        TreeErrorModel::CannotSplitContainer => "Cannot split a container node"@,
        TreeErrorModel::InvalidSplitRatio(r) => "Invalid split ratio: "@ + ratio_text(r as nat),
        TreeErrorModel::MaxDepthExceeded(d) => "Layout tree exceeds maximum depth of "@ + dec(d as nat),
    }
}

impl TreeError {
    /// The error's message.
    pub fn message(&self) -> (r: String)
        ensures
            r@ == tree_error_message(self@),
    {
        match self {
            TreeError::NodeNotFound(s) => String::from_str("Node not found: ").concat(s.as_str()),
            TreeError::InvalidOperation(s) => String::from_str("Invalid operation: ").concat(s.as_str()),
            TreeError::PanelNotFound(s) => String::from_str("Panel not found: ").concat(s.as_str()),
            TreeError::NotAZone => String::from_str("Zone is not a content zone"),
            TreeError::CannotSplitContainer => String::from_str("Cannot split a container node"),
            TreeError::InvalidSplitRatio(r) => String::from_str("Invalid split ratio: ").concat(
                ratio_string(*r).as_str(),
            ),
            TreeError::MaxDepthExceeded(d) => String::from_str("Layout tree exceeds maximum depth of ").concat(
                dec_string(*d).as_str(),
            ),
        }
    }
}

/// The abstract outcome of an operation without a value.
pub open spec fn unit_result(r: Result<(), TreeError>) -> Result<(), TreeErrorModel> {
    match r {
        Ok(_) => Ok(()),
        Err(e) => Err(e@),
    }
}

/// The abstract outcome of an operation that yields a node identifier.
pub open spec fn id_result(r: Result<NodeId, TreeError>) -> Result<Seq<char>, TreeErrorModel> {
    match r {
        Ok(id) => Ok(id@),
        Err(e) => Err(e@),
    }
}

/// The abstract state of a layout tree: its root and its two lookup caches.
#[verifier::ext_equal]
pub ghost struct TreeModel {
    pub root: NodeModel,
    /// Zone identifier to path, as last rebuilt.
    pub zones: Map<Seq<char>, Seq<usize>>,
    /// Panel identifier to zone identifier.
    pub panels: Map<Seq<char>, Seq<char>>,
}

/// The layout tree structure.
#[derive(Debug)]
pub struct LayoutTree {
    root: LayoutNode,
    zone_cache: Vec<(String, NodePath)>,
    panel_cache: Vec<(String, NodeId)>,
}

impl View for LayoutTree {
    type V = TreeModel;

    closed spec fn view(&self) -> TreeModel {
        TreeModel {
            root: self.root@,
            zones: assoc_map(self.zone_cache@),
            panels: assoc_map(self.panel_cache@),
        }
    }
}

/// Zones in pre-order, each with its path.
pub open spec fn zone_entries(n: NodeModel, path: Seq<usize>) -> Seq<(Seq<char>, Seq<usize>)>
    decreases n,
{
    match n {
        NodeModel::Zone { id, .. } => seq![(id, path)],
        NodeModel::Split { first, second, .. } => zone_entries(*first, path.push(0))
            + zone_entries(*second, path.push(1)),
        NodeModel::Container { children, .. } => zone_entries_seq(children, path),
    }
}

pub open spec fn zone_entries_seq(s: Seq<NodeModel>, path: Seq<usize>) -> Seq<(Seq<char>, Seq<usize>)>
    decreases s,
{
    if s.len() == 0 {
        Seq::empty()
    } else {
        zone_entries_seq(s.drop_last(), path) + zone_entries(
            s.last(),
            path.push((s.len() - 1) as usize),
        )
    }
}

/// Each panel of each zone, in pre-order, with its zone's identifier.
pub open spec fn panel_entries(n: NodeModel) -> Seq<(Seq<char>, Seq<char>)>
    decreases n,
{
    match n {
        NodeModel::Zone { id, content } => content.panels.map_values(|p: Seq<char>| (p, id)),
        NodeModel::Split { first, second, .. } => panel_entries(*first) + panel_entries(*second),
        NodeModel::Container { children, .. } => panel_entries_seq(children),
    }
}

pub open spec fn panel_entries_seq(s: Seq<NodeModel>) -> Seq<(Seq<char>, Seq<char>)>
    decreases s,
{
    if s.len() == 0 {
        Seq::empty()
    } else {
        panel_entries_seq(s.drop_last()) + panel_entries(s.last())
    }
}

/// `m` after inserting each entry in turn (a later entry overrides an earlier one).
pub open spec fn insert_all<V>(m: Map<Seq<char>, V>, es: Seq<(Seq<char>, V)>) -> Map<Seq<char>, V>
    decreases es.len(),
{
    if es.len() == 0 {
        m
    } else {
        insert_all(m, es.drop_last()).insert(es.last().0, es.last().1)
    }
}

pub proof fn lemma_insert_all_append<V>(m: Map<Seq<char>, V>, a: Seq<(Seq<char>, V)>, b: Seq<(Seq<char>, V)>)
    ensures
        insert_all(m, a + b) == insert_all(insert_all(m, a), b),
    decreases b.len(),
{
    if b.len() == 0 {
        assert(a + b =~= a);
    } else {
        assert((a + b).drop_last() =~= a + b.drop_last());
        lemma_insert_all_append(m, a, b.drop_last());
    }
}

/// The caches as rebuilt from a root.
pub open spec fn rebuilt(root: NodeModel) -> TreeModel {
    TreeModel {
        root,
        zones: insert_all(Map::empty(), zone_entries(root, Seq::empty())),
        panels: insert_all(Map::empty(), panel_entries(root)),
    }
}

/// Fill the caches from `node` at `path`.
fn build_cache_recursive(
    node: &LayoutNode,
    path: &NodePath,
    depth: u32,
    zones: &mut Vec<(String, NodePath)>,
    panels: &mut Vec<(String, NodeId)>,
)
    requires
        depth + height(node@) < MAX_TREE_DEPTH,
    ensures
        assoc_map(final(zones)@) == insert_all(assoc_map(old(zones)@), zone_entries(node@, path@)),
        assoc_map(final(panels)@) == insert_all(assoc_map(old(panels)@), panel_entries(node@)),
    decreases node,
{
    match node {
        LayoutNode::Zone { id, content } => {
            let ghost z0 = assoc_map(zones@);
            assoc_insert(zones, id.text(), path.copy());
            assert(seq![(id@, path@)].drop_last() =~= Seq::<(Seq<char>, Seq<usize>)>::empty());
            assert(node@ == NodeModel::Zone { id: id@, content: content@ });
            assert(zone_entries(node@, path@) == seq![(id@, path@)]);
            assert(insert_all(z0, seq![(id@, path@)]) == insert_all(z0, Seq::<(Seq<char>, Seq<usize>)>::empty()).insert(id@, path@));
            assert(assoc_map(zones@) == insert_all(z0, zone_entries(node@, path@)));
            let ghost p0 = assoc_map(panels@);
            let ghost es = content@.panels.map_values(|p: Seq<char>| (p, id@));
            let mut i: usize = 0;
            assert(es.subrange(0, 0) =~= Seq::<(Seq<char>, Seq<char>)>::empty());
            while i < content.panels.len()
                invariant
                    i <= content.panels@.len(),
                    es == content@.panels.map_values(|p: Seq<char>| (p, id@)),
                    es.len() == content.panels@.len(),
                    assoc_map(panels@) == insert_all(p0, es.subrange(0, i as int)),
                decreases content.panels@.len() - i,
            {
                assoc_insert(panels, content.panels[i].clone(), id.copy());
                assert(es.subrange(0, i + 1).drop_last() =~= es.subrange(0, i as int));
                assert(es[i as int] == (content.panels@[i as int]@, id@));
                i = i + 1;
            }
            assert(es.subrange(0, i as int) =~= es);
        },
        LayoutNode::Split { first, second, .. } => {
            let ghost z0 = assoc_map(zones@);
            let ghost p0 = assoc_map(panels@);
            build_cache_recursive(first, &path.child(0), depth + 1, zones, panels);
            build_cache_recursive(second, &path.child(1), depth + 1, zones, panels);
            proof {
                lemma_insert_all_append(z0, zone_entries(first@, path@.push(0)), zone_entries(second@, path@.push(1)));
                lemma_insert_all_append(p0, panel_entries(first@), panel_entries(second@));
            }
        },
        LayoutNode::Container { children, .. } => {
            let ghost ms = models(children@);
            let ghost z0 = assoc_map(zones@);
            let ghost p0 = assoc_map(panels@);
            proof {
                lemma_models_index(children@);
            }
            let mut i: usize = 0;
            assert(ms.subrange(0, 0) =~= Seq::<NodeModel>::empty());
            while i < children.len()
                invariant
                    i <= children@.len(),
                    *node is Container,
                    node->children == *children,
                    ms == models(children@),
                    ms.len() == children@.len(),
                    forall|j: int| 0 <= j < children@.len() ==> #[trigger] ms[j] == crate::layout_node::model(children@[j]),
                    depth + height(node@) < MAX_TREE_DEPTH,
                    height(node@) == if ms.len() == 0 { 0 } else { 1 + crate::layout_node::heights(ms) },
                    assoc_map(zones@) == insert_all(z0, zone_entries_seq(ms.subrange(0, i as int), path@)),
                    assoc_map(panels@) == insert_all(p0, panel_entries_seq(ms.subrange(0, i as int))),
                decreases children@.len() - i,
            {
                proof {
                    assert(decreases_to!(*node => node->children));
                    assert(decreases_to!(node->children => node->children@));
                    assert(decreases_to!(children@ => children@[i as int]));
                    assert(ms.subrange(0, i + 1).drop_last() =~= ms.subrange(0, i as int));
                    lemma_heights_ge(ms, i as int);
                    lemma_insert_all_append(z0, zone_entries_seq(ms.subrange(0, i as int), path@), zone_entries(ms[i as int], path@.push(i)));
                    lemma_insert_all_append(p0, panel_entries_seq(ms.subrange(0, i as int)), panel_entries(ms[i as int]));
                }
                build_cache_recursive(&children[i], &path.child(i), depth + 1, zones, panels);
                i = i + 1;
            }
            assert(ms.subrange(0, i as int) =~= ms);
            assert(zone_entries(node@, path@) == zone_entries_seq(ms, path@));
        },
    }
}


/// The model with another root and the same caches.
pub open spec fn with_root(t: TreeModel, root: NodeModel) -> TreeModel {
    TreeModel { root, ..t }
}

/// Path of the node `find_zone` reaches: the first node with the identifier, if it is a zone.
pub open spec fn zone_path(root: NodeModel, id: Seq<char>) -> Option<Seq<usize>> {
    match first_path(root, id) {
        Some(p) => match node_at(root, p) {
            Some(NodeModel::Zone { .. }) => Some(p),
            _ => None,
        },
        None => None,
    }
}

/// The content of the zone at a path.
pub open spec fn content_at(root: NodeModel, p: Seq<usize>) -> ContentModel {
    node_at(root, p).unwrap()->Zone_content
}

/// The tree with the content of the zone at `p` replaced by `c`.
pub open spec fn with_content(root: NodeModel, p: Seq<usize>, c: ContentModel) -> NodeModel {
    replace_at(root, p, NodeModel::Zone { id: node_at(root, p).unwrap().id(), content: c })
}

/// `add_panel_to_zone` (with `index` given: `add_panel_to_zone_at`).
pub open spec fn add_panel_spec(t: TreeModel, zone: Seq<char>, panel: Seq<char>, index: Option<nat>) -> (
    TreeModel,
    Result<(), TreeErrorModel>,
) {
    match zone_path(t.root, zone) {
        Some(p) => {
            let c = content_at(t.root, p);
            let c2 = match index {
                Some(i) => content_insert_at(c, panel, i),
                None => content_add(c, panel),
            };
            (
                TreeModel {
                    root: with_content(t.root, p, c2),
                    zones: t.zones,
                    panels: t.panels.insert(panel, zone),
                },
                Ok(()),
            )
        },
        None => (t, Err(TreeErrorModel::NodeNotFound(zone))),
    }
}

/// `remove_panel`.
pub open spec fn remove_panel_spec(t: TreeModel, panel: Seq<char>) -> (TreeModel, Result<(), TreeErrorModel>) {
    if !t.panels.contains_key(panel) {
        (t, Err(TreeErrorModel::PanelNotFound(panel)))
    } else {
        let zone = t.panels[panel];
        match zone_path(t.root, zone) {
            None => (t, Err(TreeErrorModel::NodeNotFound(zone))),
            Some(p) => {
                let c = content_at(t.root, p);
                if c.panels.contains(panel) {
                    (
                        TreeModel {
                            root: with_content(t.root, p, content_remove(c, panel)),
                            zones: t.zones,
                            panels: t.panels.remove(panel),
                        },
                        Ok(()),
                    )
                } else {
                    (t, Err(TreeErrorModel::PanelNotFound(panel)))
                }
            },
        }
    }
}

/// `move_panel`: remove, add to the target (at `index` if given), then make it active there.
pub open spec fn move_panel_spec(t: TreeModel, panel: Seq<char>, target: Seq<char>, index: Option<nat>) -> (
    TreeModel,
    Result<(), TreeErrorModel>,
) {
    let (t1, r1) = remove_panel_spec(t, panel);
    if r1 is Err {
        (t1, r1)
    } else {
        let (t2, r2) = add_panel_spec(t1, target, panel, index);
        if r2 is Err {
            (t2, r2)
        } else {
            match zone_path(t2.root, target) {
                Some(p) => (
                    TreeModel {
                        root: with_content(
                            t2.root,
                            p,
                            ContentModel { active: Some(panel), ..content_at(t2.root, p) },
                        ),
                        ..t2
                    },
                    Ok(()),
                ),
                None => (t2, Ok(())),
            }
        }
    }
}

/// `set_active_panel`.
pub open spec fn set_active_spec(t: TreeModel, zone: Seq<char>, panel: Option<Seq<char>>) -> (
    TreeModel,
    Result<(), TreeErrorModel>,
) {
    match zone_path(t.root, zone) {
        Some(p) => (
            TreeModel {
                root: with_content(t.root, p, content_set_active(content_at(t.root, p), panel)),
                ..t
            },
            Ok(()),
        ),
        None => (t, Err(TreeErrorModel::NodeNotFound(zone))),
    }
}

/// Whether a ratio (in thousandths) lies in the accepted range 0.1..=0.9.
pub open spec fn ratio_ok(ratio: u32) -> bool {
    100 <= ratio <= 900
}

/// `update_split_ratio`.
pub open spec fn update_ratio_spec(t: TreeModel, split: Seq<char>, ratio: u32) -> (
    TreeModel,
    Result<(), TreeErrorModel>,
) {
    if !ratio_ok(ratio) {
        (t, Err(TreeErrorModel::InvalidSplitRatio(ratio)))
    } else {
        match first_path(t.root, split) {
            None => (t, Err(TreeErrorModel::NodeNotFound(split))),
            Some(p) => match node_at(t.root, p) {
                Some(NodeModel::Split { id, direction, first, second, .. }) => (
                    TreeModel {
                        root: replace_at(
                            t.root,
                            p,
                            NodeModel::Split { id, direction, ratio, first, second },
                        ),
                        ..t
                    },
                    Ok(()),
                ),
                _ => (t, Err(TreeErrorModel::InvalidOperation("Node is not a split"@))),
            },
        }
    }
}

impl LayoutTree {
    /// A tree with a single empty root zone whose identifier is `root`.
    pub fn new() -> (r: LayoutTree)
        ensures
            r@ == rebuilt(NodeModel::Zone { id: "root"@, content: empty_content() }),
    {
        let root = LayoutNode::Zone { id: NodeId::from_string("root"), content: ZoneContent::new() };
        LayoutTree::from_root(root)
    }

    /// A tree over an existing root node, with its caches built.
    pub fn from_root(root: LayoutNode) -> (r: LayoutTree)
        requires
            height(root@) < MAX_TREE_DEPTH,
        ensures
            r@ == rebuilt(root@),
    {
        let mut tree = LayoutTree { root, zone_cache: Vec::new(), panel_cache: Vec::new() };
        tree.rebuild_caches();
        tree
    }

    /// The root node.
    pub fn root(&self) -> (r: &LayoutNode)
        ensures
            r@ == self@.root,
    {
        &self.root
    }

    /// The root node, to change in place; the caches are left as they are.
    pub fn root_mut(&mut self) -> (r: &mut LayoutNode)
        ensures
            r@ == old(self)@.root,
            final(self)@ == with_root(old(self)@, final(r)@),
    {
        &mut self.root
    }

    /// Rebuild the caches from the root.
    fn rebuild_caches(&mut self)
        requires
            height(old(self)@.root) < MAX_TREE_DEPTH,
        ensures
            final(self)@ == rebuilt(old(self)@.root),
    {
        let mut zones: Vec<(String, NodePath)> = Vec::new();
        let mut panels: Vec<(String, NodeId)> = Vec::new();
        assert(assoc_map(zones@) =~= Map::<Seq<char>, Seq<usize>>::empty());
        assert(assoc_map(panels@) =~= Map::<Seq<char>, Seq<char>>::empty());
        build_cache_recursive(&self.root, &NodePath::root(), 0, &mut zones, &mut panels);
        self.zone_cache = zones;
        self.panel_cache = panels;
        assert(self@ =~= rebuilt(old(self)@.root));
    }

    /// Path of the zone `find_zone` reaches.
    fn zone_path_of(&self, zone_id: &NodeId) -> (r: Option<Vec<usize>>)
        ensures
            match r {
                Some(p) => zone_path(self@.root, zone_id@) == Some(p@),
                None => zone_path(self@.root, zone_id@) is None,
            },
    {
        match self.root.find_path(zone_id) {
            Some(p) => {
                let path = NodePath(p);
                let is_zone = match self.root.get_at_path(&path) {
                    Some(n) => n.is_zone(),
                    None => false,
                };
                if is_zone {
                    Some(path.0)
                } else {
                    None
                }
            },
            None => None,
        }
    }

    /// Take the node at a path out of the tree, leaving a placeholder.
    fn take_at(&mut self, path: &Vec<usize>) -> (r: LayoutNode)
        requires
            node_at(old(self)@.root, path@) is Some,
        ensures
            node_at(old(self)@.root, path@) == Some(r@),
            final(self)@ == with_root(old(self)@, replace_at(old(self)@.root, path@, hole())),
    {
        let mut root = placeholder();
        std::mem::swap(&mut root, &mut self.root);
        assert(path@.subrange(0, path@.len() as int) =~= path@);
        let (r2, old_node) = swap_at(root, path, 0, placeholder());
        self.root = r2;
        assert(self@ =~= TreeModel { root: replace_at(old(self)@.root, path@, hole()), ..old(self)@ });
        old_node
    }

    /// Put a node back at a path.
    fn put_at(&mut self, path: &Vec<usize>, node: LayoutNode)
        requires
            node_at(old(self)@.root, path@) is Some,
        ensures
            final(self)@ == with_root(old(self)@, replace_at(old(self)@.root, path@, node@)),
    {
        let mut root = placeholder();
        std::mem::swap(&mut root, &mut self.root);
        assert(path@.subrange(0, path@.len() as int) =~= path@);
        let (r2, _old_node) = swap_at(root, path, 0, node);
        self.root = r2;
        assert(self@ =~= TreeModel { root: replace_at(old(self)@.root, path@, node@), ..old(self)@ });
    }
}


/// An edit of a zone's content.
pub enum ContentOp {
    Add(String),
    InsertAt(String, u32),
    Remove(String),
    SetActive(Option<String>),
    ForceActive(String),
}

/// The content after an edit.
pub open spec fn apply_op(c: ContentModel, op: ContentOp) -> ContentModel {
    match op {
        ContentOp::Add(p) => content_add(c, p@),
        ContentOp::InsertAt(p, i) => content_insert_at(c, p@, i as nat),
        ContentOp::Remove(p) => content_remove(c, p@),
        ContentOp::SetActive(p) => content_set_active(c, opt_str(p)),
        ContentOp::ForceActive(p) => ContentModel { active: Some(p@), ..c },
    }
}

pub proof fn lemma_with_same_content(root: NodeModel, p: Seq<usize>)
    requires
        node_at(root, p) matches Some(NodeModel::Zone { .. }),
    ensures
        with_content(root, p, content_at(root, p)) == root,
{
    let z = node_at(root, p).unwrap();
    assert(z == NodeModel::Zone { id: z.id(), content: content_at(root, p) });
    lemma_replace_same(root, p);
}

impl LayoutTree {
    /// Apply an edit to the content of the zone at a path; reports whether a
    /// removal found its panel.
    fn modify_zone(&mut self, path: &Vec<usize>, op: ContentOp) -> (r: bool)
        requires
            node_at(old(self)@.root, path@) matches Some(NodeModel::Zone { .. }),
        ensures
            final(self)@ == with_root(
                old(self)@,
                with_content(old(self)@.root, path@, apply_op(content_at(old(self)@.root, path@), op)),
            ),
            op is Remove ==> r == content_at(old(self)@.root, path@).panels.contains(op->Remove_0@),
    {
        let ghost t0 = self@;
        let ghost opv = op;
        let node = self.take_at(path);
        proof {
            lemma_replace_twice(t0.root, path@, hole(), hole());
        }
        let mut removed = false;
        match node {
            LayoutNode::Zone { id, content } => {
                let mut content = content;
                match op {
                    ContentOp::Add(p) => content.add_panel(p),
                    ContentOp::InsertAt(p, i) => content.insert_panel_at(p, i),
                    ContentOp::Remove(p) => {
                        removed = content.remove_panel(p.as_str());
                    },
                    ContentOp::SetActive(p) => content.set_active_panel(p),
                    ContentOp::ForceActive(p) => {
                        content.active_panel = Some(p);
                    },
                }
                let ghost newc = content@;
                assert(newc =~= apply_op(content_at(t0.root, path@), opv));
                let z = LayoutNode::Zone { id, content };
                proof {
                    lemma_replace_twice(t0.root, path@, hole(), z@);
                }
                self.put_at(path, z);
            },
            other => {
                proof {
                    assert(false);
                }
                self.put_at(path, other);
            },
        }
        assert(self@ =~= with_root(
            t0,
            with_content(t0.root, path@, apply_op(content_at(t0.root, path@), opv)),
        ));
        removed
    }
}


impl LayoutTree {
    /// The zone with the given identifier, to change in place.
    pub fn find_zone_mut(&mut self, zone_id: &NodeId) -> (r: Option<&mut LayoutNode>)
        ensures
            match zone_path(old(self)@.root, zone_id@) {
                Some(p) => r matches Some(x) && node_at(old(self)@.root, p) == Some(x@)
                    && final(self)@ == with_root(
                    old(self)@,
                    replace_at(old(self)@.root, p, final(x)@),
                ),
                None => r is None && final(self)@ == old(self)@,
            },
    {
        match self.zone_path_of(zone_id) {
            Some(p) => self.root.get_at_path_mut(&NodePath(p)),
            None => None,
        }
    }

    /// The zone with the given identifier: the first node with that
    /// identifier, if it is a zone.
    pub fn find_zone(&self, zone_id: &NodeId) -> (r: Option<&LayoutNode>)
        ensures
            opt_model(r) == match zone_path(self@.root, zone_id@) {
                Some(p) => node_at(self@.root, p),
                None => None,
            },
    {
        match self.zone_path_of(zone_id) {
            Some(p) => self.root.get_at_path(&NodePath(p)),
            None => None,
        }
    }

    /// All zone identifiers, in pre-order.
    pub fn get_all_zone_ids(&self) -> (r: Vec<NodeId>)
        requires
            height(self@.root) < MAX_TREE_DEPTH,
        ensures
            ids_view(r@) == zone_ids(self@.root),
    {
        self.root.collect_zone_ids()
    }

    /// The zone the panel cache records for a panel.
    pub fn find_panel_zone(&self, panel_id: &str) -> (r: Option<NodeId>)
        ensures
            match r {
                Some(z) => self@.panels.contains_key(panel_id@) && z@ == self@.panels[panel_id@],
                None => !self@.panels.contains_key(panel_id@),
            },
    {
        let key = panel_id.to_string();
        match assoc_get(&self.panel_cache, &key) {
            Some(z) => Some(z.copy()),
            None => None,
        }
    }

    /// Add a panel to a zone (appended, unless already there).
    pub fn add_panel_to_zone(&mut self, zone_id: &NodeId, panel_id: String) -> (r: Result<(), TreeError>)
        ensures
            (final(self)@, unit_result(r)) == add_panel_spec(old(self)@, zone_id@, panel_id@, None),
    {
        let ghost t0 = self@;
        let path = match self.zone_path_of(zone_id) {
            Some(p) => p,
            None => {
                return Err(TreeError::NodeNotFound(zone_id.text()));
            },
        };
        let ghost pv = panel_id@;
        self.modify_zone(&path, ContentOp::Add(panel_id.clone()));
        assoc_insert(&mut self.panel_cache, panel_id, zone_id.copy());
        assert(self@ =~= add_panel_spec(t0, zone_id@, pv, None).0);
        Ok(())
    }

    /// Add a panel to a zone at an index (clamped to the end); a panel
    /// already in the zone is moved there.
    pub fn add_panel_to_zone_at(&mut self, zone_id: &NodeId, panel_id: String, index: usize) -> (r: Result<(), TreeError>)
        requires
            index <= u32::MAX,
        ensures
            (final(self)@, unit_result(r)) == add_panel_spec(old(self)@, zone_id@, panel_id@, Some(index as nat)),
    {
        let ghost t0 = self@;
        let path = match self.zone_path_of(zone_id) {
            Some(p) => p,
            None => {
                return Err(TreeError::NodeNotFound(zone_id.text()));
            },
        };
        let ghost pv = panel_id@;
        self.modify_zone(&path, ContentOp::InsertAt(panel_id.clone(), index as u32));
        assoc_insert(&mut self.panel_cache, panel_id, zone_id.copy());
        assert(self@ =~= add_panel_spec(t0, zone_id@, pv, Some(index as nat)).0);
        Ok(())
    }

    /// Remove a panel from the zone the panel cache records for it.
    pub fn remove_panel(&mut self, panel_id: &str) -> (r: Result<(), TreeError>)
        ensures
            (final(self)@, unit_result(r)) == remove_panel_spec(old(self)@, panel_id@),
    {
        let ghost t0 = self@;
        let key = panel_id.to_string();
        let zone_id = match assoc_get(&self.panel_cache, &key) {
            Some(z) => z.copy(),
            None => {
                return Err(TreeError::PanelNotFound(key));
            },
        };
        let path = match self.zone_path_of(&zone_id) {
            Some(p) => p,
            None => {
                return Err(TreeError::NodeNotFound(zone_id.text()));
            },
        };
        let removed = self.modify_zone(&path, ContentOp::Remove(key.clone()));
        if removed {
            assoc_remove(&mut self.panel_cache, &key);
            assert(self@ =~= remove_panel_spec(t0, panel_id@).0);
            Ok(())
        } else {
            proof {
                lemma_with_same_content(t0.root, path@);
                assert(content_remove(content_at(t0.root, path@), key@) == content_at(t0.root, path@));
            }
            assert(self@ =~= t0);
            Err(TreeError::PanelNotFound(key))
        }
    }

    /// Move a panel to another zone (at `insert_index` if given, else at
    /// the end) and make it the active panel there.
    pub fn move_panel(&mut self, panel_id: &str, target_zone_id: &NodeId, insert_index: Option<usize>) -> (r: Result<(), TreeError>)
        requires
            insert_index matches Some(i) ==> i <= u32::MAX,
        ensures
            (final(self)@, unit_result(r)) == move_panel_spec(
                old(self)@,
                panel_id@,
                target_zone_id@,
                match insert_index {
                    Some(i) => Some(i as nat),
                    None => None,
                },
            ),
    {
        let ghost t0 = self@;
        match self.remove_panel(panel_id) {
            Ok(()) => {},
            Err(e) => {
                return Err(e);
            },
        }
        let added = match insert_index {
            Some(idx) => self.add_panel_to_zone_at(target_zone_id, panel_id.to_string(), idx),
            None => self.add_panel_to_zone(target_zone_id, panel_id.to_string()),
        };
        match added {
            Ok(()) => {},
            Err(e) => {
                return Err(e);
            },
        }
        let ghost t2 = self@;
        match self.zone_path_of(target_zone_id) {
            Some(p) => {
                self.modify_zone(&p, ContentOp::ForceActive(panel_id.to_string()));
            },
            None => {},
        }
        Ok(())
    }

    /// Set (or, with `None`, clear) the active panel of a zone.
    pub fn set_active_panel(&mut self, zone_id: &NodeId, panel_id: Option<String>) -> (r: Result<(), TreeError>)
        ensures
            (final(self)@, unit_result(r)) == set_active_spec(old(self)@, zone_id@, opt_str(panel_id)),
    {
        let path = match self.zone_path_of(zone_id) {
            Some(p) => p,
            None => {
                return Err(TreeError::NodeNotFound(zone_id.text()));
            },
        };
        self.modify_zone(&path, ContentOp::SetActive(panel_id));
        Ok(())
    }

    /// Set the ratio (in thousandths) of the split with the given identifier.
    pub fn update_split_ratio(&mut self, split_id: &NodeId, new_ratio: u32) -> (r: Result<(), TreeError>)
        ensures
            (final(self)@, unit_result(r)) == update_ratio_spec(old(self)@, split_id@, new_ratio),
    {
        let ghost t0 = self@;
        if !(100 <= new_ratio && new_ratio <= 900) {
            return Err(TreeError::InvalidSplitRatio(new_ratio));
        }
        let path = match self.root.find_path(split_id) {
            Some(p) => p,
            None => {
                return Err(TreeError::NodeNotFound(split_id.text()));
            },
        };
        let exists = match self.root.get_at_path(&NodePath(path.clone())) {
            Some(_) => true,
            None => false,
        };
        if !exists {
            return Err(TreeError::InvalidOperation("Node is not a split".to_string()));
        }
        let node = self.take_at(&path);
        proof {
            lemma_replace_twice(t0.root, path@, hole(), hole());
        }
        match node {
            LayoutNode::Split { id, direction, first, second, .. } => {
                let n = LayoutNode::Split { id, direction, ratio: new_ratio, first, second };
                proof {
                    lemma_replace_twice(t0.root, path@, hole(), n@);
                }
                self.put_at(&path, n);
                assert(self@ =~= update_ratio_spec(t0, split_id@, new_ratio).0);
                Ok(())
            },
            other => {
                proof {
                    lemma_replace_twice(t0.root, path@, hole(), other@);
                    lemma_replace_same(t0.root, path@);
                }
                self.put_at(&path, other);
                assert(self@ =~= t0);
                Err(TreeError::InvalidOperation("Node is not a split".to_string()))
            },
        }
    }
}

impl Default for LayoutTree {
    fn default() -> (r: LayoutTree)
        ensures
            r@ == rebuilt(NodeModel::Zone { id: "root"@, content: empty_content() }),
    {
        LayoutTree::new()
    }
}


/// The error reported when no node can be placed at `p` (a non-empty path
/// that leads nowhere): `grand` selects the wording used when the node at `p`
/// is itself a parent being replaced.
pub open spec fn placement_error(root: NodeModel, p: Seq<usize>, grand: bool) -> TreeErrorModel {
    match node_at(root, p.drop_last()) {
        None => TreeErrorModel::NodeNotFound(if grand { "grandparent"@ } else { "parent"@ }),
        Some(NodeModel::Split { .. }) => TreeErrorModel::InvalidOperation(
            if grand { "Invalid parent index"@ } else { "Invalid index"@ },
        ),
        Some(NodeModel::Container { .. }) => TreeErrorModel::InvalidOperation(
            if grand { "Parent index out of bounds"@ } else { "Index out of bounds"@ },
        ),
        Some(NodeModel::Zone { .. }) => TreeErrorModel::InvalidOperation(
            if grand { "Grandparent is not a split or container"@ } else { "Parent is not a split or container"@ },
        ),
    }
}

/// The split that `split_zone` puts in place of `old`.
pub open spec fn split_node(
    old: NodeModel,
    direction: SplitDirection,
    ratio: u32,
    new_zone_first: bool,
    new_id: Seq<char>,
    split_id: Seq<char>,
) -> NodeModel {
    let nz = NodeModel::Zone { id: new_id, content: empty_content() };
    NodeModel::Split {
        id: split_id,
        direction,
        ratio,
        first: Box::new(if new_zone_first { nz } else { old }),
        second: Box::new(if new_zone_first { old } else { nz }),
    }
}

/// `split_zone` with the new zone's and the split's identifiers given.
pub open spec fn split_spec(
    t: TreeModel,
    zone: Seq<char>,
    direction: SplitDirection,
    ratio: u32,
    new_zone_first: bool,
    new_id: Seq<char>,
    split_id: Seq<char>,
) -> (TreeModel, Result<Seq<char>, TreeErrorModel>) {
    if !ratio_ok(ratio) {
        (t, Err(TreeErrorModel::InvalidSplitRatio(ratio)))
    } else if !t.zones.contains_key(zone) {
        (t, Err(TreeErrorModel::NodeNotFound(zone)))
    } else {
        let p = t.zones[zone];
        match node_at(t.root, p) {
            Some(old) => (
                rebuilt(replace_at(t.root, p, split_node(old, direction, ratio, new_zone_first, new_id, split_id))),
                Ok(new_id),
            ),
            None => (t, Err(placement_error(t.root, p, false))),
        }
    }
}

/// Whether a split would leave the tree within the depth limit.
pub open spec fn split_fits(t: TreeModel, zone: Seq<char>, ratio: u32) -> bool {
    ratio_ok(ratio) && t.zones.contains_key(zone) && node_at(t.root, t.zones[zone]) is Some
        ==> height_with(t.root, t.zones[zone], height(node_at(t.root, t.zones[zone]).unwrap()) + 1)
        < MAX_TREE_DEPTH
}

impl LayoutTree {
    /// The error for a failed placement at a non-empty path that leads nowhere.
    fn placement_failure(&self, path: &NodePath, grand: bool) -> (r: TreeError)
        requires
            path@.len() > 0,
        ensures
            r@ == placement_error(self@.root, path@, grand),
    {
        let parent = path.parent().unwrap();
        match self.root.get_at_path(&parent) {
            None => TreeError::NodeNotFound(
                if grand { "grandparent".to_string() } else { "parent".to_string() },
            ),
            Some(LayoutNode::Split { .. }) => TreeError::InvalidOperation(
                if grand { "Invalid parent index".to_string() } else { "Invalid index".to_string() },
            ),
            Some(LayoutNode::Container { .. }) => TreeError::InvalidOperation(
                if grand { "Parent index out of bounds".to_string() } else { "Index out of bounds".to_string() },
            ),
            Some(LayoutNode::Zone { .. }) => TreeError::InvalidOperation(
                if grand {
                    "Grandparent is not a split or container".to_string()
                } else {
                    "Parent is not a split or container".to_string()
                },
            ),
        }
    }

    /// Replace the node at a path by `node` and rebuild the caches.
    fn place_and_rebuild(&mut self, path: &Vec<usize>, node: LayoutNode)
        requires
            node_at(old(self)@.root, path@) is Some,
            height(replace_at(old(self)@.root, path@, node@)) < MAX_TREE_DEPTH,
        ensures
            final(self)@ == rebuilt(replace_at(old(self)@.root, path@, node@)),
    {
        self.put_at(path, node);
        self.rebuild_caches();
    }

    /// Split the zone recorded in the zone cache, with the identifiers of the
    /// new zone and of the split given. The ratio is in thousandths.
    pub fn split_zone_with_ids(
        &mut self,
        zone_id: &NodeId,
        direction: SplitDirection,
        ratio: u32,
        new_zone_first: bool,
        new_zone_id: NodeId,
        split_id: NodeId,
    ) -> (r: Result<NodeId, TreeError>)
        requires
            split_fits(old(self)@, zone_id@, ratio),
        ensures
            (final(self)@, id_result(r)) == split_spec(
                old(self)@,
                zone_id@,
                direction,
                ratio,
                new_zone_first,
                new_zone_id@,
                split_id@,
            ),
    {
        let ghost t0 = self@;
        if !(100 <= ratio && ratio <= 900) {
            return Err(TreeError::InvalidSplitRatio(ratio));
        }
        let path = match assoc_get(&self.zone_cache, &zone_id.text()) {
            Some(p) => p.copy(),
            None => {
                return Err(TreeError::NodeNotFound(zone_id.text()));
            },
        };
        if self.root.get_at_path(&path).is_none() {
            return Err(self.placement_failure(&path, false));
        }
        let old_node = self.take_at(&path.0);
        let ghost oldm = old_node@;
        let new_zone = LayoutNode::Zone { id: new_zone_id.copy(), content: ZoneContent::new() };
        let ghost nzm = new_zone@;
        let ghost sid = split_id@;
        assert(nzm == NodeModel::Zone { id: new_zone_id@, content: empty_content() });
        let split = if new_zone_first {
            LayoutNode::Split {
                id: split_id,
                direction,
                ratio,
                first: Box::new(new_zone),
                second: Box::new(old_node),
            }
        } else {
            LayoutNode::Split {
                id: split_id,
                direction,
                ratio,
                first: Box::new(old_node),
                second: Box::new(new_zone),
            }
        };
        let ghost sm = split@;
        assert(sm =~~= split_node(oldm, direction, ratio, new_zone_first, new_zone_id@, sid));
        proof {
            lemma_replace_twice(t0.root, path@, hole(), sm);
            lemma_replace_twice(t0.root, path@, hole(), hole());
            lemma_height_replace(t0.root, path@, sm);
            assert(height(nzm) == 0);
            assert(height(sm) == height(oldm) + 1);
            assert(path@ == t0.zones[zone_id@]);
        }
        self.place_and_rebuild(&path.0, split);
        Ok(new_zone_id)
    }

    /// Split a zone into two; the new, empty zone gets a fresh identifier,
    /// which is returned. The ratio is in thousandths (accepted: 100..=900).
    pub fn split_zone(
        &mut self,
        zone_id: &NodeId,
        direction: SplitDirection,
        ratio: u32,
        new_zone_first: bool,
    ) -> (r: Result<NodeId, TreeError>)
        requires
            split_fits(old(self)@, zone_id@, ratio),
        ensures
            exists|new_id: Seq<char>, split_id: Seq<char>|
                new_id.len() == 36 && split_id.len() == 36 &&
                (final(self)@, id_result(r)) == #[trigger] split_spec(
                    old(self)@,
                    zone_id@,
                    direction,
                    ratio,
                    new_zone_first,
                    new_id,
                    split_id,
                ),
    {
        let new_zone_id = NodeId::new();
        let split_id = NodeId::new();
        let ghost a = new_zone_id@;
        let ghost b = split_id@;
        let r = self.split_zone_with_ids(zone_id, direction, ratio, new_zone_first, new_zone_id, split_id);
        assert((self@, id_result(r)) == split_spec(old(self)@, zone_id@, direction, ratio, new_zone_first, a, b));
        r
    }
}


/// `remove_zone`: the parent split is replaced by the zone's sibling.
pub open spec fn remove_zone_spec(t: TreeModel, zone: Seq<char>) -> (TreeModel, Result<(), TreeErrorModel>) {
    if !t.zones.contains_key(zone) {
        (t, Err(TreeErrorModel::NodeNotFound(zone)))
    } else {
        let p = t.zones[zone];
        if p.len() == 0 {
            (t, Err(TreeErrorModel::InvalidOperation("Cannot remove root zone"@)))
        } else {
            let pp = p.drop_last();
            match node_at(t.root, pp) {
                None => (t, Err(TreeErrorModel::NodeNotFound("parent"@))),
                Some(NodeModel::Split { first, second, .. }) => if p.last() == 0 {
                    (rebuilt(replace_at(t.root, pp, *second)), Ok(()))
                } else if p.last() == 1 {
                    (rebuilt(replace_at(t.root, pp, *first)), Ok(()))
                } else {
                    (t, Err(TreeErrorModel::InvalidOperation("Invalid index"@)))
                },
                Some(_) => (t, Err(TreeErrorModel::InvalidOperation("Parent is not a split"@))),
            }
        }
    }
}

/// Whether removing a zone would leave the tree within the depth limit.
pub open spec fn remove_zone_fits(t: TreeModel, zone: Seq<char>) -> bool {
    (remove_zone_spec(t, zone).1 is Ok) ==> {
        let pp = t.zones[zone].drop_last();
        let parent = node_at(t.root, pp).unwrap();
        let sibling = if t.zones[zone].last() == 0 { *parent->second } else { *parent->first };
        height_with(t.root, pp, height(sibling)) < MAX_TREE_DEPTH
    }
}

/// Content made by adding each panel in turn to an empty zone.
pub open spec fn merged_content(ps: Seq<Seq<char>>) -> ContentModel
    decreases ps.len(),
{
    if ps.len() == 0 {
        empty_content()
    } else {
        content_add(merged_content(ps.drop_last()), ps.last())
    }
}

/// `merge_zones`: the split holding two zones as its children becomes one
/// zone, with the first zone's identifier and the panels of both.
pub open spec fn merge_spec(t: TreeModel, z1: Seq<char>, z2: Seq<char>) -> (TreeModel, Result<Seq<char>, TreeErrorModel>) {
    if !t.zones.contains_key(z1) {
        (t, Err(TreeErrorModel::NodeNotFound(z1)))
    } else if !t.zones.contains_key(z2) {
        (t, Err(TreeErrorModel::NodeNotFound(z2)))
    } else if t.zones[z1].len() == 0 || t.zones[z2].len() == 0 {
        (t, Err(TreeErrorModel::InvalidOperation("Cannot merge root zone"@)))
    } else if t.zones[z1].drop_last() != t.zones[z2].drop_last() {
        (t, Err(TreeErrorModel::InvalidOperation("Zones must be siblings (have the same parent) to merge"@)))
    } else if zone_path(t.root, z1) is None {
        (t, Err(TreeErrorModel::NodeNotFound(z1)))
    } else if zone_path(t.root, z2) is None {
        (t, Err(TreeErrorModel::NodeNotFound(z2)))
    } else {
        let ps = content_at(t.root, zone_path(t.root, z1).unwrap()).panels + content_at(
            t.root,
            zone_path(t.root, z2).unwrap(),
        ).panels;
        let merged = NodeModel::Zone { id: z1, content: merged_content(ps) };
        let pp = t.zones[z1].drop_last();
        match node_at(t.root, pp) {
            Some(NodeModel::Split { .. }) => (rebuilt(replace_at(t.root, pp, merged)), Ok(z1)),
            Some(_) => (t, Err(TreeErrorModel::InvalidOperation("Zones must be children of the same split to merge"@))),
            None => (t, Err(placement_error(t.root, pp, true))),
        }
    }
}

/// Whether merging would leave the tree within the depth limit.
pub open spec fn merge_fits(t: TreeModel, z1: Seq<char>, z2: Seq<char>) -> bool {
    (merge_spec(t, z1, z2).1 is Ok) ==> height_with(t.root, t.zones[z1].drop_last(), 0) < MAX_TREE_DEPTH
}

/// `are_siblings`: both zones are cached at non-root paths with the same parent path.
pub open spec fn siblings_spec(t: TreeModel, z1: Seq<char>, z2: Seq<char>) -> bool {
    &&& t.zones.contains_key(z1)
    &&& t.zones.contains_key(z2)
    &&& t.zones[z1].len() > 0
    &&& t.zones[z2].len() > 0
    &&& t.zones[z1].drop_last() == t.zones[z2].drop_last()
}

/// `get_parent_split`: the node at the parent of the zone's cached path, if it is a split.
pub open spec fn parent_split_spec(t: TreeModel, z: Seq<char>) -> Option<NodeModel> {
    if t.zones.contains_key(z) && t.zones[z].len() > 0 {
        match node_at(t.root, t.zones[z].drop_last()) {
            Some(n) => if n is Split { Some(n) } else { None },
            None => None,
        }
    } else {
        None
    }
}

impl LayoutTree {
    /// Check that a zone can be removed: its cached path, the parent's path and its index.
    fn remove_zone_validate(&self, zone_id: &NodeId) -> (r: Result<(NodePath, NodePath, usize), TreeError>)
        ensures
            match r {
                Ok((p, pp, last)) => self@.zones.contains_key(zone_id@) && p@ == self@.zones[zone_id@]
                    && p@.len() > 0 && pp@ == p@.drop_last() && last == p@.last(),
                Err(e) => remove_zone_spec(self@, zone_id@).1 == Err::<(), TreeErrorModel>(e@),
            },
    {
        let path = match assoc_get(&self.zone_cache, &zone_id.text()) {
            Some(p) => p.copy(),
            None => {
                return Err(TreeError::NodeNotFound(zone_id.text()));
            },
        };
        let parent_path = match path.parent() {
            Some(p) => p,
            None => {
                return Err(TreeError::InvalidOperation("Cannot remove root zone".to_string()));
            },
        };
        let last_index = path.last().unwrap();
        Ok((path, parent_path, last_index))
    }

    /// The sibling that takes the place of the parent split.
    fn remove_zone_find_sibling(&self, parent_path: &NodePath, last_index: usize) -> (r: Result<LayoutNode, TreeError>)
        ensures
            match r {
                Ok(n) => node_at(self@.root, parent_path@) matches Some(NodeModel::Split { first, second, .. })
                    && (last_index == 0 || last_index == 1)
                    && n@ == if last_index == 0 { *second } else { *first },
                Err(e) => match node_at(self@.root, parent_path@) {
                    None => e@ == TreeErrorModel::NodeNotFound("parent"@),
                    Some(NodeModel::Split { .. }) => e@ == TreeErrorModel::InvalidOperation("Invalid index"@)
                        && last_index != 0 && last_index != 1,
                    Some(_) => e@ == TreeErrorModel::InvalidOperation("Parent is not a split"@),
                },
            },
    {
        match self.root.get_at_path(parent_path) {
            None => Err(TreeError::NodeNotFound("parent".to_string())),
            Some(LayoutNode::Split { first, second, .. }) => {
                if last_index == 0 {
                    Ok(second.copy())
                } else if last_index == 1 {
                    Ok(first.copy())
                } else {
                    Err(TreeError::InvalidOperation("Invalid index".to_string()))
                }
            },
            Some(_) => Err(TreeError::InvalidOperation("Parent is not a split".to_string())),
        }
    }

    /// Remove a zone: the parent split is replaced by the zone's sibling.
    pub fn remove_zone(&mut self, zone_id: &NodeId) -> (r: Result<(), TreeError>)
        requires
            remove_zone_fits(old(self)@, zone_id@),
        ensures
            (final(self)@, unit_result(r)) == remove_zone_spec(old(self)@, zone_id@),
    {
        let ghost t0 = self@;
        let (_path, parent_path, last_index) = match self.remove_zone_validate(zone_id) {
            Ok(v) => v,
            Err(e) => {
                return Err(e);
            },
        };
        let sibling = match self.remove_zone_find_sibling(&parent_path, last_index) {
            Ok(n) => n,
            Err(e) => {
                return Err(e);
            },
        };
        proof {
            lemma_height_replace(t0.root, parent_path@, sibling@);
        }
        self.place_and_rebuild(&parent_path.0, sibling);
        Ok(())
    }

    /// Merge two zones that are the children of one split into one zone that
    /// keeps the first zone's identifier and holds the panels of both;
    /// returns that identifier.
    pub fn merge_zones(&mut self, zone1_id: &NodeId, zone2_id: &NodeId) -> (r: Result<NodeId, TreeError>)
        requires
            merge_fits(old(self)@, zone1_id@, zone2_id@),
        ensures
            (final(self)@, id_result(r)) == merge_spec(old(self)@, zone1_id@, zone2_id@),
    {
        let ghost t0 = self@;
        let path1 = match assoc_get(&self.zone_cache, &zone1_id.text()) {
            Some(p) => p.copy(),
            None => {
                return Err(TreeError::NodeNotFound(zone1_id.text()));
            },
        };
        let path2 = match assoc_get(&self.zone_cache, &zone2_id.text()) {
            Some(p) => p.copy(),
            None => {
                return Err(TreeError::NodeNotFound(zone2_id.text()));
            },
        };
        let parent_path1 = match path1.parent() {
            Some(p) => p,
            None => {
                return Err(TreeError::InvalidOperation("Cannot merge root zone".to_string()));
            },
        };
        let parent_path2 = match path2.parent() {
            Some(p) => p,
            None => {
                return Err(TreeError::InvalidOperation("Cannot merge root zone".to_string()));
            },
        };
        if !parent_path1.same(&parent_path2) {
            return Err(
                TreeError::InvalidOperation(
                    "Zones must be siblings (have the same parent) to merge".to_string(),
                ),
            );
        }
        let zone1 = match self.find_zone(zone1_id) {
            Some(z) => z,
            None => {
                return Err(TreeError::NodeNotFound(zone1_id.text()));
            },
        };
        let zone2 = match self.find_zone(zone2_id) {
            Some(z) => z,
            None => {
                return Err(TreeError::NodeNotFound(zone2_id.text()));
            },
        };
        let ghost ps1 = content_at(t0.root, zone_path(t0.root, zone1_id@).unwrap()).panels;
        let ghost ps2 = content_at(t0.root, zone_path(t0.root, zone2_id@).unwrap()).panels;
        let mut merged_content_exec = ZoneContent::new();
        merge_panels_into(&mut merged_content_exec, zone1, Ghost(Seq::empty()));
        assert(Seq::<Seq<char>>::empty() + ps1 =~= ps1);
        merge_panels_into(&mut merged_content_exec, zone2, Ghost(ps1));
        let merged_zone = LayoutNode::Zone { id: zone1_id.copy(), content: merged_content_exec };
        match self.root.get_at_path(&parent_path1) {
            Some(LayoutNode::Split { .. }) => {},
            Some(_) => {
                return Err(
                    TreeError::InvalidOperation(
                        "Zones must be children of the same split to merge".to_string(),
                    ),
                );
            },
            None => {
                return Err(self.placement_failure(&parent_path1, true));
            },
        }
        proof {
            lemma_height_replace(t0.root, parent_path1@, merged_zone@);
        }
        self.place_and_rebuild(&parent_path1.0, merged_zone);
        Ok(zone1_id.copy())
    }

    /// Whether two zones are cached at paths with the same parent.
    pub fn are_siblings(&self, zone1_id: &NodeId, zone2_id: &NodeId) -> (r: bool)
        ensures
            r == siblings_spec(self@, zone1_id@, zone2_id@),
    {
        let path1 = match assoc_get(&self.zone_cache, &zone1_id.text()) {
            Some(p) => p,
            None => {
                return false;
            },
        };
        let path2 = match assoc_get(&self.zone_cache, &zone2_id.text()) {
            Some(p) => p,
            None => {
                return false;
            },
        };
        match (path1.parent(), path2.parent()) {
            (Some(p1), Some(p2)) => p1.same(&p2),
            _ => false,
        }
    }

    /// The split directly above a zone (by its cached path), if any.
    pub fn get_parent_split(&self, zone_id: &NodeId) -> (r: Option<&LayoutNode>)
        ensures
            opt_model(r) == parent_split_spec(self@, zone_id@),
    {
        let path = match assoc_get(&self.zone_cache, &zone_id.text()) {
            Some(p) => p,
            None => {
                return None;
            },
        };
        let parent_path = match path.parent() {
            Some(p) => p,
            None => {
                return None;
            },
        };
        match self.root.get_at_path(&parent_path) {
            Some(parent) => if parent.is_split() {
                Some(parent)
            } else {
                None
            },
            None => None,
        }
    }
}

/// Add the panels of zone node `zone` to `content`, in order.
fn merge_panels_into(content: &mut ZoneContent, zone: &LayoutNode, Ghost(before): Ghost<Seq<Seq<char>>>)
    requires
        old(content)@ == merged_content(before),
    ensures
        final(content)@ == merged_content(
            before + match zone@ {
                NodeModel::Zone { content, .. } => content.panels,
                _ => Seq::empty(),
            },
        ),
{
    match zone {
        LayoutNode::Zone { content: zc, .. } => {
            let mut i: usize = 0;
            assert(before + zc@.panels.subrange(0, 0) =~= before);
            while i < zc.panels.len()
                invariant
                    i <= zc.panels@.len(),
                    content@ == merged_content(before + zc@.panels.subrange(0, i as int)),
                decreases zc.panels@.len() - i,
            {
                content.add_panel(zc.panels[i].clone());
                assert((before + zc@.panels.subrange(0, i + 1)).drop_last() =~= before + zc@.panels.subrange(0, i as int));
                assert(zc@.panels[i as int] == zc.panels@[i as int]@);
                i = i + 1;
            }
            assert(zc@.panels.subrange(0, i as int) =~= zc@.panels);
        },
        _ => {
            assert(before + Seq::<Seq<char>>::empty() =~= before);
        },
    }
}


/// The first position from `i` on whose identifier names no zone.
pub open spec fn first_missing_from(root: NodeModel, ids: Seq<Seq<char>>, i: nat) -> Option<nat>
    decreases ids.len() - i,
{
    if i >= ids.len() {
        None
    } else if zone_path(root, ids[i as int]) is None {
        Some(i)
    } else {
        first_missing_from(root, ids, i + 1)
    }
}

/// The zones named by `ids`, in order.
pub open spec fn zones_of(root: NodeModel, ids: Seq<Seq<char>>) -> Seq<NodeModel> {
    Seq::new(ids.len(), |i: int| node_at(root, zone_path(root, ids[i]).unwrap()).unwrap())
}

/// The identifiers with repeats left out, each at its first occurrence.
pub open spec fn dedup(ids: Seq<Seq<char>>) -> Seq<Seq<char>>
    decreases ids.len(),
{
    if ids.len() == 0 {
        Seq::empty()
    } else {
        let r = dedup(ids.drop_last());
        if r.contains(ids.last()) {
            r
        } else {
            r.push(ids.last())
        }
    }
}

pub proof fn lemma_dedup_first(ids: Seq<Seq<char>>)
    requires
        ids.len() > 0,
    ensures
        dedup(ids).len() > 0,
        dedup(ids)[0] == ids[0],
    decreases ids.len(),
{
    if ids.len() > 1 {
        lemma_dedup_first(ids.drop_last());
    } else {
        assert(dedup(ids.drop_last()) =~= Seq::<Seq<char>>::empty());
    }
}

/// Whether every identifier has a cached path directly below `pp`.
pub open spec fn all_under(t: TreeModel, ids: Seq<Seq<char>>, pp: Seq<usize>) -> bool {
    forall|k: int|
        0 <= k < ids.len() ==> t.zones.contains_key(#[trigger] ids[k]) && t.zones[ids[k]].len() > 0
            && t.zones[ids[k]].drop_last() == pp
}

/// The positions, within their parent, of the zones that `ids` names (by
/// their cached paths).
pub open spec fn positions(t: TreeModel, ids: Seq<Seq<char>>) -> Seq<usize> {
    Seq::new(ids.len(), |k: int| t.zones[ids[k]].last())
}

/// Whether `i` is one of the positions in `g`.
pub open spec fn holds_pos(g: Seq<usize>, i: int) -> bool {
    exists|k: int| 0 <= k < g.len() && #[trigger] g[k] as int == i
}

/// The children of a container after grouping: the child at `first` is
/// replaced by `c`, the children at the positions in `gone` are removed, the
/// others stay in order.
pub open spec fn regroup(s: Seq<NodeModel>, first: usize, gone: Seq<usize>, c: NodeModel) -> Seq<NodeModel>
    decreases s.len(),
{
    if s.len() == 0 {
        Seq::empty()
    } else {
        let i = s.len() - 1;
        let rest = regroup(s.drop_last(), first, gone, c);
        if i == first as int {
            rest.push(c)
        } else if holds_pos(gone, i) {
            rest
        } else {
            rest.push(s.last())
        }
    }
}

/// The node that takes the place of the zones' parent: its children are
/// regrouped (the first zone's place taken by the container, the other
/// zones' places dropped); a split left with one child gives way to that
/// child.
pub open spec fn grouped_parent(parent: NodeModel, pos: Seq<usize>, c: NodeModel) -> NodeModel {
    match parent {
        NodeModel::Container { id, layout, children, active_child } => NodeModel::Container {
            id,
            layout,
            children: regroup(children, pos[0], pos.drop_first(), c),
            active_child,
        },
        NodeModel::Split { id, direction, ratio, first, second } => {
            let kids = regroup(seq![*first, *second], pos[0], pos.drop_first(), c);
            if kids.len() == 2 {
                NodeModel::Split { id, direction, ratio, first: Box::new(kids[0]), second: Box::new(kids[1]) }
            } else if kids.len() == 1 {
                kids[0]
            } else {
                c
            }
        },
        _ => c,
    }
}

/// The container that groups the zones named by `ids`.
pub open spec fn group_node(
    t: TreeModel,
    ids: Seq<Seq<char>>,
    layout: crate::node::ContainerLayout,
    cid: Seq<char>,
) -> NodeModel {
    NodeModel::Container { id: cid, layout, children: zones_of(t.root, ids), active_child: Some(0) }
}

/// `create_container` with the container's identifier given: the zones (each
/// once, however often it is named), which must be children of one parent,
/// move into a new container, which takes the first zone's place; the other
/// zones leave theirs, and a split left with one child gives way to it.
pub open spec fn container_spec(
    t: TreeModel,
    ids: Seq<Seq<char>>,
    layout: crate::node::ContainerLayout,
    cid: Seq<char>,
) -> (TreeModel, Result<Seq<char>, TreeErrorModel>) {
    if ids.len() == 0 {
        (t, Err(TreeErrorModel::InvalidOperation("Cannot create container from empty zone list"@)))
    } else if ids.len() == 1 {
        (t, Err(TreeErrorModel::InvalidOperation("Cannot create container from single zone"@)))
    } else if first_missing_from(t.root, ids, 0) is Some {
        (t, Err(TreeErrorModel::NodeNotFound(ids[first_missing_from(t.root, ids, 0).unwrap() as int])))
    } else if !t.zones.contains_key(ids[0]) {
        (t, Err(TreeErrorModel::NodeNotFound(ids[0])))
    } else if t.zones[ids[0]].len() == 0 || !all_under(t, dedup(ids), t.zones[ids[0]].drop_last()) {
        (t, Err(TreeErrorModel::InvalidOperation("Zones must be siblings (have the same parent)"@)))
    } else {
        let fp = t.zones[ids[0]];
        let pp = fp.drop_last();
        match node_at(t.root, fp) {
            Some(_) => (
                rebuilt(
                    replace_at(
                        t.root,
                        pp,
                        grouped_parent(
                            node_at(t.root, pp).unwrap(),
                            positions(t, dedup(ids)),
                            group_node(t, dedup(ids), layout, cid),
                        ),
                    ),
                ),
                Ok(cid),
            ),
            None => (t, Err(placement_error(t.root, fp, false))),
        }
    }
}

/// Whether creating a container would leave the tree within the depth limit
/// (the container's identifier has no bearing on it).
pub open spec fn container_fits(t: TreeModel, ids: Seq<Seq<char>>) -> bool {
    (container_spec(t, ids, crate::node::ContainerLayout::Tabs, Seq::empty()).1 is Ok) ==> {
        let pp = t.zones[ids[0]].drop_last();
        height_with(
            t.root,
            pp,
            height(
                grouped_parent(
                    node_at(t.root, pp).unwrap(),
                    positions(t, dedup(ids)),
                    group_node(t, dedup(ids), crate::node::ContainerLayout::Tabs, Seq::empty()),
                ),
            ),
        ) < MAX_TREE_DEPTH
    }
}

/// Whether the identifier is among those of `v`.
fn contains_id(v: &Vec<NodeId>, x: &NodeId) -> (r: bool)
    ensures
        r == ids_view(v@).contains(x@),
{
    let mut i: usize = 0;
    while i < v.len()
        invariant
            i <= v@.len(),
            forall|k: int| 0 <= k < i ==> ids_view(v@)[k] != x@,
        decreases v@.len() - i,
    {
        if v[i].same(x) {
            assert(ids_view(v@)[i as int] == x@);
            return true;
        }
        i = i + 1;
    }
    false
}

/// Whether `x` occurs in `v` from position `from` on.
fn contains_from(v: &Vec<usize>, from: usize, x: usize) -> (r: bool)
    requires
        from <= v@.len(),
    ensures
        r == v@.subrange(from as int, v@.len() as int).contains(x),
{
    let mut i: usize = from;
    while i < v.len()
        invariant
            from <= i <= v@.len(),
            !v@.subrange(from as int, i as int).contains(x),
        decreases v@.len() - i,
    {
        if v[i] == x {
            assert(v@.subrange(from as int, v@.len() as int)[i - from] == x);
            return true;
        }
        assert(v@.subrange(from as int, i + 1) =~= v@.subrange(from as int, i as int).push(v@[i as int]));
        i = i + 1;
    }
    assert(v@.subrange(from as int, i as int) =~= v@.subrange(from as int, v@.len() as int));
    false
}

/// The children of a container after grouping (see `regroup`).
fn regroup_children(children: &Vec<LayoutNode>, pos: &Vec<usize>, c: &LayoutNode) -> (r: Vec<LayoutNode>)
    requires
        pos@.len() > 0,
    ensures
        models(r@) == regroup(models(children@), pos@[0], pos@.drop_first(), c@),
{
    proof {
        crate::layout_node::lemma_models_index(children@);
    }
    let mut nc: Vec<LayoutNode> = Vec::new();
    let mut j: usize = 0;
    assert(pos@.drop_first() =~= pos@.subrange(1, pos@.len() as int));
    while j < children.len()
        invariant
            j <= children@.len(),
            pos@.len() > 0,
            models(children@).len() == children@.len(),
            forall|i: int| 0 <= i < children@.len() ==> #[trigger] models(children@)[i] == children@[i]@,
            models(nc@) == regroup(models(children@).subrange(0, j as int), pos@[0], pos@.drop_first(), c@),
            pos@.drop_first() == pos@.subrange(1, pos@.len() as int),
        decreases children@.len() - j,
    {
        let ghost s = models(children@).subrange(0, j + 1);
        assert(s.drop_last() =~= models(children@).subrange(0, j as int));
        assert(s.last() == children@[j as int]@);
        if j == pos[0] {
            let x = c.copy();
            proof { crate::layout_node::lemma_models_push(nc@, x); }
            nc.push(x);
        } else if contains_from(pos, 1, j) {
            proof {
                let k = choose|k: int| 0 <= k < pos@.drop_first().len() && pos@.drop_first()[k] == j;
                assert(pos@.drop_first()[k] as int == j as int);
            }
        } else {
            proof {
                if holds_pos(pos@.drop_first(), j as int) {
                    let k = choose|k: int| 0 <= k < pos@.drop_first().len() && pos@.drop_first()[k] as int == j as int;
                    assert(pos@.subrange(1, pos@.len() as int)[k] == j);
                }
            }
            let x = children[j].copy();
            proof { crate::layout_node::lemma_models_push(nc@, x); }
            nc.push(x);
        }
        j = j + 1;
    }
    assert(models(children@).subrange(0, j as int) =~= models(children@));
    nc
}

/// Replacing the grouping container by one of the same height keeps the
/// regrouped children's height.
pub proof fn lemma_regroup_height(s: Seq<NodeModel>, first: usize, gone: Seq<usize>, c: NodeModel, d: NodeModel)
    requires
        height(c) == height(d),
    ensures
        heights(regroup(s, first, gone, c)) == heights(regroup(s, first, gone, d)),
        regroup(s, first, gone, c).len() == regroup(s, first, gone, d).len(),
        forall|i: int|
            0 <= i < regroup(s, first, gone, c).len() ==> height(#[trigger] regroup(s, first, gone, c)[i])
                == height(regroup(s, first, gone, d)[i]),
    decreases s.len(),
{
    if s.len() > 0 {
        lemma_regroup_height(s.drop_last(), first, gone, c, d);
        let rc = regroup(s.drop_last(), first, gone, c);
        let rd = regroup(s.drop_last(), first, gone, d);
        assert(rc.push(c).drop_last() =~= rc);
        assert(rd.push(d).drop_last() =~= rd);
        assert(rc.push(s.last()).drop_last() =~= rc);
        assert(rd.push(s.last()).drop_last() =~= rd);
    }
}

/// The grouped parent's height does not depend on which container (of a
/// given height) is put in.
pub proof fn lemma_grouped_height(parent: NodeModel, pos: Seq<usize>, c: NodeModel, d: NodeModel)
    requires
        height(c) == height(d),
        pos.len() > 0,
    ensures
        height(grouped_parent(parent, pos, c)) == height(grouped_parent(parent, pos, d)),
{
    match parent {
        NodeModel::Container { children, .. } => {
            lemma_regroup_height(children, pos[0], pos.drop_first(), c, d);
        },
        NodeModel::Split { first, second, .. } => {
            let kids = seq![*first, *second];
            lemma_regroup_height(kids, pos[0], pos.drop_first(), c, d);
            let kc = regroup(kids, pos[0], pos.drop_first(), c);
            let kd = regroup(kids, pos[0], pos.drop_first(), d);
            if kc.len() >= 1 {
                assert(height(kc[0]) == height(kd[0]));
            }
            if kc.len() == 2 {
                assert(height(kc[1]) == height(kd[1]));
            }
        },
        _ => {},
    }
}

pub proof fn lemma_heights_zero(s: Seq<NodeModel>)
    requires
        forall|i: int| 0 <= i < s.len() ==> #[trigger] s[i] is Zone,
    ensures
        heights(s) == 0,
    decreases s.len(),
{
    if s.len() > 0 {
        assert(s.last() is Zone);
        assert(height(s.last()) == 0);
        assert forall|i: int| 0 <= i < s.drop_last().len() implies #[trigger] s.drop_last()[i] is Zone by {
            assert(s.drop_last()[i] == s[i]);
        }
        lemma_heights_zero(s.drop_last());
    }
}

impl LayoutTree {
    /// Move zones, which must be distinct children of one parent, into a new
    /// container with the given identifier (see `container_spec`).
    #[verifier::rlimit(60)]
    pub fn create_container_with_id(
        &mut self,
        zone_ids: &[NodeId],
        layout: crate::node::ContainerLayout,
        container_id: NodeId,
    ) -> (r: Result<NodeId, TreeError>)
        requires
            container_fits(old(self)@, ids_view(zone_ids@)),
        ensures
            (final(self)@, id_result(r)) == container_spec(old(self)@, ids_view(zone_ids@), layout, container_id@),
    {
        let ghost t0 = self@;
        let ghost ids = ids_view(zone_ids@);
        if zone_ids.len() == 0 {
            return Err(TreeError::InvalidOperation("Cannot create container from empty zone list".to_string()));
        }
        if zone_ids.len() == 1 {
            return Err(TreeError::InvalidOperation("Cannot create container from single zone".to_string()));
        }
        let mut zones: Vec<LayoutNode> = Vec::new();
        let mut uniq: Vec<NodeId> = Vec::new();
        let mut i: usize = 0;
        assert(ids.subrange(0, 0) =~= Seq::<Seq<char>>::empty());
        while i < zone_ids.len()
            invariant
                i <= zone_ids@.len(),
                self@ == t0,
                ids == ids_view(zone_ids@),
                ids.len() == zone_ids@.len(),
                zone_ids@.len() >= 2,
                first_missing_from(t0.root, ids, 0) == first_missing_from(t0.root, ids, i as nat),
                ids_view(uniq@) == dedup(ids.subrange(0, i as int)),
                models(zones@) == zones_of(t0.root, ids_view(uniq@)),
                forall|k: int| 0 <= k < uniq@.len() ==> #[trigger] zone_path(t0.root, ids_view(uniq@)[k]) is Some,
            decreases zone_ids@.len() - i,
        {
            assert(ids[i as int] == zone_ids@[i as int]@);
            let ghost pre = ids.subrange(0, i as int);
            let ghost next = ids.subrange(0, i + 1);
            assert(next.drop_last() =~= pre);
            match self.find_zone(&zone_ids[i]) {
                Some(z) => {
                    assert(zone_path(t0.root, ids[i as int]) is Some);
                    if !contains_id(&uniq, &zone_ids[i]) {
                        let c = z.copy();
                        let ghost u0 = ids_view(uniq@);
                        proof {
                            crate::layout_node::lemma_models_push(zones@, c);
                            assert(zones_of(t0.root, u0.push(ids[i as int])) =~= zones_of(t0.root, u0).push(c@));
                        }
                        zones.push(c);
                        uniq.push(zone_ids[i].copy());
                        assert(ids_view(uniq@) =~= u0.push(ids[i as int]));
                    }
                },
                None => {
                    assert(zone_path(t0.root, ids[i as int]) is None);
                    assert(first_missing_from(t0.root, ids, i as nat) == Some(i as nat));
                    assert(container_spec(t0, ids, layout, container_id@).1 == Err::<Seq<char>, TreeErrorModel>(TreeErrorModel::NodeNotFound(ids[i as int])));
                    assert(container_spec(t0, ids, layout, container_id@).0 == t0);
                    return Err(TreeError::NodeNotFound(zone_ids[i].text()));
                },
            }
            i = i + 1;
        }
        assert(ids.subrange(0, i as int) =~= ids);
        let ghost u = dedup(ids);
        proof {
            lemma_dedup_first(ids);
        }
        let first_path = match assoc_get(&self.zone_cache, &zone_ids[0].text()) {
            Some(p) => p.copy(),
            None => {
                return Err(TreeError::NodeNotFound(zone_ids[0].text()));
            },
        };
        let pp = match first_path.parent() {
            Some(p) => p,
            None => {
                return Err(TreeError::InvalidOperation("Zones must be siblings (have the same parent)".to_string()));
            },
        };
        let pos = match self.sibling_positions(uniq.as_slice(), &pp) {
            Some(v) => v,
            None => {
                return Err(TreeError::InvalidOperation("Zones must be siblings (have the same parent)".to_string()));
            },
        };
        if self.root.get_at_path(&first_path).is_none() {
            return Err(self.placement_failure(&first_path, false));
        }
        let container = LayoutNode::Container {
            id: container_id.copy(),
            layout,
            children: zones,
            active_child: Some(0),
        };
        assert(ids_view(uniq@) == u);
        assert(container@ == group_node(t0, u, layout, container_id@));
        proof {
            assert(first_path@ =~= pp@.push(first_path@.last()));
            crate::layout_node::lemma_node_at_push(t0.root, pp@, first_path@.last());
        }
        let new_node = match self.root.get_at_path(&pp) {
            Some(LayoutNode::Container { id, layout: parent_layout, children, active_child }) => {
                let nc = regroup_children(children, &pos, &container);
                LayoutNode::Container {
                    id: id.copy(),
                    layout: *parent_layout,
                    children: nc,
                    active_child: *active_child,
                }
            },
            Some(LayoutNode::Split { id, direction, ratio, first, second }) => {
                let kids = vec![(**first).copy(), (**second).copy()];
                proof {
                    crate::layout_node::lemma_models_index(kids@);
                    assert(models(kids@) =~= seq![first@, second@]);
                }
                let mut nc = regroup_children(&kids, &pos, &container);
                proof {
                    crate::layout_node::lemma_models_index(nc@);
                }
                if nc.len() == 2 {
                    let b = nc.pop().unwrap();
                    let a = nc.pop().unwrap();
                    LayoutNode::Split {
                        id: id.copy(),
                        direction: *direction,
                        ratio: *ratio,
                        first: Box::new(a),
                        second: Box::new(b),
                    }
                } else if nc.len() == 1 {
                    nc.pop().unwrap()
                } else {
                    container
                }
            },
            _ => container,
        };
        proof {
            let zs = zones_of(t0.root, u);
            assert forall|k: int| 0 <= k < zs.len() implies #[trigger] zs[k] is Zone by {
                assert(zone_path(t0.root, u[k]) is Some);
                let zp = zone_path(t0.root, u[k]).unwrap();
                assert(node_at(t0.root, zp) matches Some(NodeModel::Zone { .. }));
            }
            lemma_heights_zero(zs);
            let parent = node_at(t0.root, pp@).unwrap();
            let c0 = group_node(t0, u, crate::node::ContainerLayout::Tabs, Seq::empty());
            lemma_grouped_height(parent, pos@, container@, c0);
            lemma_height_replace(t0.root, pp@, new_node@);
        }
        self.place_and_rebuild(&pp.0, new_node);
        Ok(container_id)
    }

    /// The positions of the zones (by their cached paths), if every zone is
    /// cached directly below `pp`.
    fn sibling_positions(&self, zone_ids: &[NodeId], pp: &NodePath) -> (r: Option<Vec<usize>>)
        ensures
            match r {
                Some(v) => all_under(self@, ids_view(zone_ids@), pp@) && v@ == positions(self@, ids_view(zone_ids@)),
                None => !all_under(self@, ids_view(zone_ids@), pp@),
            },
    {
        let ghost ids = ids_view(zone_ids@);
        let mut pos: Vec<usize> = Vec::new();
        let mut k: usize = 0;
        while k < zone_ids.len()
            invariant
                k <= zone_ids@.len(),
                ids == ids_view(zone_ids@),
                ids.len() == zone_ids@.len(),
                forall|j: int|
                    0 <= j < k ==> self@.zones.contains_key(#[trigger] ids[j]) && self@.zones[ids[j]].len() > 0
                        && self@.zones[ids[j]].drop_last() == pp@,
                pos@ == positions(self@, ids).subrange(0, k as int),
            decreases zone_ids@.len() - k,
        {
            assert(ids[k as int] == zone_ids@[k as int]@);
            match assoc_get(&self.zone_cache, &zone_ids[k].text()) {
                Some(p) => {
                    match p.parent() {
                        Some(q) => {
                            if !q.same(pp) {
                                return None;
                            }
                        },
                        None => {
                            return None;
                        },
                    }
                    let last = p.0[p.0.len() - 1];
                    assert(positions(self@, ids).subrange(0, k + 1) =~= positions(self@, ids).subrange(0, k as int).push(last));
                    pos.push(last);
                },
                None => {
                    return None;
                },
            }
            k = k + 1;
        }
        assert(positions(self@, ids).subrange(0, k as int) =~= positions(self@, ids));
        Some(pos)
    }

    /// Move zones, which must be distinct children of one parent, into a new
    /// container with a fresh identifier, which is returned (see
    /// `container_spec`).
    pub fn create_container(
        &mut self,
        zone_ids: &[NodeId],
        layout: crate::node::ContainerLayout,
    ) -> (r: Result<NodeId, TreeError>)
        requires
            container_fits(old(self)@, ids_view(zone_ids@)),
        ensures
            exists|cid: Seq<char>|
                cid.len() == 36 &&
                (final(self)@, id_result(r)) == #[trigger] container_spec(old(self)@, ids_view(zone_ids@), layout, cid),
    {
        let cid = NodeId::new();
        let ghost c = cid@;
        let r = self.create_container_with_id(zone_ids, layout, cid);
        assert((self@, id_result(r)) == container_spec(old(self)@, ids_view(zone_ids@), layout, c));
        r
    }
}


/// The association lists hold the same map when their entries have the same views.
pub proof fn lemma_assoc_same_views<V: View>(a: Seq<(String, V)>, b: Seq<(String, V)>)
    requires
        a.len() == b.len(),
        forall|i: int| 0 <= i < a.len() ==> #[trigger] a[i].0@ == b[i].0@ && a[i].1@ == b[i].1@,
    ensures
        assoc_map(a) == assoc_map(b),
    decreases a.len(),
{
    if a.len() > 0 {
        lemma_assoc_same_views(a.drop_last(), b.drop_last());
        assert(a.last().0@ == b.last().0@ && a.last().1@ == b.last().1@);
    }
}

impl LayoutTree {
    /// A copy of this tree, caches included.
    pub fn copy(&self) -> (r: LayoutTree)
        ensures
            r@ == self@,
    {
        let root = self.root.copy();
        let mut zones: Vec<(String, NodePath)> = Vec::new();
        let mut i: usize = 0;
        while i < self.zone_cache.len()
            invariant
                i <= self.zone_cache@.len(),
                zones@.len() == i,
                forall|k: int| 0 <= k < i ==> #[trigger] zones@[k].0@ == self.zone_cache@[k].0@
                    && zones@[k].1@ == self.zone_cache@[k].1@,
            decreases self.zone_cache@.len() - i,
        {
            let e = (self.zone_cache[i].0.clone(), self.zone_cache[i].1.copy());
            zones.push(e);
            i = i + 1;
        }
        let mut panels: Vec<(String, NodeId)> = Vec::new();
        let mut j: usize = 0;
        while j < self.panel_cache.len()
            invariant
                j <= self.panel_cache@.len(),
                panels@.len() == j,
                forall|k: int| 0 <= k < j ==> #[trigger] panels@[k].0@ == self.panel_cache@[k].0@
                    && panels@[k].1@ == self.panel_cache@[k].1@,
            decreases self.panel_cache@.len() - j,
        {
            let e = (self.panel_cache[j].0.clone(), self.panel_cache[j].1.copy());
            panels.push(e);
            j = j + 1;
        }
        proof {
            lemma_assoc_same_views(zones@, self.zone_cache@);
            lemma_assoc_same_views(panels@, self.panel_cache@);
        }
        let r = LayoutTree { root, zone_cache: zones, panel_cache: panels };
        assert(r@ =~= self@);
        r
    }
}

impl Clone for LayoutTree {
    fn clone(&self) -> (r: LayoutTree)
        ensures
            r@ == self@,
    {
        self.copy()
    }
}

proof fn lemma_zone_count_update(s: Seq<NodeModel>, i: int, y: NodeModel)
    requires
        0 <= i < s.len(),
    ensures
        zone_ids_seq(s.update(i, y)).len() + zone_ids(s[i]).len() == zone_ids_seq(s).len() + zone_ids(y).len(),
    decreases s.len(),
{
    let u = s.update(i, y);
    if i == s.len() - 1 {
        assert(u.drop_last() =~= s.drop_last());
    } else {
        lemma_zone_count_update(s.drop_last(), i, y);
        assert(u.drop_last() =~= s.drop_last().update(i, y));
    }
}

/// Replacing a node changes the number of zones by the difference between
/// the new node's zones and the old one's.
pub proof fn lemma_zone_count_replace(n: NodeModel, p: Seq<usize>, x: NodeModel)
    requires
        node_at(n, p) is Some,
    ensures
        zone_ids(replace_at(n, p, x)).len() + zone_ids(node_at(n, p).unwrap()).len() == zone_ids(n).len()
            + zone_ids(x).len(),
    decreases p.len(),
{
    if p.len() > 0 {
        match n {
            NodeModel::Split { first, second, .. } => {
                if p[0] == 0 {
                    lemma_zone_count_replace(*first, p.drop_first(), x);
                } else {
                    lemma_zone_count_replace(*second, p.drop_first(), x);
                }
            },
            NodeModel::Container { children, .. } => {
                let i = p[0] as int;
                lemma_zone_count_replace(children[i], p.drop_first(), x);
                lemma_zone_count_update(children, i, replace_at(children[i], p.drop_first(), x));
            },
            NodeModel::Zone { .. } => {},
        }
    }
}

proof fn lemma_panel_entries_update(s: Seq<NodeModel>, i: int, y: NodeModel)
    requires
        0 <= i < s.len(),
        panel_entries(y) == panel_entries(s[i]),
    ensures
        panel_entries_seq(s.update(i, y)) == panel_entries_seq(s),
    decreases s.len(),
{
    let u = s.update(i, y);
    if i == s.len() - 1 {
        assert(u.drop_last() =~= s.drop_last());
    } else {
        lemma_panel_entries_update(s.drop_last(), i, y);
        assert(u.drop_last() =~= s.drop_last().update(i, y));
    }
}

/// Replacing a node by one with the same panel entries keeps the tree's.
pub proof fn lemma_panel_entries_replace(n: NodeModel, p: Seq<usize>, x: NodeModel)
    requires
        node_at(n, p) is Some,
        panel_entries(x) == panel_entries(node_at(n, p).unwrap()),
    ensures
        panel_entries(replace_at(n, p, x)) == panel_entries(n),
    decreases p.len(),
{
    if p.len() > 0 {
        match n {
            NodeModel::Split { first, second, .. } => {
                if p[0] == 0 {
                    lemma_panel_entries_replace(*first, p.drop_first(), x);
                } else {
                    lemma_panel_entries_replace(*second, p.drop_first(), x);
                }
            },
            NodeModel::Container { children, .. } => {
                let i = p[0] as int;
                lemma_panel_entries_replace(children[i], p.drop_first(), x);
                lemma_panel_entries_update(children, i, replace_at(children[i], p.drop_first(), x));
            },
            NodeModel::Zone { .. } => {},
        }
    }
}

/// A successful split adds exactly one zone, and every panel is found in the
/// zone where it was found before (the new zone is empty).
pub proof fn law_split_adds_one_zone(
    t: TreeModel,
    zone: Seq<char>,
    d: SplitDirection,
    ratio: u32,
    new_first: bool,
    a: Seq<char>,
    b: Seq<char>,
)
    requires
        split_spec(t, zone, d, ratio, new_first, a, b).1 is Ok,
    ensures
        ({
            let t1 = split_spec(t, zone, d, ratio, new_first, a, b).0;
            &&& zone_ids(t1.root).len() == zone_ids(t.root).len() + 1
            &&& t1.panels == rebuilt(t.root).panels
            &&& t == rebuilt(t.root) ==> t1.panels == t.panels
        }),
{
    let p = t.zones[zone];
    let old = node_at(t.root, p).unwrap();
    let x = split_node(old, d, ratio, new_first, a, b);
    lemma_zone_count_replace(t.root, p, x);
    let nz = NodeModel::Zone { id: a, content: empty_content() };
    assert(panel_entries(nz) =~= Seq::<(Seq<char>, Seq<char>)>::empty());
    assert(zone_ids(nz) =~= seq![a]);
    if new_first {
        assert(panel_entries(x) =~= panel_entries(old));
    } else {
        assert(panel_entries(x) =~= panel_entries(old));
    }
    lemma_panel_entries_replace(t.root, p, x);
}

/// A successful merge of two zones (at different places) leaves one zone
/// fewer.
pub proof fn law_merge_removes_one_zone(t: TreeModel, z1: Seq<char>, z2: Seq<char>)
    requires
        merge_spec(t, z1, z2).1 is Ok,
        t.zones[z1] != t.zones[z2],
        node_at(t.root, t.zones[z1]) matches Some(NodeModel::Zone { .. }),
        node_at(t.root, t.zones[z2]) matches Some(NodeModel::Zone { .. }),
    ensures
        zone_ids(merge_spec(t, z1, z2).0.root).len() + 1 == zone_ids(t.root).len(),
{
    let p1 = t.zones[z1];
    let p2 = t.zones[z2];
    let pp = p1.drop_last();
    assert(p1 =~= pp.push(p1.last()));
    assert(p2 =~= pp.push(p2.last()));
    crate::layout_node::lemma_node_at_push(t.root, pp, p1.last());
    crate::layout_node::lemma_node_at_push(t.root, pp, p2.last());
    let s = node_at(t.root, pp).unwrap();
    assert(p1.last() != p2.last());
    let ps = content_at(t.root, zone_path(t.root, z1).unwrap()).panels + content_at(
        t.root,
        zone_path(t.root, z2).unwrap(),
    ).panels;
    let merged = NodeModel::Zone { id: z1, content: merged_content(ps) };
    lemma_zone_count_replace(t.root, pp, merged);
    match s {
        NodeModel::Split { first, second, .. } => {
            assert(zone_ids(*first).len() == 1);
            assert(zone_ids(*second).len() == 1);
        },
        _ => {},
    }
}

/// How many of the positions below `n` are `f` or in `g`.
pub open spec fn hits(n: int, f: usize, g: Seq<usize>) -> nat
    decreases n,
{
    if n <= 0 {
        0
    } else {
        hits(n - 1, f, g) + if (n - 1) == f as int || holds_pos(g, n - 1) { 1nat } else { 0nat }
    }
}

/// How many entries of `g` are below `n`.
pub open spec fn below(g: Seq<usize>, n: int) -> nat
    decreases g.len(),
{
    if g.len() == 0 {
        0
    } else {
        below(g.drop_last(), n) + if (g.last() as int) < n { 1nat } else { 0nat }
    }
}

pub open spec fn distinct_positions(g: Seq<usize>) -> bool {
    forall|i: int, j: int| 0 <= i < j < g.len() ==> g[i] != g[j]
}

proof fn lemma_below_step(g: Seq<usize>, n: int)
    requires
        0 <= n,
        distinct_positions(g),
    ensures
        below(g, n + 1) == below(g, n) + if holds_pos(g, n) { 1nat } else { 0nat },
    decreases g.len(),
{
    if g.len() > 0 {
        let gd = g.drop_last();
        assert(distinct_positions(gd)) by {
            assert forall|i: int, j: int| 0 <= i < j < gd.len() implies gd[i] != gd[j] by {
                assert(gd[i] == g[i] && gd[j] == g[j]);
            }
        }
        lemma_below_step(gd, n);
        if g.last() as int == n {
            assert(!holds_pos(gd, n)) by {
                if holds_pos(gd, n) {
                    let k = choose|k: int| 0 <= k < gd.len() && #[trigger] gd[k] as int == n;
                    assert(g[k] == g[g.len() - 1]);
                }
            }
            assert(holds_pos(g, n)) by {
                assert(g[g.len() - 1] as int == n);
            }
        } else {
            assert(holds_pos(g, n) == holds_pos(gd, n)) by {
                if holds_pos(g, n) {
                    let k = choose|k: int| 0 <= k < g.len() && #[trigger] g[k] as int == n;
                    assert(k < g.len() - 1);
                    assert(gd[k] as int == n);
                }
                if holds_pos(gd, n) {
                    let k = choose|k: int| 0 <= k < gd.len() && #[trigger] gd[k] as int == n;
                    assert(g[k] as int == n);
                }
            }
        }
    }
}

proof fn lemma_below_all(g: Seq<usize>, n: int)
    requires
        forall|k: int| 0 <= k < g.len() ==> (g[k] as int) < n,
    ensures
        below(g, n) == g.len(),
    decreases g.len(),
{
    if g.len() > 0 {
        lemma_below_all(g.drop_last(), n);
    }
}

proof fn lemma_hits(n: int, f: usize, g: Seq<usize>)
    requires
        0 <= n,
        !holds_pos(g, f as int),
        distinct_positions(g),
    ensures
        hits(n, f, g) == (if (f as int) < n { 1nat } else { 0nat }) + below(g, n),
    decreases n,
{
    if n == 0 {
        lemma_below_all_zero(g);
    } else {
        lemma_hits(n - 1, f, g);
        lemma_below_step(g, n - 1);

    }
}

proof fn lemma_below_all_zero(g: Seq<usize>)
    ensures
        below(g, 0) == 0,
    decreases g.len(),
{
    if g.len() > 0 {
        lemma_below_all_zero(g.drop_last());
    }
}

proof fn lemma_zone_ids_seq_push(s: Seq<NodeModel>, x: NodeModel)
    ensures
        zone_ids_seq(s.push(x)).len() == zone_ids_seq(s).len() + zone_ids(x).len(),
{
    assert(s.push(x).drop_last() =~= s);
}

proof fn lemma_regroup_count(s: Seq<NodeModel>, f: usize, g: Seq<usize>, c: NodeModel)
    requires
        forall|i: int| 0 <= i < s.len() && (i == f as int || holds_pos(g, i)) ==> zone_ids(#[trigger] s[i]).len() == 1,
    ensures
        zone_ids_seq(regroup(s, f, g, c)).len() + hits(s.len() as int, f, g) == zone_ids_seq(s).len() + if (f as int) < s.len() {
            zone_ids(c).len()
        } else {
            0
        },
    decreases s.len(),
{
    if s.len() > 0 {
        let i = s.len() - 1;
        let sd = s.drop_last();
        assert forall|k: int| 0 <= k < sd.len() && (k == f as int || holds_pos(g, k)) implies zone_ids(#[trigger] sd[k]).len() == 1 by {
            assert(sd[k] == s[k]);
        }
        lemma_regroup_count(sd, f, g, c);
        let rest = regroup(sd, f, g, c);
        lemma_zone_ids_seq_push(rest, c);
        lemma_zone_ids_seq_push(rest, s.last());
        if i == f as int || holds_pos(g, i) {
            assert(zone_ids(s[i]).len() == 1);
        }
        assert(s.last() == s[i]);
    }
}

proof fn lemma_regroup_nonempty(s: Seq<NodeModel>, f: usize, g: Seq<usize>, c: NodeModel)
    requires
        (f as int) < s.len(),
    ensures
        0 < regroup(s, f, g, c).len() <= s.len(),
    decreases s.len(),
{
    lemma_regroup_len(s.drop_last(), f, g, c);
    if s.len() - 1 != f as int {
        lemma_regroup_nonempty(s.drop_last(), f, g, c);
    }
}

proof fn lemma_regroup_len(s: Seq<NodeModel>, f: usize, g: Seq<usize>, c: NodeModel)
    ensures
        regroup(s, f, g, c).len() <= s.len(),
    decreases s.len(),
{
    if s.len() > 0 {
        lemma_regroup_len(s.drop_last(), f, g, c);
    }
}

proof fn lemma_zones_count(zs: Seq<NodeModel>)
    requires
        forall|k: int| 0 <= k < zs.len() ==> #[trigger] zs[k] is Zone,
    ensures
        zone_ids_seq(zs).len() == zs.len(),
    decreases zs.len(),
{
    if zs.len() > 0 {
        assert forall|k: int| 0 <= k < zs.drop_last().len() implies #[trigger] zs.drop_last()[k] is Zone by {
            assert(zs.drop_last()[k] == zs[k]);
        }
        lemma_zones_count(zs.drop_last());
        let l = zs[zs.len() - 1];
        assert(l is Zone);
        assert(zone_ids(l).len() == 1);
    }
}

/// Grouping zones into a container keeps the number of zones, when the
/// zones' cached paths are distinct and lead to zones.
pub proof fn law_container_keeps_zone_count(
    t: TreeModel,
    ids: Seq<Seq<char>>,
    layout: crate::node::ContainerLayout,
    cid: Seq<char>,
)
    requires
        container_spec(t, ids, layout, cid).1 is Ok,
        forall|k: int|
            0 <= k < dedup(ids).len() ==> node_at(t.root, t.zones[#[trigger] dedup(ids)[k]]) matches Some(
                NodeModel::Zone { .. },
            ),
        forall|j: int, k: int| 0 <= j < k < dedup(ids).len() ==> t.zones[dedup(ids)[j]] != t.zones[dedup(ids)[k]],
    ensures
        zone_ids(container_spec(t, ids, layout, cid).0.root).len() == zone_ids(t.root).len(),
{
    let u = dedup(ids);
    lemma_dedup_first(ids);
    let fp = t.zones[ids[0]];
    let pp = fp.drop_last();
    let pos = positions(t, u);
    let parent = node_at(t.root, pp).unwrap();
    let c = group_node(t, u, layout, cid);
    let f = pos[0];
    let g = pos.drop_first();
    assert(node_at(t.root, fp) is Some);
    assert(fp =~= pp.push(fp.last()));
    crate::layout_node::lemma_node_at_push(t.root, pp, fp.last());
    assert(u.len() == pos.len() && g.len() == pos.len() - 1);
    // every grouped zone sits at `pp` followed by its position, under the parent
    assert forall|k: int| 0 <= k < u.len() implies #[trigger] child_at(parent, pos[k] as int) matches Some(
        NodeModel::Zone { .. },
    ) by {
        let pk = t.zones[u[k]];
        assert(pk =~= pp.push(pk.last()));
        crate::layout_node::lemma_node_at_push(t.root, pp, pk.last());
    }
    assert(distinct_positions(pos)) by {
        assert forall|i: int, j: int| 0 <= i < j < pos.len() implies pos[i] != pos[j] by {
            let pi = t.zones[u[i]];
            let pj = t.zones[u[j]];
            assert(pi =~= pp.push(pi.last()));
            assert(pj =~= pp.push(pj.last()));
        }
    }
    assert(distinct_positions(g)) by {
        assert forall|i: int, j: int| 0 <= i < j < g.len() implies g[i] != g[j] by {
            assert(g[i] == pos[i + 1] && g[j] == pos[j + 1]);
        }
    }
    assert(!holds_pos(g, f as int)) by {
        if holds_pos(g, f as int) {
            let k = choose|k: int| 0 <= k < g.len() && #[trigger] g[k] as int == f as int;
            assert(pos[k + 1] == pos[0]);
        }
    }
    // the container holds one zone per grouped identifier
    let zs = zones_of(t.root, u);
    assert forall|k: int| 0 <= k < zs.len() implies #[trigger] zs[k] is Zone by {
        assert(zone_path(t.root, u[k]) is Some) by {
            assert(first_missing_from(t.root, ids, 0) is None);
            lemma_dedup_found(t.root, ids, k);
        }
        let zp = zone_path(t.root, u[k]).unwrap();
        assert(node_at(t.root, zp) matches Some(NodeModel::Zone { .. }));
    }
    lemma_zones_count(zs);
    assert(zone_ids(c).len() == u.len());
    let np = grouped_parent(parent, pos, c);
    match parent {
        NodeModel::Container { children, .. } => {
            assert forall|i: int| 0 <= i < children.len() && (i == f as int || holds_pos(g, i)) implies zone_ids(
                #[trigger] children[i],
            ).len() == 1 by {
                if i == f as int {
                    assert(child_at(parent, pos[0] as int) matches Some(NodeModel::Zone { .. }));
                } else {
                    let k = choose|k: int| 0 <= k < g.len() && #[trigger] g[k] as int == i;
                    assert(pos[k + 1] as int == i);
                    assert(child_at(parent, pos[k + 1] as int) matches Some(NodeModel::Zone { .. }));
                }
            }
            lemma_regroup_count(children, f, g, c);
            assert(child_at(parent, pos[0] as int) is Some);
            assert forall|k: int| 0 <= k < g.len() implies (g[k] as int) < children.len() by {
                assert(child_at(parent, pos[k + 1] as int) is Some);
            }
            lemma_hits(children.len() as int, f, g);
            lemma_below_all(g, children.len() as int);
            assert((f as int) < children.len());
            assert(zone_ids(np).len() == zone_ids_seq(regroup(children, f, g, c)).len());
            assert(zone_ids(parent).len() == zone_ids_seq(children).len());
            assert(hits(children.len() as int, f, g) == 1 + g.len());
            assert(zone_ids(np).len() == zone_ids(parent).len());
        },
        NodeModel::Split { first, second, .. } => {
            let kids = seq![*first, *second];
            assert forall|i: int| 0 <= i < kids.len() && (i == f as int || holds_pos(g, i)) implies zone_ids(
                #[trigger] kids[i],
            ).len() == 1 by {
                if i == f as int {
                    assert(child_at(parent, pos[0] as int) matches Some(NodeModel::Zone { .. }));
                } else {
                    let k = choose|k: int| 0 <= k < g.len() && #[trigger] g[k] as int == i;
                    assert(pos[k + 1] as int == i);
                    assert(child_at(parent, pos[k + 1] as int) matches Some(NodeModel::Zone { .. }));
                }
            }
            lemma_regroup_count(kids, f, g, c);
            assert(child_at(parent, pos[0] as int) is Some);
            assert forall|k: int| 0 <= k < g.len() implies (g[k] as int) < 2 by {
                assert(child_at(parent, pos[k + 1] as int) is Some);
            }
            lemma_hits(2, f, g);
            lemma_below_all(g, 2);
            reveal_with_fuel(zone_ids_seq, 3);
            assert(kids.drop_last() =~= seq![*first]);
            assert(kids.drop_last().drop_last() =~= Seq::<NodeModel>::empty());
            let r = regroup(kids, f, g, c);
            assert((f as int) < 2);
            assert(zone_ids_seq(kids).len() == zone_ids(*first).len() + zone_ids(*second).len());
            assert(zone_ids(parent).len() == zone_ids(*first).len() + zone_ids(*second).len());
            lemma_regroup_nonempty(kids, f, g, c);
            if r.len() == 2 {
                assert(r.drop_last() =~= seq![r[0]]);
                assert(seq![r[0]].drop_last() =~= Seq::<NodeModel>::empty());
                assert(zone_ids_seq(r).len() == zone_ids(r[0]).len() + zone_ids(r[1]).len());
                assert(np == NodeModel::Split { id: parent->Split_id, direction: parent->direction, ratio: parent->ratio, first: Box::new(r[0]), second: Box::new(r[1]) });
                assert(zone_ids(np).len() == zone_ids_seq(r).len());
            } else if r.len() == 1 {
                assert(r.drop_last() =~= Seq::<NodeModel>::empty());
                assert(zone_ids_seq(r).len() == zone_ids(r[0]).len());
                assert(np == r[0]);
                assert(zone_ids(np).len() == zone_ids_seq(r).len());
            }
            assert(kids.len() == 2);
            assert(zone_ids_seq(r).len() + hits(2, f, g) == zone_ids_seq(kids).len() + zone_ids(c).len());
            assert(hits(2, f, g) == 1 + g.len());
            assert(zone_ids(c).len() == 1 + g.len());
            assert(zone_ids(np).len() == zone_ids_seq(r).len());
            assert(zone_ids(np).len() == zone_ids(parent).len());
        },
        _ => {
            assert(child_at(parent, pos[0] as int) is Some);
        },
    }
    assert(zone_ids(np).len() == zone_ids(parent).len());
    lemma_zone_count_replace(t.root, pp, np);
}

proof fn lemma_dedup_found(root: NodeModel, ids: Seq<Seq<char>>, k: int)
    requires
        first_missing_from(root, ids, 0) is None,
        0 <= k < dedup(ids).len(),
    ensures
        zone_path(root, dedup(ids)[k]) is Some,
{
    lemma_dedup_sub(ids, k);
    let j = choose|j: int| 0 <= j < ids.len() && ids[j] == dedup(ids)[k];
    lemma_first_missing_none(root, ids, 0, j);
}

proof fn lemma_dedup_sub(ids: Seq<Seq<char>>, k: int)
    requires
        0 <= k < dedup(ids).len(),
    ensures
        exists|j: int| 0 <= j < ids.len() && ids[j] == dedup(ids)[k],
    decreases ids.len(),
{
    if ids.len() > 0 {
        let r = dedup(ids.drop_last());
        if k < r.len() {
            lemma_dedup_sub(ids.drop_last(), k);
            let j = choose|j: int| 0 <= j < ids.drop_last().len() && ids.drop_last()[j] == r[k];
            assert(ids[j] == dedup(ids)[k]);
        } else {
            assert(ids[ids.len() - 1] == dedup(ids)[k]);
        }
    }
}

proof fn lemma_first_missing_none(root: NodeModel, ids: Seq<Seq<char>>, i: nat, j: int)
    requires
        first_missing_from(root, ids, i) is None,
        i <= j < ids.len(),
    ensures
        zone_path(root, ids[j]) is Some,
    decreases j - i,
{
    if j > i {
        lemma_first_missing_none(root, ids, i + 1, j);
    }
}

proof fn lemma_fp_from_update(s: Seq<NodeModel>, i: int, x: NodeModel, id: Seq<char>, j: nat)
    requires
        0 <= i < s.len(),
        first_path(x, id) == first_path(s[i], id),
    ensures
        first_path_from(s.update(i, x), id, j) == first_path_from(s, id, j),
    decreases s.len() - j,
{
    if j < s.len() {
        lemma_fp_from_update(s, i, x, id, j + 1);
        if j as int == i {
            assert(s.update(i, x)[i] == x);
        } else {
            assert(s.update(i, x)[j as int] == s[j as int]);
        }
    }
}

/// Replacing a node by one in which `id` is first found at the same place
/// keeps where `id` is first found in the whole tree.
pub proof fn lemma_first_path_replace(n: NodeModel, p: Seq<usize>, x: NodeModel, id: Seq<char>)
    requires
        node_at(n, p) is Some,
        first_path(x, id) == first_path(node_at(n, p).unwrap(), id),
    ensures
        first_path(replace_at(n, p, x), id) == first_path(n, id),
    decreases p.len(),
{
    if p.len() > 0 {
        let rest = p.drop_first();
        match n {
            NodeModel::Split { first, second, .. } => {
                if p[0] == 0 {
                    lemma_first_path_replace(*first, rest, x, id);
                } else {
                    lemma_first_path_replace(*second, rest, x, id);
                }
            },
            NodeModel::Container { children, .. } => {
                let i = p[0] as int;
                lemma_first_path_replace(children[i], rest, x, id);
                lemma_fp_from_update(children, i, replace_at(children[i], rest, x), id, 0);
            },
            NodeModel::Zone { .. } => {},
        }
    }
}

/// A successful resize leaves the split with the given identifier (the node
/// found for it) with the new ratio, its identifier, direction and children
/// as they were.
pub proof fn law_resize_sets_ratio(t: TreeModel, split: Seq<char>, r: u32)
    requires
        update_ratio_spec(t, split, r).1 is Ok,
    ensures
        ({
            let t2 = update_ratio_spec(t, split, r).0;
            &&& ratio_ok(r)
            &&& find(t2.root, split) matches Some(NodeModel::Split { id, direction, ratio, first, second })
            &&& ratio == r
            &&& find(t.root, split) matches Some(NodeModel::Split { id: id0, direction: d0, first: f0, second: s0, .. })
            &&& id == id0 && direction == d0 && first == f0 && second == s0
            &&& t2.zones == t.zones && t2.panels == t.panels
        }),
{
    let p = first_path(t.root, split).unwrap();
    let old = node_at(t.root, p).unwrap();
    let x = match old {
        NodeModel::Split { id, direction, first, second, .. } => NodeModel::Split { id, direction, ratio: r, first, second },
        _ => old,
    };
    assert(first_path(x, split) == first_path(old, split));
    lemma_first_path_replace(t.root, p, x, split);
    lemma_replace_twice(t.root, p, x, x);
}

/// Content made by adding panels holds exactly those panels.
pub proof fn lemma_merged_content_panels(ps: Seq<Seq<char>>)
    ensures
        forall|x: Seq<char>| merged_content(ps).panels.contains(x) <==> ps.contains(x),
    decreases ps.len(),
{
    if ps.len() > 0 {
        lemma_merged_content_panels(ps.drop_last());
        let m = merged_content(ps.drop_last()).panels;
        assert(merged_content(ps) == content_add(merged_content(ps.drop_last()), ps.last()));
        assert forall|x: Seq<char>| merged_content(ps).panels.contains(x) <==> ps.contains(x) by {
            if !m.contains(ps.last()) {
                assert(merged_content(ps).panels == m.push(ps.last()));
                if m.push(ps.last()).contains(x) {
                    let k = choose|k: int| 0 <= k < m.push(ps.last()).len() && m.push(ps.last())[k] == x;
                    if k < m.len() {
                        assert(m[k] == x);
                    }
                }
                if m.contains(x) {
                    let k = choose|k: int| 0 <= k < m.len() && m[k] == x;
                    assert(m.push(ps.last())[k] == x);
                }
                if x == ps.last() {
                    assert(m.push(ps.last())[m.len() as int] == x);
                }
            }
            if ps.contains(x) && x != ps.last() {
                let k = choose|k: int| 0 <= k < ps.len() && ps[k] == x;
                assert(ps.drop_last()[k] == x);
            }
            if ps.drop_last().contains(x) {
                let k = choose|k: int| 0 <= k < ps.drop_last().len() && ps.drop_last()[k] == x;
                assert(ps[k] == x);
            }
            if x == ps.last() {
                assert(ps[ps.len() - 1] == x);
            }
        }
    }
}

/// After a successful merge, the split that held the two zones is one zone,
/// with the first zone's identifier, holding every panel of either zone and
/// no other panel.
pub proof fn law_merge_keeps_all_panels(t: TreeModel, z1: Seq<char>, z2: Seq<char>)
    requires
        merge_spec(t, z1, z2).1 is Ok,
    ensures
        ({
            let t2 = merge_spec(t, z1, z2).0;
            let p1 = content_at(t.root, zone_path(t.root, z1).unwrap()).panels;
            let p2 = content_at(t.root, zone_path(t.root, z2).unwrap()).panels;
            &&& merge_spec(t, z1, z2).1 == Ok::<Seq<char>, TreeErrorModel>(z1)
            &&& node_at(t2.root, t.zones[z1].drop_last()) matches Some(NodeModel::Zone { id, content })
            &&& id == z1
            &&& forall|x: Seq<char>| content.panels.contains(x) <==> (p1.contains(x) || p2.contains(x))
        }),
{
    let p1 = content_at(t.root, zone_path(t.root, z1).unwrap()).panels;
    let p2 = content_at(t.root, zone_path(t.root, z2).unwrap()).panels;
    let ps = p1 + p2;
    let pp = t.zones[z1].drop_last();
    let merged = NodeModel::Zone { id: z1, content: merged_content(ps) };
    lemma_replace_twice(t.root, pp, merged, merged);
    lemma_merged_content_panels(ps);
    assert forall|x: Seq<char>| ps.contains(x) <==> (p1.contains(x) || p2.contains(x)) by {
        if ps.contains(x) {
            let k = choose|k: int| 0 <= k < ps.len() && ps[k] == x;
            if k < p1.len() {
                assert(p1[k] == x);
            } else {
                assert(p2[k - p1.len()] == x);
            }
        }
        if p1.contains(x) {
            let k = choose|k: int| 0 <= k < p1.len() && p1[k] == x;
            assert(ps[k] == x);
        }
        if p2.contains(x) {
            let k = choose|k: int| 0 <= k < p2.len() && p2[k] == x;
            assert(ps[p1.len() + k] == x);
        }
    }
}

/// Removing a zone (one that its cached path leads to) leaves one zone fewer:
/// its parent split gives way to the other child.
pub proof fn law_remove_zone_drops_one_zone(t: TreeModel, z: Seq<char>)
    requires
        remove_zone_spec(t, z).1 is Ok,
        node_at(t.root, t.zones[z]) matches Some(NodeModel::Zone { .. }),
    ensures
        zone_ids(remove_zone_spec(t, z).0.root).len() + 1 == zone_ids(t.root).len(),
{
    let p = t.zones[z];
    let pp = p.drop_last();
    assert(p =~= pp.push(p.last()));
    crate::layout_node::lemma_node_at_push(t.root, pp, p.last());
    let s = node_at(t.root, pp).unwrap();
    match s {
        NodeModel::Split { first, second, .. } => {
            if p.last() == 0 {
                assert(zone_ids(*first).len() == 1);
                lemma_zone_count_replace(t.root, pp, *second);
            } else {
                assert(zone_ids(*second).len() == 1);
                lemma_zone_count_replace(t.root, pp, *first);
            }
        },
        _ => {},
    }
}

/// Splitting the only zone of a tree and then merging the zone with the new
/// one gives back a tree of one zone, with the zone's identifier and its
/// panels (added again in order, which drops repeats).
pub proof fn law_split_then_merge(
    id: Seq<char>,
    c: ContentModel,
    d: SplitDirection,
    ratio: u32,
    new_first: bool,
    a: Seq<char>,
    b: Seq<char>,
)
    requires
        ratio_ok(ratio),
        a != id,
        b != id,
        b != a,
    ensures
        ({
            let t = rebuilt(NodeModel::Zone { id, content: c });
            let (t1, r1) = split_spec(t, id, d, ratio, new_first, a, b);
            let (t2, r2) = merge_spec(t1, id, a);
            &&& r1 == Ok::<Seq<char>, TreeErrorModel>(a)
            &&& r2 == Ok::<Seq<char>, TreeErrorModel>(id)
            &&& t2 == rebuilt(NodeModel::Zone { id, content: merged_content(c.panels) })
        }),
{
    reveal_with_fuel(insert_all, 3);
    reveal_with_fuel(zone_entries, 3);
    reveal_with_fuel(node_at, 2);
    reveal_with_fuel(first_path, 3);
    let z = NodeModel::Zone { id, content: c };
    let t = rebuilt(z);
    assert(zone_entries(z, Seq::empty()) =~= seq![(id, Seq::<usize>::empty())]);
    assert(seq![(id, Seq::<usize>::empty())].drop_last() =~= Seq::<(Seq<char>, Seq<usize>)>::empty());
    assert(t.zones[id] == Seq::<usize>::empty());
    let nz = NodeModel::Zone { id: a, content: empty_content() };
    let sp = split_node(z, d, ratio, new_first, a, b);
    let (t1, r1) = split_spec(t, id, d, ratio, new_first, a, b);
    assert(t1 == rebuilt(sp));
    let (pz, pa) = if new_first { (seq![1usize], seq![0usize]) } else { (seq![0usize], seq![1usize]) };
    assert(Seq::<usize>::empty().push(0) =~= seq![0usize]);
    assert(Seq::<usize>::empty().push(1) =~= seq![1usize]);
    assert(seq![0usize].drop_first() =~= Seq::<usize>::empty());
    assert(seq![1usize].drop_first() =~= Seq::<usize>::empty());
    assert(seq![0usize].drop_last() =~= Seq::<usize>::empty());
    assert(seq![1usize].drop_last() =~= Seq::<usize>::empty());
    if new_first {
        assert(sp == NodeModel::Split { id: b, direction: d, ratio, first: Box::new(nz), second: Box::new(z) });
        assert(zone_entries(nz, seq![0usize]) == seq![(a, seq![0usize])]);
        assert(zone_entries(z, seq![1usize]) == seq![(id, seq![1usize])]);
        let es = seq![(a, seq![0usize]), (id, seq![1usize])];
        assert(zone_entries(sp, Seq::empty()) =~= es);
        assert(es.drop_last() =~= seq![(a, seq![0usize])]);
        assert(seq![(a, seq![0usize])].drop_last() =~= Seq::<(Seq<char>, Seq<usize>)>::empty());
        assert(seq![0usize] + Seq::<usize>::empty() =~= seq![0usize]);
        assert(seq![1usize] + Seq::<usize>::empty() =~= seq![1usize]);
    } else {
        assert(sp == NodeModel::Split { id: b, direction: d, ratio, first: Box::new(z), second: Box::new(nz) });
        assert(zone_entries(z, seq![0usize]) == seq![(id, seq![0usize])]);
        assert(zone_entries(nz, seq![1usize]) == seq![(a, seq![1usize])]);
        let es = seq![(id, seq![0usize]), (a, seq![1usize])];
        assert(zone_entries(sp, Seq::empty()) =~= es);
        assert(es.drop_last() =~= seq![(id, seq![0usize])]);
        assert(seq![(id, seq![0usize])].drop_last() =~= Seq::<(Seq<char>, Seq<usize>)>::empty());
        assert(seq![0usize] + Seq::<usize>::empty() =~= seq![0usize]);
        assert(seq![1usize] + Seq::<usize>::empty() =~= seq![1usize]);
    }
    assert(t1.zones[id] == pz);
    assert(t1.zones[a] == pa);
    assert(zone_path(sp, id) == Some(pz));
    assert(zone_path(sp, a) == Some(pa));
    assert(content_at(sp, pz) == c);
    assert(content_at(sp, pa) == empty_content());
    assert(c.panels + Seq::<Seq<char>>::empty() =~= c.panels);
}

} // verus!
