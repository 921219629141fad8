//! The zone-based layout seen through a layout tree: zones are found by
//! their legacy names, which the default tree layout records in each zone's
//! metadata.
use vstd::prelude::*;
use crate::assoc::{assoc_get, assoc_insert, assoc_keys, assoc_map, assoc_remove, lemma_assoc_map};
use crate::builder::{default_shape, layout_with_shape, lemma_shape_height, LayoutBuilder};
use crate::layout_node::{
    first_path, first_path_from, height, ids_view, lemma_height_replace, lemma_replace_same, node_at, replace_at,
    zone_ids, NodeModel,
};
use crate::node::{
    contains_string, content_add, content_insert_at, content_set_active, opt_str, position_of, strs,
    without_first, ContentModel, NodeId, ZoneContent,
};
use crate::tree::{
    add_panel_spec, content_at, insert_all, move_panel_spec, remove_panel_spec, set_active_spec,
    tree_error_message, with_content, zone_path, LayoutTree, TreeError,
    TreeErrorModel, TreeModel, MAX_TREE_DEPTH,
};

verus! {

broadcast use vstd::string::group_string_axioms;

/// Errors that can occur while mapping legacy zones onto a tree.
#[derive(Debug)]
pub enum IntegrationError {
    TreeError(TreeError),
    LegacyZoneNotFound(String),
    InvalidMapping(String),
}

pub ghost enum IntegrationErrorModel {
    TreeError(TreeErrorModel),
    LegacyZoneNotFound(Seq<char>),
    InvalidMapping(Seq<char>),
}

impl View for IntegrationError {
    type V = IntegrationErrorModel;

    open spec fn view(&self) -> IntegrationErrorModel {
        match self {
            IntegrationError::TreeError(e) => IntegrationErrorModel::TreeError(e@),
            IntegrationError::LegacyZoneNotFound(s) => IntegrationErrorModel::LegacyZoneNotFound(s@),
            IntegrationError::InvalidMapping(s) => IntegrationErrorModel::InvalidMapping(s@),
        }
    }
}

/// The text of an integration error.
pub open spec fn integration_error_message(e: IntegrationErrorModel) -> Seq<char> {
    match e {
        IntegrationErrorModel::TreeError(t) => "Tree error: "@ + tree_error_message(t),
        IntegrationErrorModel::LegacyZoneNotFound(s) => "Legacy zone not found: "@ + s,
        IntegrationErrorModel::InvalidMapping(s) => "Invalid mapping: "@ + s,
    }
}

impl IntegrationError {
    /// The error's message.
    pub fn message(&self) -> (r: String)
        ensures
            r@ == integration_error_message(self@),
    {
        match self {
            IntegrationError::TreeError(t) => String::from_str("Tree error: ").concat(t.message().as_str()),
            IntegrationError::LegacyZoneNotFound(s) => String::from_str("Legacy zone not found: ").concat(
                s.as_str(),
            ),
            IntegrationError::InvalidMapping(s) => String::from_str("Invalid mapping: ").concat(s.as_str()),
        }
    }
}

/// A tree outcome as an integration outcome.
pub open spec fn lift_tree(r: Result<(), TreeErrorModel>) -> Result<(), IntegrationErrorModel> {
    match r {
        Ok(()) => Ok(()),
        Err(e) => Err(IntegrationErrorModel::TreeError(e)),
    }
}

pub open spec fn integration_result(r: Result<(), IntegrationError>) -> Result<(), IntegrationErrorModel> {
    match r {
        Ok(()) => Ok(()),
        Err(e) => Err(e@),
    }
}

fn tree_step(r: Result<(), TreeError>) -> (s: Result<(), IntegrationError>)
    ensures
        integration_result(s) == lift_tree(crate::tree::unit_result(r)),
{
    match r {
        Ok(()) => Ok(()),
        Err(e) => Err(IntegrationError::TreeError(e)),
    }
}

// ---------------------------------------------------------------------------
// Legacy names
// ---------------------------------------------------------------------------

/// The value of the first metadata entry with key `k`.
pub open spec fn meta_get(m: Seq<(Seq<char>, Seq<char>)>, k: Seq<char>) -> Option<Seq<char>>
    decreases m.len(),
{
    if m.len() == 0 {
        None
    } else if m[0].0 == k {
        Some(m[0].1)
    } else {
        meta_get(m.drop_first(), k)
    }
}

/// The legacy name recorded in the zone that `find_zone` finds for `id`.
pub open spec fn legacy_name_of(t: TreeModel, id: Seq<char>) -> Option<Seq<char>> {
    match zone_path(t.root, id) {
        Some(p) => match node_at(t.root, p) {
            Some(NodeModel::Zone { content, .. }) => meta_get(content.metadata, "legacy_name"@),
            _ => None,
        },
        None => None,
    }
}

/// The first of `ids`, from position `i` on, whose zone has legacy name `name`.
pub open spec fn named_from(t: TreeModel, ids: Seq<Seq<char>>, name: Seq<char>, i: int) -> Option<Seq<char>>
    decreases ids.len() - i,
{
    if i < 0 || i >= ids.len() {
        None
    } else if legacy_name_of(t, ids[i]) == Some(name) {
        Some(ids[i])
    } else {
        named_from(t, ids, name, i + 1)
    }
}

/// The first zone (in tree order) with legacy name `name`.
pub open spec fn legacy_zone(t: TreeModel, name: Seq<char>) -> Option<Seq<char>> {
    named_from(t, zone_ids(t.root), name, 0)
}

/// The legacy name in a zone's content.
fn legacy_name_in(content: &ZoneContent) -> (r: Option<&String>)
    ensures
        match r {
            Some(s) => meta_get(content@.metadata, "legacy_name"@) == Some(s@),
            None => meta_get(content@.metadata, "legacy_name"@) is None,
        },
{
    let key = String::from_str("legacy_name");
    let ghost m = content@.metadata;
    assert(m.subrange(0, m.len() as int) =~= m);
    let mut i: usize = 0;
    while i < content.metadata.len()
        invariant
            i <= content.metadata@.len(),
            m == content@.metadata,
            key@ == "legacy_name"@,
            meta_get(m, "legacy_name"@) == meta_get(m.subrange(i as int, m.len() as int), "legacy_name"@),
        decreases content.metadata@.len() - i,
    {
        let ghost rest = m.subrange(i as int, m.len() as int);
        assert(rest.drop_first() =~= m.subrange(i + 1, m.len() as int));
        if content.metadata[i].0 == key {
            return Some(&content.metadata[i].1);
        }
        i = i + 1;
    }
    None
}

/// The legacy name of the zone `find_zone` finds for `id`.
fn zone_legacy_name<'a>(tree: &'a LayoutTree, id: &NodeId) -> (r: Option<&'a String>)
    ensures
        match r {
            Some(s) => legacy_name_of(tree@, id@) == Some(s@),
            None => legacy_name_of(tree@, id@) is None,
        },
{
    match tree.find_zone(id) {
        Some(zone) => match zone.zone_content() {
            Some(content) => legacy_name_in(content),
            None => None,
        },
        None => None,
    }
}

/// The first zone (in tree order) tagged with a legacy name.
pub fn find_zone_by_legacy_name(tree: &LayoutTree, legacy_name: &str) -> (r: Option<NodeId>)
    requires
        height(tree@.root) < MAX_TREE_DEPTH,
    ensures
        match legacy_zone(tree@, legacy_name@) {
            Some(z) => r matches Some(id) && id@ == z,
            None => r is None,
        },
{
    let ids = tree.get_all_zone_ids();
    let ghost iv = ids_view(ids@);
    let name = legacy_name.to_string();
    let mut i: usize = 0;
    while i < ids.len()
        invariant
            i <= ids@.len(),
            iv == ids_view(ids@),
            iv == zone_ids(tree@.root),
            name@ == legacy_name@,
            legacy_zone(tree@, legacy_name@) == named_from(tree@, iv, legacy_name@, i as int),
        decreases ids@.len() - i,
    {
        match zone_legacy_name(tree, &ids[i]) {
            Some(n) => {
                if *n == name {
                    return Some(ids[i].copy());
                }
            },
            None => {},
        }
        i = i + 1;
    }
    None
}

// ---------------------------------------------------------------------------
// Legacy zone state
// ---------------------------------------------------------------------------

/// Panels and active panels of the zones of a zone-based layout, keyed by
/// zone name. Zone sizes are kept by the renderer.
#[derive(Debug, Clone)]
pub struct LegacyZoneState {
    /// Panels in each zone
    pub zone_panels: Vec<(String, Vec<String>)>,
    /// Active panels per zone
    pub active_panels: Vec<(String, String)>,
}

/// Zone names with their panels.
pub open spec fn zone_panel_views(v: Seq<(String, Vec<String>)>) -> Seq<(Seq<char>, Seq<Seq<char>>)> {
    v.map_values(|e: (String, Vec<String>)| (e.0@, strs(e.1@)))
}

/// The zone names of a legacy state, in order.
pub open spec fn zone_keys(z: Seq<(Seq<char>, Seq<Seq<char>>)>) -> Seq<Seq<char>> {
    z.map_values(|e: (Seq<char>, Seq<Seq<char>>)| e.0)
}

/// `add_panel`: append to the first entry of the zone, or start one.
pub open spec fn legacy_add(z: Seq<(Seq<char>, Seq<Seq<char>>)>, zone: Seq<char>, panel: Seq<char>) -> Seq<
    (Seq<char>, Seq<Seq<char>>),
> {
    match zone_keys(z).index_of_first(zone) {
        Some(i) => z.update(i, (zone, z[i].1.push(panel))),
        None => z.push((zone, seq![panel])),
    }
}

impl LegacyZoneState {
    pub fn new() -> (r: LegacyZoneState)
        ensures
            r.zone_panels@.len() == 0,
            r.active_panels@.len() == 0,
    {
        LegacyZoneState { zone_panels: Vec::new(), active_panels: Vec::new() }
    }

    /// Add a panel to a zone.
    pub fn add_panel(&mut self, zone: String, panel: String)
        ensures
            zone_panel_views(final(self).zone_panels@) == legacy_add(
                zone_panel_views(old(self).zone_panels@),
                zone@,
                panel@,
            ),
            final(self).active_panels == old(self).active_panels,
    {
        let ghost z0 = zone_panel_views(self.zone_panels@);
        let ghost keys = zone_keys(z0);
        let mut i: usize = 0;
        while i < self.zone_panels.len()
            invariant
                i <= self.zone_panels@.len(),
                z0 == zone_panel_views(self.zone_panels@),
                keys == zone_keys(z0),
                z0 == zone_panel_views(old(self).zone_panels@),
                self.active_panels == old(self).active_panels,
                forall|j: int| 0 <= j < i ==> keys[j] != zone@,
            decreases self.zone_panels@.len() - i,
        {
            if self.zone_panels[i].0 == zone {
                proof {
                    assert(keys[i as int] == zone@);
                    keys.index_of_first_ensures(zone@);
                    assert(keys.index_of_first(zone@) == Some(i as int));
                }
                let (k, mut ps) = self.zone_panels.remove(i);
                let ghost before = ps@;
                ps.push(panel);
                assert(strs(ps@) =~= strs(before).push(panel@));
                self.zone_panels.insert(i, (k, ps));
                assert(zone_panel_views(self.zone_panels@) =~= z0.update(
                    i as int,
                    (zone@, z0[i as int].1.push(panel@)),
                ));
                return;
            }
            i = i + 1;
        }
        proof {
            keys.index_of_first_ensures(zone@);
        }
        let ghost zv = zone@;
        let ghost pv = panel@;
        let mut ps: Vec<String> = Vec::new();
        ps.push(panel);
        assert(strs(ps@) =~= seq![pv]);
        self.zone_panels.push((zone, ps));
        assert(zone_panel_views(self.zone_panels@) =~= z0.push((zv, seq![pv])));
    }

    /// Set the active panel of a zone.
    pub fn set_active(&mut self, zone: String, panel: String)
        ensures
            assoc_map(final(self).active_panels@) == assoc_map(old(self).active_panels@).insert(zone@, panel@),
            final(self).zone_panels == old(self).zone_panels,
    {
        assoc_insert(&mut self.active_panels, zone, panel);
    }
}

impl Default for LegacyZoneState {
    fn default() -> (r: LegacyZoneState)
        ensures
            r.zone_panels@.len() == 0,
            r.active_panels@.len() == 0,
    {
        LegacyZoneState::new()
    }
}

/// Add each panel in turn to the zone, stopping at the first error.
pub open spec fn add_panels(t: TreeModel, zone: Seq<char>, ps: Seq<Seq<char>>) -> (TreeModel, Result<(), TreeErrorModel>)
    decreases ps.len(),
{
    if ps.len() == 0 {
        (t, Ok(()))
    } else {
        let (t1, r1) = add_panels(t, zone, ps.drop_last());
        if r1 is Err {
            (t1, r1)
        } else {
            add_panel_spec(t1, zone, ps.last(), None)
        }
    }
}

/// Move one legacy zone's panels (and active panel) into the zone with its
/// legacy name.
pub open spec fn convert_zone(t: TreeModel, name: Seq<char>, ps: Seq<Seq<char>>, actives: Map<Seq<char>, Seq<char>>) -> (
    TreeModel,
    Result<(), IntegrationErrorModel>,
) {
    match legacy_zone(t, name) {
        None => (t, Err(IntegrationErrorModel::LegacyZoneNotFound(name))),
        Some(z) => {
            let (t1, r1) = add_panels(t, z, ps);
            if r1 is Err {
                (t1, lift_tree(r1))
            } else if actives.contains_key(name) {
                let (t2, r2) = set_active_spec(t1, z, Some(actives[name]));
                (t2, lift_tree(r2))
            } else {
                (t1, Ok(()))
            }
        },
    }
}

/// Convert each legacy zone in turn, stopping at the first error.
pub open spec fn convert_all(t: TreeModel, zs: Seq<(Seq<char>, Seq<Seq<char>>)>, actives: Map<Seq<char>, Seq<char>>) -> (
    TreeModel,
    Result<(), IntegrationErrorModel>,
)
    decreases zs.len(),
{
    if zs.len() == 0 {
        (t, Ok(()))
    } else {
        let (t1, r1) = convert_all(t, zs.drop_last(), actives);
        if r1 is Err {
            (t1, r1)
        } else {
            convert_zone(t1, zs.last().0, zs.last().1, actives)
        }
    }
}

/// Replacing the content of a zone keeps the height of the tree.
pub proof fn lemma_with_content_height(root: NodeModel, p: Seq<usize>, c: ContentModel)
    requires
        node_at(root, p) matches Some(NodeModel::Zone { .. }),
    ensures
        height(with_content(root, p, c)) == height(root),
{
    let z = node_at(root, p).unwrap();
    lemma_height_replace(root, p, NodeModel::Zone { id: z.id(), content: c });
    lemma_height_replace(root, p, z);
    lemma_replace_same(root, p);
}

/// Adding a panel keeps the height of the tree.
pub proof fn lemma_add_panel_height(t: TreeModel, zone: Seq<char>, panel: Seq<char>, index: Option<nat>)
    ensures
        height(add_panel_spec(t, zone, panel, index).0.root) == height(t.root),
{
    if let Some(p) = zone_path(t.root, zone) {
        let c = content_at(t.root, p);
        let c2 = match index {
            Some(i) => content_insert_at(c, panel, i),
            None => content_add(c, panel),
        };
        lemma_with_content_height(t.root, p, c2);
    }
}

/// Setting the active panel keeps the height of the tree.
pub proof fn lemma_set_active_height(t: TreeModel, zone: Seq<char>, panel: Option<Seq<char>>)
    ensures
        height(set_active_spec(t, zone, panel).0.root) == height(t.root),
{
    if let Some(p) = zone_path(t.root, zone) {
        lemma_with_content_height(t.root, p, content_set_active(content_at(t.root, p), panel));
    }
}

/// Once adding panels has failed, later panels change nothing.
pub proof fn lemma_add_panels_err(t: TreeModel, zone: Seq<char>, ps: Seq<Seq<char>>, k: int)
    requires
        0 <= k <= ps.len(),
        add_panels(t, zone, ps.subrange(0, k)).1 is Err,
    ensures
        add_panels(t, zone, ps) == add_panels(t, zone, ps.subrange(0, k)),
    decreases ps.len(),
{
    if ps.len() == k {
        assert(ps.subrange(0, k) =~= ps);
    } else {
        assert(ps.drop_last().subrange(0, k) =~= ps.subrange(0, k));
        lemma_add_panels_err(t, zone, ps.drop_last(), k);
    }
}

/// Once converting a zone has failed, later zones change nothing.
pub proof fn lemma_convert_all_err(
    t: TreeModel,
    zs: Seq<(Seq<char>, Seq<Seq<char>>)>,
    actives: Map<Seq<char>, Seq<char>>,
    k: int,
)
    requires
        0 <= k <= zs.len(),
        convert_all(t, zs.subrange(0, k), actives).1 is Err,
    ensures
        convert_all(t, zs, actives) == convert_all(t, zs.subrange(0, k), actives),
    decreases zs.len(),
{
    if zs.len() == k {
        assert(zs.subrange(0, k) =~= zs);
    } else {
        assert(zs.drop_last().subrange(0, k) =~= zs.subrange(0, k));
        lemma_convert_all_err(t, zs.drop_last(), actives, k);
    }
}

/// The tree (or the error) that converting the legacy zones gives, starting
/// from the tree `t0`.
pub open spec fn legacy_outcome(
    t0: TreeModel,
    zs: Seq<(Seq<char>, Seq<Seq<char>>)>,
    actives: Map<Seq<char>, Seq<char>>,
) -> Result<TreeModel, IntegrationErrorModel> {
    let (t, res) = convert_all(t0, zs, actives);
    match res {
        Ok(()) => Ok(t),
        Err(e) => Err(e),
    }
}

/// Whether `r` is what converting `legacy` gives from some tree built with
/// the default layout (the layouts differ only in their fresh split
/// identifiers).
pub open spec fn converted(legacy: LegacyZoneState, r: Result<TreeModel, IntegrationErrorModel>) -> bool {
    exists|t0: TreeModel|
        #![trigger layout_with_shape(t0, default_shape())]
        layout_with_shape(t0, default_shape()) && legacy_outcome(
            t0,
            zone_panel_views(legacy.zone_panels@),
            assoc_map(legacy.active_panels@),
        ) == r
}

pub open spec fn tree_outcome(r: Result<LayoutTree, IntegrationError>) -> Result<TreeModel, IntegrationErrorModel> {
    match r {
        Ok(t) => Ok(t@),
        Err(e) => Err(e@),
    }
}

/// Build a tree with the default layout and move each legacy zone's panels
/// (and active panel) into the zone tagged with its name, stopping at the
/// first zone that cannot be found or changed.
pub fn convert_legacy_state(legacy: &LegacyZoneState) -> (r: Result<LayoutTree, IntegrationError>)
    ensures
        converted(*legacy, tree_outcome(r)),
        r matches Ok(t) ==> height(t@.root) < MAX_TREE_DEPTH,
{
    let mut tree = match LayoutBuilder::default_seaglass_layout() {
        Ok(t) => t,
        Err(e) => {
            return Err(IntegrationError::InvalidMapping(e.message()));
        },
    };
    let ghost t0 = tree@;
    let ghost zs = zone_panel_views(legacy.zone_panels@);
    let ghost actives = assoc_map(legacy.active_panels@);
    proof {
        lemma_shape_height(t0.root);
        reveal_with_fuel(height, 6);
        assert(height(default_shape()) < MAX_TREE_DEPTH);
        assert(zs.subrange(0, 0) =~= Seq::<(Seq<char>, Seq<Seq<char>>)>::empty());
    }
    let mut i: usize = 0;
    while i < legacy.zone_panels.len()
        invariant
            i <= legacy.zone_panels@.len(),
            zs == zone_panel_views(legacy.zone_panels@),
            actives == assoc_map(legacy.active_panels@),
            layout_with_shape(t0, default_shape()),
            height(tree@.root) == height(t0.root),
            height(t0.root) < MAX_TREE_DEPTH,
            convert_all(t0, zs.subrange(0, i as int), actives) == (tree@, Ok::<(), IntegrationErrorModel>(())),
        decreases legacy.zone_panels@.len() - i,
    {
        let ghost ti = tree@;
        let name = &legacy.zone_panels[i].0;
        let panels = &legacy.zone_panels[i].1;
        let ghost ps = strs(panels@);
        proof {
            assert(zs.subrange(0, i + 1).drop_last() =~= zs.subrange(0, i as int));
            assert(zs[i as int] == (name@, ps));
        }
        let zone_id = match find_zone_by_legacy_name(&tree, name.as_str()) {
            Some(z) => z,
            None => {
                proof {
                    lemma_convert_all_err(t0, zs, actives, i + 1);
                }
                return Err(IntegrationError::LegacyZoneNotFound(name.clone()));
            },
        };
        let mut j: usize = 0;
        assert(ps.subrange(0, 0) =~= Seq::<Seq<char>>::empty());
        while j < panels.len()
            invariant
                j <= panels@.len(),
                ps == strs(panels@),
                height(tree@.root) == height(t0.root),
                add_panels(ti, zone_id@, ps.subrange(0, j as int)) == (tree@, Ok::<(), TreeErrorModel>(())),
                i < legacy.zone_panels@.len(),
                zs == zone_panel_views(legacy.zone_panels@),
                actives == assoc_map(legacy.active_panels@),
                layout_with_shape(t0, default_shape()),
                height(t0.root) < MAX_TREE_DEPTH,
                convert_all(t0, zs.subrange(0, i as int), actives) == (ti, Ok::<(), IntegrationErrorModel>(())),
                zs.subrange(0, i + 1).drop_last() == zs.subrange(0, i as int),
                zs[i as int] == (name@, ps),
                legacy_zone(ti, name@) == Some(zone_id@),
            decreases panels@.len() - j,
        {
            let ghost tj = tree@;
            assert(ps.subrange(0, j + 1).drop_last() =~= ps.subrange(0, j as int));
            let added = tree.add_panel_to_zone(&zone_id, panels[j].clone());
            proof {
                lemma_add_panel_height(tj, zone_id@, ps[j as int], None);
            }
            match added {
                Ok(()) => {},
                Err(e) => {
                    proof {
                        lemma_add_panels_err(ti, zone_id@, ps, j + 1);
                        lemma_convert_all_err(t0, zs, actives, i + 1);
                    }
                    return Err(IntegrationError::TreeError(e));
                },
            }
            j = j + 1;
        }
        assert(ps.subrange(0, j as int) =~= ps);
        match assoc_get(&legacy.active_panels, name) {
            Some(active) => {
                let ghost tk = tree@;
                let set = tree.set_active_panel(&zone_id, Some(active.clone()));
                proof {
                    lemma_set_active_height(tk, zone_id@, Some(active@));
                }
                match set {
                    Ok(()) => {},
                    Err(e) => {
                        proof {
                            lemma_convert_all_err(t0, zs, actives, i + 1);
                        }
                        return Err(IntegrationError::TreeError(e));
                    },
                }
            },
            None => {},
        }
        i = i + 1;
    }
    assert(zs.subrange(0, i as int) =~= zs);
    Ok(tree)
}


// ---------------------------------------------------------------------------
// Adapter
// ---------------------------------------------------------------------------

/// Zones with a legacy name, in the order of `ids`, each as (name, zone).
pub open spec fn legacy_entries(t: TreeModel, ids: Seq<Seq<char>>) -> Seq<(Seq<char>, Seq<char>)>
    decreases ids.len(),
{
    if ids.len() == 0 {
        Seq::empty()
    } else {
        let rest = legacy_entries(t, ids.drop_last());
        match legacy_name_of(t, ids.last()) {
            Some(n) => rest.push((n, ids.last())),
            None => rest,
        }
    }
}

/// Zones with a legacy name, in the order of `ids`, each as (zone, name).
pub open spec fn name_entries(t: TreeModel, ids: Seq<Seq<char>>) -> Seq<(Seq<char>, Seq<char>)>
    decreases ids.len(),
{
    if ids.len() == 0 {
        Seq::empty()
    } else {
        let rest = name_entries(t, ids.drop_last());
        match legacy_name_of(t, ids.last()) {
            Some(n) => rest.push((ids.last(), n)),
            None => rest,
        }
    }
}

/// Legacy name to zone, as read from the zones' metadata (a later zone with
/// the same name wins).
pub open spec fn legacy_map(t: TreeModel) -> Map<Seq<char>, Seq<char>> {
    insert_all(Map::empty(), legacy_entries(t, zone_ids(t.root)))
}

/// Zone to legacy name, as read from the zones' metadata.
pub open spec fn name_map(t: TreeModel) -> Map<Seq<char>, Seq<char>> {
    insert_all(Map::empty(), name_entries(t, zone_ids(t.root)))
}

/// The abstract state of an adapter.
#[verifier::ext_equal]
pub ghost struct AdapterModel {
    pub tree: TreeModel,
    /// Legacy zone name to zone identifier.
    pub zones: Map<Seq<char>, Seq<char>>,
    /// Zone identifier to legacy zone name.
    pub names: Map<Seq<char>, Seq<char>>,
    /// Floating panels, in the order they were floated.
    pub floating: Seq<Seq<char>>,
}

/// Lets zone-based code work on a layout tree, naming zones by their legacy
/// names. Floating panels are kept out of the tree (their positions are kept
/// by the renderer).
pub struct FlexibleLayoutAdapter {
    /// The flexible layout tree
    pub tree: LayoutTree,
    /// Legacy zone name to zone identifier
    legacy_mappings: Vec<(String, NodeId)>,
    /// Zone identifier to legacy zone name
    node_to_legacy: Vec<(String, String)>,
    /// Panels outside the tree
    floating_panels: Vec<String>,
}

impl View for FlexibleLayoutAdapter {
    type V = AdapterModel;

    closed spec fn view(&self) -> AdapterModel {
        AdapterModel {
            tree: self.tree@,
            zones: assoc_map(self.legacy_mappings@),
            names: assoc_map(self.node_to_legacy@),
            floating: strs(self.floating_panels@),
        }
    }
}

/// The panel list with `p` added at the end unless it is there.
pub open spec fn add_once(s: Seq<Seq<char>>, p: Seq<char>) -> Seq<Seq<char>> {
    if s.contains(p) {
        s
    } else {
        s.push(p)
    }
}

/// `move_panel`: a floating panel stops floating and joins the zone; any
/// other panel moves there in the tree.
pub open spec fn adapter_move_spec(a: AdapterModel, panel: Seq<char>, target: Seq<char>, index: Option<nat>) -> (
    AdapterModel,
    Result<(), IntegrationErrorModel>,
) {
    if a.floating.contains(panel) {
        let a1 = AdapterModel { floating: without_first(a.floating, panel), ..a };
        if !a.zones.contains_key(target) {
            (a1, Err(IntegrationErrorModel::LegacyZoneNotFound(target)))
        } else {
            let (t2, r2) = add_panel_spec(a.tree, a.zones[target], panel, index);
            (AdapterModel { tree: t2, ..a1 }, lift_tree(r2))
        }
    } else if !a.zones.contains_key(target) {
        (a, Err(IntegrationErrorModel::LegacyZoneNotFound(target)))
    } else {
        let (t2, r2) = move_panel_spec(a.tree, panel, a.zones[target], index);
        (AdapterModel { tree: t2, ..a }, lift_tree(r2))
    }
}

/// `float_panel`: the panel leaves the tree and floats.
pub open spec fn adapter_float_spec(a: AdapterModel, panel: Seq<char>) -> (AdapterModel, Result<(), IntegrationErrorModel>) {
    let (t1, r1) = remove_panel_spec(a.tree, panel);
    if r1 is Err {
        (AdapterModel { tree: t1, ..a }, lift_tree(r1))
    } else {
        (AdapterModel { tree: t1, floating: add_once(a.floating, panel), ..a }, Ok(()))
    }
}

/// `remove_panel`: a floating panel stops floating; any other leaves the tree.
pub open spec fn adapter_remove_spec(a: AdapterModel, panel: Seq<char>) -> (AdapterModel, Result<(), IntegrationErrorModel>) {
    if a.floating.contains(panel) {
        (AdapterModel { floating: without_first(a.floating, panel), ..a }, Ok(()))
    } else {
        let (t1, r1) = remove_panel_spec(a.tree, panel);
        (AdapterModel { tree: t1, ..a }, lift_tree(r1))
    }
}

/// `add_panel_to_zone`: by legacy zone name.
pub open spec fn adapter_add_spec(a: AdapterModel, name: Seq<char>, panel: Seq<char>) -> (
    AdapterModel,
    Result<(), IntegrationErrorModel>,
) {
    if !a.zones.contains_key(name) {
        (a, Err(IntegrationErrorModel::LegacyZoneNotFound(name)))
    } else {
        let (t1, r1) = add_panel_spec(a.tree, a.zones[name], panel, None);
        (AdapterModel { tree: t1, ..a }, lift_tree(r1))
    }
}

/// `set_active_panel`: by legacy zone name.
pub open spec fn adapter_activate_spec(a: AdapterModel, name: Seq<char>, panel: Option<Seq<char>>) -> (
    AdapterModel,
    Result<(), IntegrationErrorModel>,
) {
    if !a.zones.contains_key(name) {
        (a, Err(IntegrationErrorModel::LegacyZoneNotFound(name)))
    } else {
        let (t1, r1) = set_active_spec(a.tree, a.zones[name], panel);
        (AdapterModel { tree: t1, ..a }, lift_tree(r1))
    }
}

/// The legacy name of the zone the tree records for a panel.
pub open spec fn panel_legacy_zone(a: AdapterModel, panel: Seq<char>) -> Option<Seq<char>> {
    if a.tree.panels.contains_key(panel) && a.names.contains_key(a.tree.panels[panel]) {
        Some(a.names[a.tree.panels[panel]])
    } else {
        None
    }
}

/// The content of the zone with a legacy name.
pub open spec fn legacy_content(a: AdapterModel, name: Seq<char>) -> Option<ContentModel> {
    if a.zones.contains_key(name) {
        match zone_path(a.tree.root, a.zones[name]) {
            Some(p) => Some(content_at(a.tree.root, p)),
            None => None,
        }
    } else {
        None
    }
}

fn integration_step(r: Result<(), TreeError>) -> (s: Result<(), IntegrationError>)
    ensures
        integration_result(s) == lift_tree(crate::tree::unit_result(r)),
{
    tree_step(r)
}

impl FlexibleLayoutAdapter {
    /// The adapter keeps each legacy name once and each floating panel once.
    pub closed spec fn wf(&self) -> bool {
        &&& assoc_keys(self.legacy_mappings@).no_duplicates()
        &&& strs(self.floating_panels@).no_duplicates()
    }

    /// An adapter over the default layout.
    pub fn new() -> (r: Result<FlexibleLayoutAdapter, IntegrationError>)
        ensures
            r matches Ok(a) && {
                &&& a.wf()
                &&& layout_with_shape(a@.tree, default_shape())
                &&& a@.zones == legacy_map(a@.tree)
                &&& a@.names == name_map(a@.tree)
                &&& a@.floating.len() == 0
            },
    {
        let tree = match LayoutBuilder::default_seaglass_layout() {
            Ok(t) => t,
            Err(e) => {
                return Err(IntegrationError::InvalidMapping(e.message()));
            },
        };
        proof {
            lemma_shape_height(tree@.root);
            reveal_with_fuel(height, 6);
        }
        Ok(FlexibleLayoutAdapter::from_tree(tree))
    }

    /// An adapter over a given tree.
    pub fn from_tree(tree: LayoutTree) -> (r: FlexibleLayoutAdapter)
        requires
            height(tree@.root) < MAX_TREE_DEPTH,
        ensures
            r.wf(),
            r@.tree == tree@,
            r@.zones == legacy_map(tree@),
            r@.names == name_map(tree@),
            r@.floating.len() == 0,
    {
        let mut adapter = FlexibleLayoutAdapter {
            tree,
            legacy_mappings: Vec::new(),
            node_to_legacy: Vec::new(),
            floating_panels: Vec::new(),
        };
        assert(strs(adapter.floating_panels@) =~= Seq::<Seq<char>>::empty());
        adapter.build_mappings();
        adapter
    }

    /// An adapter over the tree converted from a legacy state.
    pub fn from_legacy(legacy: &LegacyZoneState) -> (r: Result<FlexibleLayoutAdapter, IntegrationError>)
        ensures
            converted(
                *legacy,
                match r {
                    Ok(a) => Ok(a@.tree),
                    Err(e) => Err(e@),
                },
            ),
            r matches Ok(a) ==> {
                &&& a.wf()
                &&& a@.zones == legacy_map(a@.tree)
                &&& a@.names == name_map(a@.tree)
                &&& a@.floating.len() == 0
            },
    {
        match convert_legacy_state(legacy) {
            Ok(tree) => Ok(FlexibleLayoutAdapter::from_tree(tree)),
            Err(e) => Err(e),
        }
    }

    /// Rebuild both mappings from the zones' legacy names.
    pub fn build_mappings(&mut self)
        requires
            height(old(self)@.tree.root) < MAX_TREE_DEPTH,
            old(self).wf(),
        ensures
            final(self).wf(),
            final(self)@ == (AdapterModel {
                zones: legacy_map(old(self)@.tree),
                names: name_map(old(self)@.tree),
                ..old(self)@
            }),
    {
        let ghost t = self.tree@;
        self.legacy_mappings = Vec::new();
        self.node_to_legacy = Vec::new();
        let ids = self.tree.get_all_zone_ids();
        let ghost iv = ids_view(ids@);
        assert(iv.subrange(0, 0) =~= Seq::<Seq<char>>::empty());
        assert(assoc_keys(self.legacy_mappings@) =~= Seq::<Seq<char>>::empty());
        let mut i: usize = 0;
        while i < ids.len()
            invariant
                i <= ids@.len(),
                iv == ids_view(ids@),
                iv == zone_ids(t.root),
                self.tree@ == t,
                self.floating_panels == old(self).floating_panels,
                assoc_map(self.legacy_mappings@) == insert_all(Map::empty(), legacy_entries(t, iv.subrange(0, i as int))),
                assoc_map(self.node_to_legacy@) == insert_all(Map::empty(), name_entries(t, iv.subrange(0, i as int))),
                assoc_keys(self.legacy_mappings@).no_duplicates(),
            decreases ids@.len() - i,
        {
            let ghost sub = iv.subrange(0, i + 1);
            assert(sub.drop_last() =~= iv.subrange(0, i as int));
            assert(sub.last() == ids@[i as int]@);
            match zone_legacy_name(&self.tree, &ids[i]) {
                Some(n) => {
                    let name = n.clone();
                    let ghost e1 = legacy_entries(t, iv.subrange(0, i as int));
                    let ghost e2 = name_entries(t, iv.subrange(0, i as int));
                    assert(legacy_entries(t, sub).drop_last() =~= e1);
                    assert(name_entries(t, sub).drop_last() =~= e2);
                    assoc_insert(&mut self.legacy_mappings, name.clone(), ids[i].copy());
                    assoc_insert(&mut self.node_to_legacy, ids[i].text(), name);
                },
                None => {},
            }
            i = i + 1;
        }
        assert(iv.subrange(0, i as int) =~= iv);
        assert(self@ =~= AdapterModel { zones: legacy_map(t), names: name_map(t), ..old(self)@ });
    }

    /// The layout tree.
    pub fn tree(&self) -> (r: &LayoutTree)
        ensures
            r@ == self@.tree,
    {
        &self.tree
    }

    /// The layout tree, to change in place; the mappings are left as they are.
    pub fn tree_mut(&mut self) -> (r: &mut LayoutTree)
        ensures
            r@ == old(self)@.tree,
            final(self)@ == (AdapterModel { tree: final(r)@, ..old(self)@ }),
            old(self).wf() ==> final(self).wf(),
    {
        &mut self.tree
    }

    /// The zone with a legacy name.
    pub fn get_zone_id(&self, legacy_name: &str) -> (r: Option<&NodeId>)
        ensures
            match r {
                Some(id) => self@.zones.contains_key(legacy_name@) && self@.zones[legacy_name@] == id@,
                None => !self@.zones.contains_key(legacy_name@),
            },
    {
        assoc_get(&self.legacy_mappings, &legacy_name.to_string())
    }

    /// The legacy name of a zone.
    pub fn get_legacy_name(&self, zone_id: &NodeId) -> (r: Option<&String>)
        ensures
            match r {
                Some(n) => self@.names.contains_key(zone_id@) && self@.names[zone_id@] == n@,
                None => !self@.names.contains_key(zone_id@),
            },
    {
        assoc_get(&self.node_to_legacy, &zone_id.text())
    }

    /// Whether a panel is floating.
    pub fn is_panel_floating(&self, panel_id: &str) -> (r: bool)
        ensures
            r == self@.floating.contains(panel_id@),
    {
        contains_string(&self.floating_panels, &panel_id.to_string())
    }

    /// Take a panel off the floating list.
    fn unfloat(&mut self, panel_id: &str)
        requires
            old(self).wf(),
        ensures
            final(self).wf(),
            final(self)@ == (AdapterModel { floating: without_first(old(self)@.floating, panel_id@), ..old(self)@ }),
    {
        let id = panel_id.to_string();
        let ghost f0 = self@.floating;
        proof {
            f0.index_of_first_ensures(id@);
        }
        match position_of(&self.floating_panels, &id) {
            Some(pos) => {
                let ghost before = self.floating_panels@;
                self.floating_panels.remove(pos);
                assert(strs(self.floating_panels@) =~= strs(before).remove(pos as int));
                proof {
                    lemma_remove_no_duplicates(strs(before), pos as int);
                }
            },
            None => {},
        }
        assert(self@ =~= AdapterModel { floating: without_first(old(self)@.floating, panel_id@), ..old(self)@ });
    }

    /// Move a panel to the zone with a legacy name (at `insert_index` if
    /// given, else at the end); a floating panel is docked there.
    pub fn move_panel(&mut self, panel_id: &str, target_zone: &str, insert_index: Option<usize>) -> (r: Result<(), IntegrationError>)
        requires
            old(self).wf(),
            insert_index matches Some(i) ==> i <= u32::MAX,
        ensures
            final(self).wf(),
            (final(self)@, integration_result(r)) == adapter_move_spec(
                old(self)@,
                panel_id@,
                target_zone@,
                match insert_index {
                    Some(i) => Some(i as nat),
                    None => None,
                },
            ),
    {
        if self.is_panel_floating(panel_id) {
            self.unfloat(panel_id);
            let zone_id = match self.get_zone_id(target_zone) {
                Some(z) => z.copy(),
                None => {
                    return Err(IntegrationError::LegacyZoneNotFound(target_zone.to_string()));
                },
            };
            let r = match insert_index {
                Some(idx) => self.tree.add_panel_to_zone_at(&zone_id, panel_id.to_string(), idx),
                None => self.tree.add_panel_to_zone(&zone_id, panel_id.to_string()),
            };
            return integration_step(r);
        }
        let target_id = match self.get_zone_id(target_zone) {
            Some(z) => z.copy(),
            None => {
                return Err(IntegrationError::LegacyZoneNotFound(target_zone.to_string()));
            },
        };
        let r = self.tree.move_panel(panel_id, &target_id, insert_index);
        integration_step(r)
    }

    /// Take a panel out of the tree and float it.
    pub fn float_panel(&mut self, panel_id: &str) -> (r: Result<(), IntegrationError>)
        requires
            old(self).wf(),
        ensures
            final(self).wf(),
            (final(self)@, integration_result(r)) == adapter_float_spec(old(self)@, panel_id@),
    {
        let r = self.tree.remove_panel(panel_id);
        match r {
            Ok(()) => {},
            Err(e) => {
                return Err(IntegrationError::TreeError(e));
            },
        }
        if !self.is_panel_floating(panel_id) {
            let ghost before = self.floating_panels@;
            self.floating_panels.push(panel_id.to_string());
            assert(strs(self.floating_panels@) =~= strs(before).push(panel_id@));
            proof {
                lemma_push_no_duplicates(strs(before), panel_id@);
            }
        }
        Ok(())
    }

    /// The legacy name of the zone that holds a panel.
    pub fn find_panel_zone(&self, panel_id: &str) -> (r: Option<String>)
        ensures
            opt_str(r) == panel_legacy_zone(self@, panel_id@),
    {
        match self.tree.find_panel_zone(panel_id) {
            Some(zone_id) => match self.get_legacy_name(&zone_id) {
                Some(n) => Some(n.clone()),
                None => None,
            },
            None => None,
        }
    }

    /// All legacy zone names, each once.
    pub fn get_legacy_zones(&self) -> (r: Vec<String>)
        requires
            self.wf(),
        ensures
            strs(r@).no_duplicates(),
            forall|k: Seq<char>| #[trigger] strs(r@).contains(k) <==> self@.zones.contains_key(k),
    {
        let mut names: Vec<String> = Vec::new();
        let mut i: usize = 0;
        while i < self.legacy_mappings.len()
            invariant
                i <= self.legacy_mappings@.len(),
                strs(names@) == assoc_keys(self.legacy_mappings@).subrange(0, i as int),
            decreases self.legacy_mappings@.len() - i,
        {
            let ghost before = names@;
            let k = self.legacy_mappings[i].0.clone();
            assert(assoc_keys(self.legacy_mappings@)[i as int] == k@);
            names.push(k);
            assert(strs(names@) =~= strs(before).push(k@));
            assert(strs(names@) =~= assoc_keys(self.legacy_mappings@).subrange(0, i + 1));
            i = i + 1;
        }
        let ghost ks = assoc_keys(self.legacy_mappings@);
        assert(ks.subrange(0, i as int) =~= ks);
        proof {
            lemma_assoc_map(self.legacy_mappings@);
            assert forall|k: Seq<char>| #[trigger] strs(names@).contains(k) <==> self@.zones.contains_key(k) by {
                if strs(names@).contains(k) {
                    let j = choose|j: int| 0 <= j < ks.len() && ks[j] == k;
                    assert(self.legacy_mappings@[j].0@ == k);
                }
                if self@.zones.contains_key(k) {
                    let j = choose|j: int| 0 <= j < self.legacy_mappings@.len() && self.legacy_mappings@[j].0@ == k;
                    assert(ks[j] == k);
                }
            }
        }
        names
    }

    /// Add a panel to the zone with a legacy name.
    pub fn add_panel_to_zone(&mut self, legacy_name: &str, panel_id: String) -> (r: Result<(), IntegrationError>)
        requires
            old(self).wf(),
        ensures
            final(self).wf(),
            (final(self)@, integration_result(r)) == adapter_add_spec(old(self)@, legacy_name@, panel_id@),
    {
        let zone_id = match self.get_zone_id(legacy_name) {
            Some(z) => z.copy(),
            None => {
                return Err(IntegrationError::LegacyZoneNotFound(legacy_name.to_string()));
            },
        };
        let r = self.tree.add_panel_to_zone(&zone_id, panel_id);
        integration_step(r)
    }

    /// Remove a panel: from the floating list if it floats, else from the tree.
    pub fn remove_panel(&mut self, panel_id: &str) -> (r: Result<(), IntegrationError>)
        requires
            old(self).wf(),
        ensures
            final(self).wf(),
            (final(self)@, integration_result(r)) == adapter_remove_spec(old(self)@, panel_id@),
    {
        if self.is_panel_floating(panel_id) {
            self.unfloat(panel_id);
            return Ok(());
        }
        let r = self.tree.remove_panel(panel_id);
        integration_step(r)
    }

    /// The content of the zone with a legacy name.
    pub fn get_zone_content(&self, legacy_name: &str) -> (r: Option<&ZoneContent>)
        ensures
            match r {
                Some(c) => legacy_content(self@, legacy_name@) == Some(c@),
                None => legacy_content(self@, legacy_name@) is None,
            },
    {
        match self.get_zone_id(legacy_name) {
            Some(id) => match self.tree.find_zone(id) {
                Some(node) => node.zone_content(),
                None => None,
            },
            None => None,
        }
    }

    /// Set (or clear) the active panel of the zone with a legacy name.
    pub fn set_active_panel(&mut self, legacy_name: &str, panel_id: Option<String>) -> (r: Result<(), IntegrationError>)
        requires
            old(self).wf(),
        ensures
            final(self).wf(),
            (final(self)@, integration_result(r)) == adapter_activate_spec(old(self)@, legacy_name@, opt_str(panel_id)),
    {
        let zone_id = match self.get_zone_id(legacy_name) {
            Some(z) => z.copy(),
            None => {
                return Err(IntegrationError::LegacyZoneNotFound(legacy_name.to_string()));
            },
        };
        let r = self.tree.set_active_panel(&zone_id, panel_id);
        integration_step(r)
    }

    /// A copy of the layout tree.
    pub fn get_layout_tree(&self) -> (r: LayoutTree)
        ensures
            r@ == self@.tree,
    {
        self.tree.copy()
    }

    /// Replace the layout tree and rebuild the mappings from it.
    pub fn set_layout_tree(&mut self, tree: LayoutTree)
        requires
            old(self).wf(),
            height(tree@.root) < MAX_TREE_DEPTH,
        ensures
            final(self).wf(),
            final(self)@ == (AdapterModel {
                tree: tree@,
                zones: legacy_map(tree@),
                names: name_map(tree@),
                floating: old(self)@.floating,
            }),
    {
        self.tree = tree;
        self.build_mappings();
    }
}

impl Default for FlexibleLayoutAdapter {
    fn default() -> (r: FlexibleLayoutAdapter)
        ensures
            r.wf(),
            layout_with_shape(r@.tree, default_shape()),
            r@.zones == legacy_map(r@.tree),
            r@.names == name_map(r@.tree),
            r@.floating.len() == 0,
    {
        match FlexibleLayoutAdapter::new() {
            Ok(a) => a,
            Err(_) => {
                proof {
                    assert(false);
                }
                FlexibleLayoutAdapter::from_tree(LayoutTree::new())
            },
        }
    }
}

/// Removing an element keeps a sequence free of duplicates.
pub proof fn lemma_remove_no_duplicates<A>(s: Seq<A>, i: int)
    requires
        s.no_duplicates(),
        0 <= i < s.len(),
    ensures
        s.remove(i).no_duplicates(),
{
    let r = s.remove(i);
    assert forall|a: int, b: int| 0 <= a < r.len() && 0 <= b < r.len() && a != b implies r[a] != r[b] by {
        let sa = if a < i { a } else { a + 1 };
        let sb = if b < i { b } else { b + 1 };
        assert(r[a] == s[sa] && r[b] == s[sb]);
    }
}

/// Pushing an absent element keeps a sequence free of duplicates.
pub proof fn lemma_push_no_duplicates<A>(s: Seq<A>, x: A)
    requires
        s.no_duplicates(),
        !s.contains(x),
    ensures
        s.push(x).no_duplicates(),
{
    let r = s.push(x);
    assert forall|a: int, b: int| 0 <= a < r.len() && 0 <= b < r.len() && a != b implies r[a] != r[b] by {
        if a < s.len() && b < s.len() {
            assert(r[a] == s[a] && r[b] == s[b]);
        } else if a < s.len() {
            assert(r[a] == s[a]);
        } else if b < s.len() {
            assert(r[b] == s[b]);
        }
    }
}


/// With no duplicates, taking off the first occurrence of a panel takes it off.
pub proof fn lemma_without_first_no_duplicates(s: Seq<Seq<char>>, p: Seq<char>)
    requires
        s.no_duplicates(),
    ensures
        !without_first(s, p).contains(p),
        without_first(s, p).no_duplicates(),
{
    s.index_of_first_ensures(p);
    if let Some(i) = s.index_of_first(p) {
        lemma_remove_no_duplicates(s, i);
        let r = s.remove(i);
        if r.contains(p) {
            let k = choose|k: int| 0 <= k < r.len() && r[k] == p;
            if k < i {
                assert(s[k] == p);
            } else {
                assert(s[k + 1] == p);
            }
        }
    }
}

/// A panel that was floated and is then moved to a legacy zone present in
/// the tree no longer floats and is recorded in that zone.
pub proof fn law_float_then_move_docks(a: AdapterModel, p: Seq<char>, name: Seq<char>)
    requires
        a.floating.no_duplicates(),
        adapter_float_spec(a, p).1 is Ok,
        a.zones.contains_key(name),
        zone_path(adapter_float_spec(a, p).0.tree.root, a.zones[name]) is Some,
    ensures
        adapter_move_spec(adapter_float_spec(a, p).0, p, name, None).1 is Ok,
        !adapter_move_spec(adapter_float_spec(a, p).0, p, name, None).0.floating.contains(p),
        adapter_move_spec(adapter_float_spec(a, p).0, p, name, None).0.tree.panels[p] == a.zones[name],
{
    let a1 = adapter_float_spec(a, p).0;
    assert(a1.floating.contains(p)) by {
        if !a.floating.contains(p) {
            assert(a1.floating == a.floating.push(p));
            assert(a1.floating[a.floating.len() as int] == p);
        }
    }
    if !a.floating.contains(p) {
        lemma_push_no_duplicates(a.floating, p);
    }
    lemma_without_first_no_duplicates(a1.floating, p);
}


proof fn lemma_legacy_entries_tagged(t: TreeModel, ids: Seq<Seq<char>>)
    ensures
        forall|k: Seq<char>|
            #[trigger] insert_all(Map::empty(), legacy_entries(t, ids)).contains_key(k) ==> legacy_name_of(
                t,
                insert_all(Map::empty(), legacy_entries(t, ids))[k],
            ) == Some(k),
        forall|z: Seq<char>|
            #[trigger] insert_all(Map::empty(), name_entries(t, ids)).contains_key(z) ==> legacy_name_of(t, z)
                == Some(insert_all(Map::empty(), name_entries(t, ids))[z]),
    decreases ids.len(),
{
    if ids.len() > 0 {
        lemma_legacy_entries_tagged(t, ids.drop_last());
        let es = legacy_entries(t, ids);
        let ns = name_entries(t, ids);
        let m0 = insert_all(Map::empty(), name_entries(t, ids.drop_last()));
        if let Some(n) = legacy_name_of(t, ids.last()) {
            assert(es.drop_last() =~= legacy_entries(t, ids.drop_last()));
            assert(ns.drop_last() =~= name_entries(t, ids.drop_last()));
            assert(insert_all(Map::empty(), ns) == m0.insert(ids.last(), n));
            assert forall|z: Seq<char>| #[trigger] insert_all(Map::empty(), ns).contains_key(z) implies legacy_name_of(t, z)
                == Some(insert_all(Map::empty(), ns)[z]) by {
                if z != ids.last() {
                    assert(m0.contains_key(z));
                }
            }
        }
    }
}

/// The adapter's mappings agree with the zones' metadata: each legacy name
/// maps to a zone tagged with that name, and each mapped zone to the name it
/// is tagged with.
pub proof fn law_legacy_mappings_sound(t: TreeModel)
    ensures
        forall|k: Seq<char>| #[trigger] legacy_map(t).contains_key(k) ==> legacy_name_of(t, legacy_map(t)[k]) == Some(k),
        forall|z: Seq<char>| #[trigger] name_map(t).contains_key(z) ==> legacy_name_of(t, z) == Some(name_map(t)[z]),
{
    lemma_legacy_entries_tagged(t, zone_ids(t.root));
}


/// Whether `m` is a zone that may stand in for the zone at `p`: same identifier.
pub open spec fn zone_stand_in(n: NodeModel, p: Seq<usize>, m: NodeModel) -> bool {
    &&& node_at(n, p) matches Some(NodeModel::Zone { .. })
    &&& m is Zone
    &&& m.id() == node_at(n, p).unwrap().id()
}

proof fn lemma_first_path_from_update(s: Seq<NodeModel>, i: int, x: NodeModel, id: Seq<char>, j: nat)
    requires
        0 <= i < s.len(),
        first_path(x, id) == first_path(s[i], id),
    ensures
        first_path_from(s.update(i, x), id, j) == first_path_from(s, id, j),
    decreases s.len() - j,
{
    if j < s.len() {
        lemma_first_path_from_update(s, i, x, id, j + 1);
        if j as int == i {
            assert(s.update(i, x)[i] == x);
        } else {
            assert(s.update(i, x)[j as int] == s[j as int]);
        }
    }
}

/// Replacing a zone by a zone with the same identifier keeps every first path.
pub proof fn lemma_first_path_stand_in(n: NodeModel, p: Seq<usize>, m: NodeModel, id: Seq<char>)
    requires
        zone_stand_in(n, p, m),
    ensures
        first_path(replace_at(n, p, m), id) == first_path(n, id),
    decreases p.len(),
{
    if p.len() > 0 {
        let rest = p.drop_first();
        match n {
            NodeModel::Split { id: sid, direction, ratio, first, second } => {
                if p[0] == 0 {
                    lemma_first_path_stand_in(*first, rest, m, id);
                } else {
                    lemma_first_path_stand_in(*second, rest, m, id);
                }
            },
            NodeModel::Container { children, .. } => {
                let i = p[0] as int;
                lemma_first_path_stand_in(children[i], rest, m, id);
                lemma_first_path_from_update(children, i, replace_at(children[i], rest, m), id, 0);
            },
            NodeModel::Zone { .. } => {},
        }
    }
}

/// Replacing a zone by a zone with the same identifier keeps which paths
/// lead to zones.
pub proof fn lemma_zone_kind_stand_in(n: NodeModel, p: Seq<usize>, m: NodeModel, q: Seq<usize>)
    requires
        zone_stand_in(n, p, m),
    ensures
        (node_at(replace_at(n, p, m), q) matches Some(NodeModel::Zone { .. })) <==> (node_at(n, q) matches Some(
            NodeModel::Zone { .. },
        )),
    decreases q.len(),
{
    if p.len() > 0 && q.len() > 0 {
        let rest = p.drop_first();
        match n {
            NodeModel::Split { first, second, .. } => {
                if q[0] == p[0] {
                    if p[0] == 0 {
                        lemma_zone_kind_stand_in(*first, rest, m, q.drop_first());
                    } else {
                        lemma_zone_kind_stand_in(*second, rest, m, q.drop_first());
                    }
                }
            },
            NodeModel::Container { children, .. } => {
                let i = p[0] as int;
                if q[0] == p[0] {
                    lemma_zone_kind_stand_in(children[i], rest, m, q.drop_first());
                } else if (q[0] as int) < children.len() {
                    assert(children.update(i, replace_at(children[i], rest, m))[q[0] as int] == children[q[0] as int]);
                }
            },
            NodeModel::Zone { .. } => {},
        }
    }
}

/// Replacing a zone's content keeps the path `find_zone` finds for every
/// identifier.
pub proof fn lemma_zone_path_with_content(root: NodeModel, p: Seq<usize>, c: ContentModel, id: Seq<char>)
    requires
        node_at(root, p) matches Some(NodeModel::Zone { .. }),
    ensures
        zone_path(with_content(root, p, c), id) == zone_path(root, id),
{
    let m = NodeModel::Zone { id: node_at(root, p).unwrap().id(), content: c };
    lemma_first_path_stand_in(root, p, m, id);
    if let Some(q) = first_path(root, id) {
        lemma_zone_kind_stand_in(root, p, m, q);
    }
}

/// Adding panels to a zone that `find_zone` finds never fails.
pub proof fn lemma_add_panels_ok(t: TreeModel, zone: Seq<char>, ps: Seq<Seq<char>>)
    requires
        zone_path(t.root, zone) is Some,
    ensures
        add_panels(t, zone, ps).1 is Ok,
        zone_path(add_panels(t, zone, ps).0.root, zone) is Some,
    decreases ps.len(),
{
    if ps.len() > 0 {
        lemma_add_panels_ok(t, zone, ps.drop_last());
        let t1 = add_panels(t, zone, ps.drop_last()).0;
        let p = zone_path(t1.root, zone).unwrap();
        lemma_zone_path_with_content(t1.root, p, content_add(content_at(t1.root, p), ps.last()), zone);
    }
}

proof fn lemma_named_from_tagged(t: TreeModel, ids: Seq<Seq<char>>, name: Seq<char>, i: int)
    ensures
        named_from(t, ids, name, i) matches Some(z) ==> legacy_name_of(t, z) == Some(name),
    decreases ids.len() - i,
{
    if 0 <= i < ids.len() && legacy_name_of(t, ids[i]) != Some(name) {
        lemma_named_from_tagged(t, ids, name, i + 1);
    }
}

/// Converting legacy zones fails only when a legacy zone's name tags no zone
/// of the tree: moving panels into the zones found, and setting their active
/// panels, never fails.
pub proof fn law_conversion_fails_only_on_unknown_zones(
    t: TreeModel,
    zs: Seq<(Seq<char>, Seq<Seq<char>>)>,
    actives: Map<Seq<char>, Seq<char>>,
)
    ensures
        convert_all(t, zs, actives).1 matches Err(e) ==> exists|i: int|
            0 <= i < zs.len() && e == IntegrationErrorModel::LegacyZoneNotFound(#[trigger] zs[i].0),
    decreases zs.len(),
{
    if zs.len() > 0 {
        law_conversion_fails_only_on_unknown_zones(t, zs.drop_last(), actives);
        let (t1, r1) = convert_all(t, zs.drop_last(), actives);
        if r1 is Err {
            let e = r1->Err_0;
            let i = choose|i: int|
                0 <= i < zs.drop_last().len() && e == IntegrationErrorModel::LegacyZoneNotFound(
                    #[trigger] zs.drop_last()[i].0,
                );
            assert(zs[i] == zs.drop_last()[i]);
        } else {
            let name = zs.last().0;
            let k = zs.len() - 1;
            assert(zs[k].0 == name);
            if let Some(z) = legacy_zone(t1, name) {
                lemma_named_from_tagged(t1, zone_ids(t1.root), name, 0);
                assert(zone_path(t1.root, z) is Some);
                lemma_add_panels_ok(t1, z, zs.last().1);
            }
        }
    }
}

} // verus!
