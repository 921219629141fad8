//! Builder for layout trees, and the layouts built with it.
use vstd::prelude::*;
use crate::layout_node::{height, LayoutNode, NodeModel};
use crate::node::{
    content_add, content_set_active, empty_content, opt_str, pairs, strs, ContentModel, NodeId,
    SplitDirection, ZoneContent,
};
use crate::tree::{rebuilt, LayoutTree, MAX_TREE_DEPTH};

verus! {

broadcast use vstd::string::group_string_axioms;

/// Errors that can occur during layout building.
#[derive(Debug)]
pub enum BuilderError {
    EmptyLayout,
    IncompleteSplit,
    InvalidConfiguration(String),
}

pub ghost enum BuilderErrorModel {
    EmptyLayout,
    IncompleteSplit,
    InvalidConfiguration(Seq<char>),
}

impl View for BuilderError {
    type V = BuilderErrorModel;

    open spec fn view(&self) -> BuilderErrorModel {
        match self {
            BuilderError::EmptyLayout => BuilderErrorModel::EmptyLayout,
            BuilderError::IncompleteSplit => BuilderErrorModel::IncompleteSplit,
            BuilderError::InvalidConfiguration(s) => BuilderErrorModel::InvalidConfiguration(s@),
        }
    }
}

/// The text of a builder error.
pub open spec fn builder_error_message(e: BuilderErrorModel) -> Seq<char> {
    match e {
        BuilderErrorModel::EmptyLayout => "Layout is empty"@,
        BuilderErrorModel::IncompleteSplit => "Split node is incomplete"@,
        BuilderErrorModel::InvalidConfiguration(s) => "Invalid configuration: "@ + s,
    }
}

impl BuilderError {
    /// The error's message.
    pub fn message(&self) -> (r: String)
        ensures
            r@ == builder_error_message(self@),
    {
        match self {
            BuilderError::EmptyLayout => String::from_str("Layout is empty"),
            BuilderError::IncompleteSplit => String::from_str("Split node is incomplete"),
            BuilderError::InvalidConfiguration(s) => String::from_str(
                "Invalid configuration: ",
            ).concat(s.as_str()),
        }
    }
}

/// The content a zone builder produces: its panels added in order (repeats
/// ignored), then its chosen active panel selected if it is among them.
pub open spec fn added(ps: Seq<Seq<char>>) -> ContentModel
    decreases ps.len(),
{
    if ps.len() == 0 {
        empty_content()
    } else {
        content_add(added(ps.drop_last()), ps.last())
    }
}

/// `with_metadata`: set key `k` to `v`, in place if the key is present.
pub open spec fn meta_set(m: Seq<(Seq<char>, Seq<char>)>, k: Seq<char>, v: Seq<char>) -> Seq<
    (Seq<char>, Seq<char>),
> {
    match m.map_values(|e: (Seq<char>, Seq<char>)| e.0).index_of_first(k) {
        Some(i) => m.update(i, (k, v)),
        None => m.push((k, v)),
    }
}

pub proof fn lemma_meta_set_empty(k: Seq<char>, v: Seq<char>)
    ensures
        meta_set(Seq::empty(), k, v) == seq![(k, v)],
{
    let keys = Seq::<(Seq<char>, Seq<char>)>::empty().map_values(|e: (Seq<char>, Seq<char>)| e.0);
    keys.index_of_first_ensures(k);
    assert(Seq::<(Seq<char>, Seq<char>)>::empty().push((k, v)) =~= seq![(k, v)]);
}

/// A zone node with the given panels, active choice and metadata.
pub open spec fn zone_node(
    id: Seq<char>,
    panels: Seq<Seq<char>>,
    active: Option<Seq<char>>,
    metadata: Seq<(Seq<char>, Seq<char>)>,
) -> NodeModel {
    let c = added(panels);
    let c2 = match active {
        Some(a) => content_set_active(c, Some(a)),
        None => c,
    };
    NodeModel::Zone { id, content: ContentModel { metadata, ..c2 } }
}

/// A split node.
pub open spec fn split_of(id: Seq<char>, d: SplitDirection, ratio: u32, a: NodeModel, b: NodeModel) -> NodeModel {
    NodeModel::Split { id, direction: d, ratio, first: Box::new(a), second: Box::new(b) }
}

/// Builder for layout trees.
pub struct LayoutBuilder {
    current: Option<LayoutNode>,
}

/// A builder with nothing built yet.
pub closed spec fn empty_builder() -> LayoutBuilder {
    LayoutBuilder { current: None }
}

impl LayoutBuilder {
    /// What the builder has built so far.
    pub closed spec fn built(&self) -> Option<NodeModel> {
        match self.current {
            Some(n) => Some(n@),
            None => None,
        }
    }

    /// A new, empty builder.
    pub fn new() -> (r: LayoutBuilder)
        ensures
            r == empty_builder(),
            r.built() is None,
    {
        LayoutBuilder { current: None }
    }

    /// Start a zone.
    pub fn zone(self, id: &str) -> (r: ZoneBuilder)
        ensures
            r.state() == (id@, Seq::<Seq<char>>::empty(), None::<Seq<char>>, Seq::<(Seq<char>, Seq<char>)>::empty()),
            r.parent() == self,
    {
        ZoneBuilder {
            id: id.to_string(),
            panels: Vec::new(),
            active_panel: None,
            metadata: Vec::new(),
            parent_builder: self,
        }
    }

    /// Start a horizontal split (ratio 500 thousandths until set).
    pub fn split_horizontal(self) -> (r: SplitBuilder)
        ensures
            r.state() == (SplitDirection::Horizontal, 500u32, None::<NodeModel>, None::<NodeModel>),
            r.parent() == self,
    {
        SplitBuilder {
            direction: SplitDirection::Horizontal,
            ratio: 500,
            first: None,
            second: None,
            parent_builder: self,
        }
    }

    /// Start a vertical split (ratio 500 thousandths until set).
    pub fn split_vertical(self) -> (r: SplitBuilder)
        ensures
            r.state() == (SplitDirection::Vertical, 500u32, None::<NodeModel>, None::<NodeModel>),
            r.parent() == self,
    {
        SplitBuilder {
            direction: SplitDirection::Vertical,
            ratio: 500,
            first: None,
            second: None,
            parent_builder: self,
        }
    }

    /// The tree over what was built.
    pub fn build(self) -> (r: Result<LayoutTree, BuilderError>)
        requires
            self.built() matches Some(n) ==> height(n) < MAX_TREE_DEPTH,
        ensures
            match self.built() {
                Some(n) => r is Ok && r.unwrap()@ == rebuilt(n),
                None => r matches Err(e) && e@ == BuilderErrorModel::EmptyLayout,
            },
    {
        match self.current {
            Some(root) => Ok(LayoutTree::from_root(root)),
            None => Err(BuilderError::EmptyLayout),
        }
    }

    /// A builder holding `node`.
    fn holding(node: LayoutNode) -> (r: LayoutBuilder)
        ensures
            r.built() == Some(node@),
    {
        LayoutBuilder { current: Some(node) }
    }
}

impl Default for LayoutBuilder {
    fn default() -> (r: LayoutBuilder)
        ensures
            r.built() is None,
    {
        LayoutBuilder::new()
    }
}

/// Builder for a zone.
pub struct ZoneBuilder {
    id: String,
    panels: Vec<String>,
    active_panel: Option<String>,
    metadata: Vec<(String, String)>,
    parent_builder: LayoutBuilder,
}

impl ZoneBuilder {
    /// The zone's identifier, panels, chosen active panel and metadata.
    pub closed spec fn state(&self) -> (Seq<char>, Seq<Seq<char>>, Option<Seq<char>>, Seq<(Seq<char>, Seq<char>)>) {
        (self.id@, strs(self.panels@), opt_str(self.active_panel), pairs(self.metadata@))
    }

    /// The builder the zone returns to.
    pub closed spec fn parent(&self) -> LayoutBuilder {
        self.parent_builder
    }

    /// Add a panel; the first one added becomes the active choice if none is set.
    pub fn add_panel(self, panel_id: &str) -> (r: ZoneBuilder)
        ensures
            r.parent() == self.parent(),
            r.state() == (
                self.state().0,
                self.state().1.push(panel_id@),
                if self.state().2 is None && self.state().1.len() == 0 {
                    Some(panel_id@)
                } else {
                    self.state().2
                },
                self.state().3,
            ),
    {
        let mut s = self;
        let ghost before = s.panels@;
        s.panels.push(panel_id.to_string());
        assert(strs(s.panels@) =~= strs(before).push(panel_id@));
        if s.active_panel.is_none() && s.panels.len() == 1 {
            s.active_panel = Some(panel_id.to_string());
        }
        s
    }

    /// Choose the active panel.
    pub fn set_active(self, panel_id: &str) -> (r: ZoneBuilder)
        ensures
            r.parent() == self.parent(),
            r.state() == (self.state().0, self.state().1, Some(panel_id@), self.state().3),
    {
        let mut s = self;
        s.active_panel = Some(panel_id.to_string());
        s
    }

    /// Set a metadata entry.
    pub fn with_metadata(self, key: &str, value: &str) -> (r: ZoneBuilder)
        ensures
            r.parent() == self.parent(),
            r.state() == (self.state().0, self.state().1, self.state().2, meta_set(self.state().3, key@, value@)),
    {
        let mut s = self;
        let k = key.to_string();
        let ghost m0 = pairs(s.metadata@);
        let ghost keys = m0.map_values(|e: (Seq<char>, Seq<char>)| e.0);
        let mut i: usize = 0;
        while i < s.metadata.len()
            invariant
                i <= s.metadata@.len(),
                m0 == pairs(s.metadata@),
                s.id == self.id,
                s.panels == self.panels,
                s.active_panel == self.active_panel,
                s.parent_builder == self.parent_builder,
                m0 == pairs(self.metadata@),
                keys == m0.map_values(|e: (Seq<char>, Seq<char>)| e.0),
                k@ == key@,
                forall|j: int| 0 <= j < i ==> keys[j] != key@,
            decreases s.metadata@.len() - i,
        {
            if s.metadata[i].0 == k {
                proof {
                    assert(keys[i as int] == key@);
                    keys.index_of_first_ensures(key@);
                    assert(keys.index_of_first(key@) == Some(i as int));
                }
                let ghost before = s.metadata@;
                s.metadata.set(i, (k, value.to_string()));
                assert(pairs(s.metadata@) =~= m0.update(i as int, (key@, value@)));
                return s;
            }
            i = i + 1;
        }
        proof {
            keys.index_of_first_ensures(key@);
        }
        let ghost before = s.metadata@;
        s.metadata.push((k, value.to_string()));
        assert(pairs(s.metadata@) =~= m0.push((key@, value@)));
        s
    }

    /// Finish the zone; the parent builder now holds it.
    pub fn build(self) -> (r: LayoutBuilder)
        ensures
            r.built() == Some(zone_node(self.state().0, self.state().1, self.state().2, self.state().3)),
    {
        let ghost st = self.state();
        let mut content = ZoneContent::new();
        let mut i: usize = 0;
        while i < self.panels.len()
            invariant
                i <= self.panels@.len(),
                content@ == added(strs(self.panels@).subrange(0, i as int)),
            decreases self.panels@.len() - i,
        {
            content.add_panel(self.panels[i].clone());
            assert(strs(self.panels@).subrange(0, i + 1).drop_last() =~= strs(self.panels@).subrange(0, i as int));
            i = i + 1;
        }
        assert(strs(self.panels@).subrange(0, i as int) =~= strs(self.panels@));
        match &self.active_panel {
            Some(a) => content.set_active_panel(Some(a.clone())),
            None => {},
        }
        content.metadata = self.metadata;
        let zone = LayoutNode::Zone { id: NodeId(self.id), content };
        LayoutBuilder::holding(zone)
    }
}

/// Builder for a split. Ratios are in thousandths.
pub struct SplitBuilder {
    direction: SplitDirection,
    ratio: u32,
    first: Option<Box<LayoutNode>>,
    second: Option<Box<LayoutNode>>,
    parent_builder: LayoutBuilder,
}

impl SplitBuilder {
    /// The direction, ratio and the children built so far.
    pub closed spec fn state(&self) -> (SplitDirection, u32, Option<NodeModel>, Option<NodeModel>) {
        (
            self.direction,
            self.ratio,
            match self.first {
                Some(n) => Some(n@),
                None => None,
            },
            match self.second {
                Some(n) => Some(n@),
                None => None,
            },
        )
    }

    /// The builder the split returns to.
    pub closed spec fn parent(&self) -> LayoutBuilder {
        self.parent_builder
    }

    /// Set the ratio, clamped to 100..=900 thousandths.
    pub fn ratio(self, ratio: u32) -> (r: SplitBuilder)
        ensures
            r.parent() == self.parent(),
            r.state() == (
                self.state().0,
                if ratio < 100 { 100u32 } else if ratio > 900 { 900u32 } else { ratio },
                self.state().2,
                self.state().3,
            ),
    {
        let mut s = self;
        s.ratio = if ratio < 100 {
            100
        } else if ratio > 900 {
            900
        } else {
            ratio
        };
        s
    }

    /// Build the first child with `builder_fn`, which gets an empty builder;
    /// nothing changes if it builds nothing.
    pub fn first<F>(self, builder_fn: F) -> (r: SplitBuilder)
        where
            F: FnOnce(LayoutBuilder) -> LayoutBuilder,
        requires
            call_requires(builder_fn, (empty_builder(),)),
        ensures
            r.parent() == self.parent(),
            exists|child: LayoutBuilder|
                call_ensures(builder_fn, (empty_builder(),), child) && r.state() == (
                    self.state().0,
                    self.state().1,
                    if child.built() is Some { child.built() } else { self.state().2 },
                    self.state().3,
                ),
    {
        let mut s = self;
        let child = builder_fn(LayoutBuilder::new());
        let ghost cb = child;
        match child.current {
            Some(n) => {
                s.first = Some(Box::new(n));
            },
            None => {},
        }
        assert(call_ensures(builder_fn, (empty_builder(),), cb) && s.state() == (
            self.state().0,
            self.state().1,
            if cb.built() is Some { cb.built() } else { self.state().2 },
            self.state().3,
        ));
        s
    }

    /// Build the second child with `builder_fn`, which gets an empty builder;
    /// nothing changes if it builds nothing.
    pub fn second<F>(self, builder_fn: F) -> (r: SplitBuilder)
        where
            F: FnOnce(LayoutBuilder) -> LayoutBuilder,
        requires
            call_requires(builder_fn, (empty_builder(),)),
        ensures
            r.parent() == self.parent(),
            exists|child: LayoutBuilder|
                call_ensures(builder_fn, (empty_builder(),), child) && r.state() == (
                    self.state().0,
                    self.state().1,
                    self.state().2,
                    if child.built() is Some { child.built() } else { self.state().3 },
                ),
    {
        let mut s = self;
        let child = builder_fn(LayoutBuilder::new());
        let ghost cb = child;
        match child.current {
            Some(n) => {
                s.second = Some(Box::new(n));
            },
            None => {},
        }
        assert(call_ensures(builder_fn, (empty_builder(),), cb) && s.state() == (
            self.state().0,
            self.state().1,
            self.state().2,
            if cb.built() is Some { cb.built() } else { self.state().3 },
        ));
        s
    }

    /// Finish the split under a fresh identifier; the parent builder now holds it.
    pub fn build(self) -> (r: Result<LayoutBuilder, BuilderError>)
        ensures
            match (self.state().2, self.state().3) {
                (Some(a), Some(b)) => r is Ok && exists|id: Seq<char>|
                    r.unwrap().built() == Some(split_of(id, self.state().0, self.state().1, a, b)),
                _ => r matches Err(e) && e@ == BuilderErrorModel::IncompleteSplit,
            },
    {
        match (self.first, self.second) {
            (Some(first), Some(second)) => {
                let id = NodeId::new();
                let ghost idv = id@;
                let split = LayoutNode::Split {
                    id,
                    direction: self.direction,
                    ratio: self.ratio,
                    first,
                    second,
                };
                let b = LayoutBuilder::holding(split);
                assert(b.built() == Some(
                    split_of(idv, self.state().0, self.state().1, self.state().2.unwrap(), self.state().3.unwrap()),
                ));
                Ok(b)
            },
            _ => Err(BuilderError::IncompleteSplit),
        }
    }
}

// ---------------------------------------------------------------------------
// Layouts built with the builder
// ---------------------------------------------------------------------------

/// A node with the identifiers of its splits erased (those outside
/// containers): the shape of a layout, which is what the builder fixes; split
/// identifiers are drawn fresh.
pub open spec fn shape(n: NodeModel) -> NodeModel
    decreases n,
{
    match n {
        NodeModel::Split { direction, ratio, first, second, .. } => NodeModel::Split {
            id: Seq::empty(),
            direction,
            ratio,
            first: Box::new(shape(*first)),
            second: Box::new(shape(*second)),
        },
        _ => n,
    }
}

/// The shape of a split of two shapes.
pub open spec fn split_shape(d: SplitDirection, ratio: u32, a: NodeModel, b: NodeModel) -> NodeModel {
    split_of(Seq::empty(), d, ratio, a, b)
}

/// A zone holding one panel, which is active.
pub open spec fn zone1(id: Seq<char>, panel: Seq<char>) -> NodeModel {
    zone_node(id, seq![panel], Some(panel), Seq::empty())
}

/// A zone holding one active panel and one metadata entry.
pub open spec fn zone1m(id: Seq<char>, panel: Seq<char>, k: Seq<char>, v: Seq<char>) -> NodeModel {
    zone_node(id, seq![panel], Some(panel), seq![(k, v)])
}

/// A zone tagged with its legacy name, which is its identifier.
pub open spec fn legacy_zone(id: Seq<char>, panel: Seq<char>) -> NodeModel {
    zone1m(id, panel, "legacy_name"@, id)
}

/// Whether a built layout has shape `s`, with its caches built from its root.
pub open spec fn layout_with_shape(t: crate::tree::TreeModel, s: NodeModel) -> bool {
    t == rebuilt(t.root) && shape(t.root) == s
}

/// Whether a builder holds a node of shape `s`.
pub open spec fn holds_shape(b: LayoutBuilder, s: NodeModel) -> bool {
    b.built() matches Some(n) && shape(n) == s
}

impl SplitBuilder {
    /// Use `node` as the first child.
    fn first_node(self, node: LayoutNode) -> (r: SplitBuilder)
        ensures
            r.parent() == self.parent(),
            r.state() == (self.state().0, self.state().1, Some(node@), self.state().3),
    {
        let mut s = self;
        s.first = Some(Box::new(node));
        s
    }

    /// Use `node` as the second child.
    fn second_node(self, node: LayoutNode) -> (r: SplitBuilder)
        ensures
            r.parent() == self.parent(),
            r.state() == (self.state().0, self.state().1, self.state().2, Some(node@)),
    {
        let mut s = self;
        s.second = Some(Box::new(node));
        s
    }
}

/// Finish a split whose children are built, and check the shape of the result.
fn finish_split(sb: SplitBuilder) -> (r: LayoutBuilder)
    requires
        sb.state().2 is Some,
        sb.state().3 is Some,
    ensures
        holds_shape(
            r,
            split_shape(sb.state().0, sb.state().1, shape(sb.state().2.unwrap()), shape(sb.state().3.unwrap())),
        ),
{
    match sb.build() {
        Ok(b) => b,
        Err(_) => LayoutBuilder::new(),
    }
}

/// Turn a builder holding a small layout into a tree.
fn finish_tree(b: LayoutBuilder, Ghost(s): Ghost<NodeModel>) -> (r: Result<LayoutTree, BuilderError>)
    requires
        holds_shape(b, s),
        height(b.built().unwrap()) < MAX_TREE_DEPTH,
    ensures
        r matches Ok(t) && layout_with_shape(t@, s),
{
    b.build()
}

/// A builder holding a zone with one panel.
fn one_panel_zone(id: &str, panel: &str) -> (r: LayoutBuilder)
    ensures
        r.built() == Some(zone1(id@, panel@)),
{
    LayoutBuilder::new().zone(id).add_panel(panel).build()
}

/// A builder holding a zone with one panel and one metadata entry.
fn tagged_zone(id: &str, panel: &str, key: &str, value: &str) -> (r: LayoutBuilder)
    ensures
        r.built() == Some(zone1m(id@, panel@, key@, value@)),
{
    let z = LayoutBuilder::new().zone(id).add_panel(panel);
    proof {
        lemma_meta_set_empty(key@, value@);
    }
    z.with_metadata(key, value).build()
}

/// The node a builder holds.
fn node_of(b: LayoutBuilder) -> (r: LayoutNode)
    requires
        b.built() is Some,
    ensures
        Some(r@) == b.built(),
{
    match b.current {
        Some(n) => n,
        None => LayoutNode::Zone { id: NodeId::from_string(""), content: ZoneContent::new() },
    }
}

/// Two children side by side (horizontal) or stacked (vertical).
fn pair(vertical: bool, ratio: u32, a: LayoutBuilder, b: LayoutBuilder) -> (r: LayoutBuilder)
    requires
        a.built() is Some,
        b.built() is Some,
    ensures
        holds_shape(
            r,
            split_shape(
                if vertical { SplitDirection::Vertical } else { SplitDirection::Horizontal },
                if ratio < 100 { 100u32 } else if ratio > 900 { 900u32 } else { ratio },
                shape(a.built().unwrap()),
                shape(b.built().unwrap()),
            ),
        ),
{
    let sb = if vertical {
        LayoutBuilder::new().split_vertical()
    } else {
        LayoutBuilder::new().split_horizontal()
    };
    let sb = sb.ratio(ratio).first_node(node_of(a)).second_node(node_of(b));
    finish_split(sb)
}

/// The shape of the focus layout.
pub open spec fn focus_shape() -> NodeModel {
    split_shape(
        SplitDirection::Horizontal,
        900,
        split_shape(
            SplitDirection::Vertical,
            850,
            zone1m("main"@, "flow_panel"@, "focus"@, "true"@),
            zone1("bottom"@, "table_tabs_panel"@),
        ),
        zone1("sidebar"@, "validation_results_panel"@),
    )
}

fn focus_main(b: LayoutBuilder) -> (r: LayoutBuilder)
    ensures
        r.built() == Some(zone1m("main"@, "flow_panel"@, "focus"@, "true"@)),
{
    let z = b.zone("main").add_panel("flow_panel");
    proof {
        lemma_meta_set_empty("focus"@, "true"@);
    }
    z.with_metadata("focus", "true").build()
}

fn focus_bottom(b: LayoutBuilder) -> (r: LayoutBuilder)
    ensures
        r.built() == Some(zone1("bottom"@, "table_tabs_panel"@)),
{
    b.zone("bottom").add_panel("table_tabs_panel").build()
}

fn focus_sidebar(b: LayoutBuilder) -> (r: LayoutBuilder)
    ensures
        r.built() == Some(zone1("sidebar"@, "validation_results_panel"@)),
{
    b.zone("sidebar").add_panel("validation_results_panel").build()
}

fn focus_left(b: LayoutBuilder) -> (r: LayoutBuilder)
    ensures
        holds_shape(
            r,
            split_shape(
                SplitDirection::Vertical,
                850,
                zone1m("main"@, "flow_panel"@, "focus"@, "true"@),
                zone1("bottom"@, "table_tabs_panel"@),
            ),
        ),
{
    finish_split(b.split_vertical().ratio(850).first(focus_main).second(focus_bottom))
}

/// Focus mode: a large main area with a small bottom zone and a narrow sidebar.
pub fn build_focus_layout() -> (r: Result<LayoutTree, BuilderError>)
    ensures
        r matches Ok(t) && layout_with_shape(t@, focus_shape()),
{
    let top = finish_split(
        LayoutBuilder::new().split_horizontal().ratio(900).first(focus_left).second(focus_sidebar),
    );
    proof {
        reveal_with_fuel(height, 3);
        reveal_with_fuel(shape, 3);
    }
    finish_tree(top, Ghost(focus_shape()))
}

pub proof fn lemma_shape_height(n: NodeModel)
    ensures
        height(shape(n)) == height(n),
    decreases n,
{
    if let NodeModel::Split { first, second, .. } = n {
        lemma_shape_height(*first);
        lemma_shape_height(*second);
    }
}

/// Turn a builder holding a layout of shape `s` into a tree.
fn finish_shaped(b: LayoutBuilder, Ghost(s): Ghost<NodeModel>) -> (r: Result<LayoutTree, BuilderError>)
    requires
        holds_shape(b, s),
        height(s) < MAX_TREE_DEPTH,
    ensures
        r matches Ok(t) && layout_with_shape(t@, s),
{
    proof {
        lemma_shape_height(b.built().unwrap());
    }
    finish_tree(b, Ghost(s))
}

/// The shape of the split view layout.
pub open spec fn split_view_shape() -> NodeModel {
    split_shape(
        SplitDirection::Horizontal,
        500,
        split_shape(
            SplitDirection::Vertical,
            700,
            zone1("left_main"@, "flow_panel"@),
            zone1("left_bottom"@, "table_tabs_panel"@),
        ),
        split_shape(
            SplitDirection::Vertical,
            700,
            zone1("right_main"@, "flow_panel_secondary"@),
            zone1("right_bottom"@, "table_tabs_panel_secondary"@),
        ),
    )
}

/// Split view: two equal columns, each with a main zone over a bottom zone.
pub fn build_split_layout() -> (r: Result<LayoutTree, BuilderError>)
    ensures
        r matches Ok(t) && layout_with_shape(t@, split_view_shape()),
{
    let left = pair(
        true,
        700,
        one_panel_zone("left_main", "flow_panel"),
        one_panel_zone("left_bottom", "table_tabs_panel"),
    );
    let right = pair(
        true,
        700,
        one_panel_zone("right_main", "flow_panel_secondary"),
        one_panel_zone("right_bottom", "table_tabs_panel_secondary"),
    );
    let top = pair(false, 500, left, right);
    proof {
        reveal_with_fuel(height, 3);
    }
    finish_shaped(top, Ghost(split_view_shape()))
}

/// The shape of the debug layout.
pub open spec fn debug_shape() -> NodeModel {
    split_shape(
        SplitDirection::Horizontal,
        250,
        split_shape(
            SplitDirection::Vertical,
            330,
            zone1("debug_nodes"@, "nodes_panel"@),
            split_shape(
                SplitDirection::Vertical,
                500,
                zone1("debug_validation"@, "validation_results_panel"@),
                zone1("debug_errors"@, "error_panel"@),
            ),
        ),
        split_shape(
            SplitDirection::Horizontal,
            660,
            split_shape(
                SplitDirection::Vertical,
                600,
                zone1("debug_flow"@, "flow_panel"@),
                zone1("debug_data"@, "table_tabs_panel"@),
            ),
            zone1m("debug_inspector"@, "node_configuration_panel"@, "debug_mode"@, "true"@),
        ),
    )
}

/// Debug layout: many panels for inspecting a flow.
pub fn build_debug_layout() -> (r: Result<LayoutTree, BuilderError>)
    ensures
        r matches Ok(t) && layout_with_shape(t@, debug_shape()),
{
    let checks = pair(
        true,
        500,
        one_panel_zone("debug_validation", "validation_results_panel"),
        one_panel_zone("debug_errors", "error_panel"),
    );
    let left = pair(true, 330, one_panel_zone("debug_nodes", "nodes_panel"), checks);
    let center = pair(
        true,
        600,
        one_panel_zone("debug_flow", "flow_panel"),
        one_panel_zone("debug_data", "table_tabs_panel"),
    );
    let right = pair(
        false,
        660,
        center,
        tagged_zone("debug_inspector", "node_configuration_panel", "debug_mode", "true"),
    );
    let top = pair(false, 250, left, right);
    proof {
        reveal_with_fuel(height, 4);
    }
    finish_shaped(top, Ghost(debug_shape()))
}

/// The center zone of the default layout.
pub open spec fn center_zone() -> NodeModel {
    zone_node(
        "center"@,
        seq!["main_content"@, "flow_view"@],
        Some("main_content"@),
        seq![("legacy_name"@, "center"@)],
    )
}

/// The shape of the default layout: a menu bar over a left sidebar, the
/// center and a right sidebar.
pub open spec fn default_shape() -> NodeModel {
    split_shape(
        SplitDirection::Vertical,
        100,
        legacy_zone("menu_zone"@, "menu_bar"@),
        split_shape(
            SplitDirection::Horizontal,
            200,
            split_shape(
                SplitDirection::Vertical,
                400,
                legacy_zone("left_top"@, "nodes_panel"@),
                legacy_zone("left_middle"@, "validation_results_panel"@),
            ),
            split_shape(
                SplitDirection::Horizontal,
                700,
                center_zone(),
                split_shape(
                    SplitDirection::Vertical,
                    500,
                    legacy_zone("right_top"@, "transformations_panel"@),
                    legacy_zone("right_middle"@, "validation_rules_panel"@),
                ),
            ),
        ),
    )
}

fn default_center() -> (r: LayoutBuilder)
    ensures
        r.built() == Some(center_zone()),
{
    let z = LayoutBuilder::new().zone("center").add_panel("main_content").add_panel("flow_view");
    proof {
        lemma_meta_set_empty("legacy_name"@, "center"@);
        assert(seq!["main_content"@].push("flow_view"@) =~= seq!["main_content"@, "flow_view"@]);
    }
    z.with_metadata("legacy_name", "center").build()
}


/// The views of a list of panel names.
pub open spec fn str_views(v: Seq<&str>) -> Seq<Seq<char>> {
    v.map_values(|s: &str| s@)
}

/// A zone holding the given panels, the first of them active.
pub open spec fn zone_with(id: Seq<char>, panels: Seq<Seq<char>>) -> NodeModel {
    zone_node(id, panels, if panels.len() > 0 { Some(panels[0]) } else { None }, Seq::empty())
}

/// A builder holding a zone with the given panels.
fn panels_zone(id: &str, panels: &Vec<&str>) -> (r: LayoutBuilder)
    ensures
        r.built() == Some(zone_with(id@, str_views(panels@))),
{
    let mut z = LayoutBuilder::new().zone(id);
    let mut i: usize = 0;
    while i < panels.len()
        invariant
            i <= panels@.len(),
            z.state() == (
                id@,
                str_views(panels@).subrange(0, i as int),
                if i > 0 { Some(str_views(panels@)[0]) } else { None },
                Seq::<(Seq<char>, Seq<char>)>::empty(),
            ),
        decreases panels@.len() - i,
    {
        z = z.add_panel(panels[i]);
        assert(str_views(panels@).subrange(0, i + 1) =~= str_views(panels@).subrange(0, i as int).push(
            panels@[i as int]@,
        ));
        i = i + 1;
    }
    assert(str_views(panels@).subrange(0, i as int) =~= str_views(panels@));
    z.build()
}


/// The ratio a split keeps: clamped to 100..=900 thousandths.
pub open spec fn clamp_ratio(ratio: u32) -> u32 {
    if ratio < 100 {
        100
    } else if ratio > 900 {
        900
    } else {
        ratio
    }
}



impl LayoutBuilder {
    /// The default layout: a thin menu bar over a left sidebar, the center
    /// zone and a right sidebar. The menu bar's ratio is clamped up to 100.
    pub fn default_seaglass_layout() -> (r: Result<LayoutTree, BuilderError>)
        ensures
            r matches Ok(t) && layout_with_shape(t@, default_shape()),
    {
        let left_sidebar = pair(
            true,
            400,
            tagged_zone("left_top", "nodes_panel", "legacy_name", "left_top"),
            tagged_zone("left_middle", "validation_results_panel", "legacy_name", "left_middle"),
        );
        let right_sidebar = pair(
            true,
            500,
            tagged_zone("right_top", "transformations_panel", "legacy_name", "right_top"),
            tagged_zone("right_middle", "validation_rules_panel", "legacy_name", "right_middle"),
        );
        let center_right = pair(false, 700, default_center(), right_sidebar);
        let main_content = pair(false, 200, left_sidebar, center_right);
        let top = pair(
            true,
            20,
            tagged_zone("menu_zone", "menu_bar", "legacy_name", "menu_zone"),
            main_content,
        );
        proof {
            reveal_with_fuel(height, 5);
        }
        finish_shaped(top, Ghost(default_shape()))
    }

    /// A single zone holding the given panels.
    pub fn simple_zone(zone_id: &str, panels: Vec<&str>) -> (r: Result<LayoutTree, BuilderError>)
        ensures
            r matches Ok(t) && layout_with_shape(t@, zone_with(zone_id@, str_views(panels@))),
    {
        let z = panels_zone(zone_id, &panels);
        finish_shaped(z, Ghost(zone_with(zone_id@, str_views(panels@))))
    }

    /// Two columns side by side, the first taking `ratio` thousandths.
    pub fn two_column(
        left_zone: &str,
        left_panels: Vec<&str>,
        right_zone: &str,
        right_panels: Vec<&str>,
        ratio: u32,
    ) -> (r: Result<LayoutTree, BuilderError>)
        ensures
            r matches Ok(t) && layout_with_shape(
                t@,
                split_shape(
                    SplitDirection::Horizontal,
                    clamp_ratio(ratio),
                    zone_with(left_zone@, str_views(left_panels@)),
                    zone_with(right_zone@, str_views(right_panels@)),
                ),
            ),
    {
        let top = pair(false, ratio, panels_zone(left_zone, &left_panels), panels_zone(right_zone, &right_panels));
        proof {
            reveal_with_fuel(height, 2);
        }
        finish_shaped(
            top,
            Ghost(
                split_shape(
                    SplitDirection::Horizontal,
                    clamp_ratio(ratio),
                    zone_with(left_zone@, str_views(left_panels@)),
                    zone_with(right_zone@, str_views(right_panels@)),
                ),
            ),
        )
    }

    /// Three columns: the left one takes 20%, the center 75% of the rest.
    pub fn three_column(
        left_zone: &str,
        left_panels: Vec<&str>,
        center_zone: &str,
        center_panels: Vec<&str>,
        right_zone: &str,
        right_panels: Vec<&str>,
    ) -> (r: Result<LayoutTree, BuilderError>)
        ensures
            r matches Ok(t) && layout_with_shape(
                t@,
                split_shape(
                    SplitDirection::Horizontal,
                    200,
                    zone_with(left_zone@, str_views(left_panels@)),
                    split_shape(
                        SplitDirection::Horizontal,
                        750,
                        zone_with(center_zone@, str_views(center_panels@)),
                        zone_with(right_zone@, str_views(right_panels@)),
                    ),
                ),
            ),
    {
        let inner = pair(false, 750, panels_zone(center_zone, &center_panels), panels_zone(right_zone, &right_panels));
        let top = pair(false, 200, panels_zone(left_zone, &left_panels), inner);
        proof {
            reveal_with_fuel(height, 3);
        }
        finish_shaped(
            top,
            Ghost(
                split_shape(
                    SplitDirection::Horizontal,
                    200,
                    zone_with(left_zone@, str_views(left_panels@)),
                    split_shape(
                        SplitDirection::Horizontal,
                        750,
                        zone_with(center_zone@, str_views(center_panels@)),
                        zone_with(right_zone@, str_views(right_panels@)),
                    ),
                ),
            ),
        )
    }
}

} // verus!
