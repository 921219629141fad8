use vstd::prelude::*;

verus! {

broadcast use vstd::string::group_string_axioms;

/// The character sequences of a sequence of strings.
pub open spec fn strs(v: Seq<String>) -> Seq<Seq<char>> {
    v.map_values(|s: String| s@)
}

/// Position of the first occurrence of `s` in `v`.
pub fn position_of(v: &Vec<String>, s: &String) -> (r: Option<usize>)
    ensures
        match r {
            Some(i) => i < v@.len() && strs(v@).index_of_first(s@) == Some(i as int),
            None => strs(v@).index_of_first(s@) == None::<int>,
        },
{
    let mut i: usize = 0;
    while i < v.len()
        invariant
            i <= v.len(),
            forall|j: int| 0 <= j < i ==> strs(v@)[j] != s@,
        decreases v.len() - i,
    {
        assert(strs(v@)[i as int] == v@[i as int]@);
        if v[i] == *s {
            proof {
                assert(strs(v@)[i as int] == s@);
                strs(v@).index_of_first_ensures(s@);
            }
            return Some(i);
        }
        i = i + 1;
    }
    proof {
        strs(v@).index_of_first_ensures(s@);
    }
    None
}

/// Whether `v` holds `s`.
pub fn contains_string(v: &Vec<String>, s: &String) -> (r: bool)
    ensures
        r == strs(v@).contains(s@),
{
    proof {
        strs(v@).index_of_first_ensures(s@);
    }
    position_of(v, s).is_some()
}

/// Unique identifier for a node in the layout tree.
#[derive(Debug, Clone, PartialEq, Eq, Hash)]
pub struct NodeId(pub String);

impl View for NodeId {
    type V = Seq<char>;

    open spec fn view(&self) -> Seq<char> {
        self.0@
    }
}

impl NodeId {
    /// A fresh random identifier (a version 4 UUID in its hyphenated form).
    ///
    /// Calls `uuid::Uuid::new_v4` and writes it with `to_string`; the contract
    /// claims only the length of the hyphenated form, 36 characters, since the
    /// value itself is random.
    #[verifier::external_body]
    pub fn new() -> (r: NodeId)
        ensures
            r@.len() == 36,
    {
        NodeId(uuid::Uuid::new_v4().to_string())
    }

    /// An identifier with the given text.
    pub fn from_string(id: &str) -> (r: NodeId)
        ensures
            r@ == id@,
    {
        NodeId(id.to_string())
    }

    /// A copy of this identifier.
    pub fn copy(&self) -> (r: NodeId)
        ensures
            r == *self,
            r@ == self@,
    {
        NodeId(self.0.clone())
    }

    /// Whether two identifiers have the same text.
    pub fn same(&self, other: &NodeId) -> (r: bool)
        ensures
            r == (self@ == other@),
    {
        self.0 == other.0
    }

    /// The identifier's text.
    pub fn text(&self) -> (r: String)
        ensures
            r@ == self@,
    {
        self.0.clone()
    }
}

/// Path to a node in the tree: the child index taken at each level.
#[derive(Debug, Clone, PartialEq, Eq)]
pub struct NodePath(pub Vec<usize>);

impl View for NodePath {
    type V = Seq<usize>;

    open spec fn view(&self) -> Seq<usize> {
        self.0@
    }
}

impl NodePath {
    /// The empty path, naming the root.
    pub fn root() -> (r: NodePath)
        ensures
            r@ == Seq::<usize>::empty(),
    {
        NodePath(Vec::new())
    }

    /// This path extended by one child index.
    pub fn child(&self, index: usize) -> (r: NodePath)
        ensures
            r@ == self@.push(index),
    {
        let mut path = self.copy();
        path.0.push(index);
        path
    }

    /// The path without its last index; `None` for the root.
    pub fn parent(&self) -> (r: Option<NodePath>)
        ensures
            self@.len() == 0 ==> r is None,
            self@.len() > 0 ==> (r matches Some(p) && p@ == self@.drop_last()),
    {
        if self.0.len() == 0 {
            None
        } else {
            let mut path = self.copy();
            path.0.pop();
            Some(path)
        }
    }

    /// A copy of this path.
    pub fn copy(&self) -> (r: NodePath)
        ensures
            r@ == self@,
    {
        let mut v: Vec<usize> = Vec::new();
        let mut i: usize = 0;
        while i < self.0.len()
            invariant
                i <= self@.len(),
                v@ == self@.subrange(0, i as int),
            decreases self@.len() - i,
        {
            v.push(self.0[i]);
            i = i + 1;
        }
        NodePath(v)
    }

    /// Whether two paths are equal.
    pub fn same(&self, other: &NodePath) -> (r: bool)
        ensures
            r == (self@ == other@),
    {
        if self.0.len() != other.0.len() {
            return false;
        }
        let mut i: usize = 0;
        while i < self.0.len()
            invariant
                i <= self@.len(),
                self@.len() == other@.len(),
                forall|j: int| 0 <= j < i ==> self@[j] == other@[j],
            decreases self@.len() - i,
        {
            if self.0[i] != other.0[i] {
                return false;
            }
            i = i + 1;
        }
        assert(self@ =~= other@);
        true
    }

    /// The last index of a non-empty path.
    pub fn last(&self) -> (r: Option<usize>)
        ensures
            self@.len() == 0 ==> r is None,
            self@.len() > 0 ==> r == Some(self@.last()),
    {
        if self.0.len() == 0 {
            None
        } else {
            Some(self.0[self.0.len() - 1])
        }
    }
}

/// Direction for splitting a zone.
#[derive(Debug, Clone, Copy, PartialEq, Eq)]
pub enum SplitDirection {
    /// Left/right split.
    Horizontal,
    /// Top/bottom split.
    Vertical,
}

/// Layout strategy for container nodes.
#[derive(Debug, Clone, Copy, PartialEq, Eq)]
pub enum ContainerLayout {
    /// Only one child visible at a time.
    Tabs,
    /// All children stacked in one direction.
    Stack,
    /// Grid with the given number of columns.
    Grid(u32),
}

/// The abstract content of a zone.
#[verifier::ext_equal]
pub ghost struct ContentModel {
    pub panels: Seq<Seq<char>>,
    pub active: Option<Seq<char>>,
    pub metadata: Seq<(Seq<char>, Seq<char>)>,
}

/// Content within a zone.
#[derive(Debug, Clone, PartialEq)]
pub struct ZoneContent {
    /// Panels in this zone.
    pub panels: Vec<String>,
    /// Currently active panel.
    pub active_panel: Option<String>,
    /// Zone-specific metadata, as key/value pairs.
    pub metadata: Vec<(String, String)>,
}

pub open spec fn opt_str(o: Option<String>) -> Option<Seq<char>> {
    match o {
        Some(s) => Some(s@),
        None => None,
    }
}

pub open spec fn pairs(v: Seq<(String, String)>) -> Seq<(Seq<char>, Seq<char>)> {
    v.map_values(|p: (String, String)| (p.0@, p.1@))
}

impl View for ZoneContent {
    type V = ContentModel;

    open spec fn view(&self) -> ContentModel {
        ContentModel {
            panels: strs(self.panels@),
            active: opt_str(self.active_panel),
            metadata: pairs(self.metadata@),
        }
    }
}

/// Content with no panels, no active panel and no metadata.
pub open spec fn empty_content() -> ContentModel {
    ContentModel { panels: Seq::empty(), active: None, metadata: Seq::empty() }
}

/// `add_panel`: append a panel that is not yet present; it becomes active if none is.
pub open spec fn content_add(c: ContentModel, p: Seq<char>) -> ContentModel {
    if c.panels.contains(p) {
        c
    } else {
        ContentModel {
            panels: c.panels.push(p),
            active: if c.active is None { Some(p) } else { c.active },
            metadata: c.metadata,
        }
    }
}

/// The panels with the first occurrence of `p` removed, if any.
pub open spec fn without_first(s: Seq<Seq<char>>, p: Seq<char>) -> Seq<Seq<char>> {
    match s.index_of_first(p) {
        Some(i) => s.remove(i),
        None => s,
    }
}

/// `insert_panel_at`: move or insert a panel to position `min(index, len)`.
pub open spec fn content_insert_at(c: ContentModel, p: Seq<char>, index: nat) -> ContentModel {
    let base = without_first(c.panels, p);
    let k = if index <= base.len() { index as int } else { base.len() as int };
    ContentModel {
        panels: base.insert(k, p),
        active: if c.active is None { Some(p) } else { c.active },
        metadata: c.metadata,
    }
}

/// `remove_panel`: drop the first occurrence; an active removed panel hands over to the new first.
pub open spec fn content_remove(c: ContentModel, p: Seq<char>) -> ContentModel {
    if c.panels.contains(p) {
        let rest = without_first(c.panels, p);
        ContentModel {
            panels: rest,
            active: if c.active == Some(p) {
                if rest.len() > 0 { Some(rest[0]) } else { None }
            } else {
                c.active
            },
            metadata: c.metadata,
        }
    } else {
        c
    }
}

/// `set_active_panel`: select a present panel, or clear the selection.
pub open spec fn content_set_active(c: ContentModel, p: Option<Seq<char>>) -> ContentModel {
    match p {
        Some(id) => if c.panels.contains(id) {
            ContentModel { active: Some(id), ..c }
        } else {
            c
        },
        None => ContentModel { active: None, ..c },
    }
}

impl ZoneContent {
    /// New empty zone content.
    pub fn new() -> (r: ZoneContent)
        ensures
            r@ == empty_content(),
    {
        let r = ZoneContent { panels: Vec::new(), active_panel: None, metadata: Vec::new() };
        assert(r@ =~= empty_content());
        r
    }

    /// Add a panel to the zone (appends to end).
    pub fn add_panel(&mut self, panel_id: String)
        ensures
            final(self)@ == content_add(old(self)@, panel_id@),
    {
        if !contains_string(&self.panels, &panel_id) {
            let ghost old_panels = self.panels@;
            self.panels.push(panel_id.clone());
            assert(strs(self.panels@) =~= strs(old_panels).push(panel_id@));
            if self.active_panel.is_none() {
                self.active_panel = Some(panel_id);
            }
        }
    }

    /// Insert a panel at a specific index (clamped to the end); an existing
    /// occurrence is moved there.
    pub fn insert_panel_at(&mut self, panel_id: String, index: u32)
        ensures
            final(self)@ == content_insert_at(old(self)@, panel_id@, index as nat),
    {
        let ghost c0 = self@;
        let pos = position_of(&self.panels, &panel_id);
        if let Some(p) = pos {
            let ghost before = self.panels@;
            self.panels.remove(p);
            assert(strs(self.panels@) =~= strs(before).remove(p as int));
        }
        assert(strs(self.panels@) =~= without_first(c0.panels, panel_id@));
        let index_usize = index as usize;
        let insert_idx = if index_usize <= self.panels.len() {
            index_usize
        } else {
            self.panels.len()
        };
        let ghost before = self.panels@;
        self.panels.insert(insert_idx, panel_id.clone());
        assert(strs(self.panels@) =~= strs(before).insert(insert_idx as int, panel_id@));
        if self.active_panel.is_none() {
            self.active_panel = Some(panel_id);
        }
    }

    /// Remove a panel from the zone; whether it was present.
    pub fn remove_panel(&mut self, panel_id: &str) -> (r: bool)
        ensures
            r == old(self)@.panels.contains(panel_id@),
            final(self)@ == content_remove(old(self)@, panel_id@),
    {
        let id = panel_id.to_string();
        let ghost c0 = self@;
        proof {
            c0.panels.index_of_first_ensures(id@);
        }
        match position_of(&self.panels, &id) {
            Some(pos) => {
                let ghost before = self.panels@;
                self.panels.remove(pos);
                assert(strs(self.panels@) =~= strs(before).remove(pos as int));
                let is_active = match &self.active_panel {
                    Some(a) => *a == id,
                    None => false,
                };
                if is_active {
                    if self.panels.len() > 0 {
                        self.active_panel = Some(self.panels[0].clone());
                    } else {
                        self.active_panel = None;
                    }
                }
                true
            },
            None => false,
        }
    }

    /// Set the active panel: a panel id that is in the zone, or `None` to clear.
    pub fn set_active_panel(&mut self, panel_id: Option<String>)
        ensures
            final(self)@ == content_set_active(old(self)@, opt_str(panel_id)),
    {
        match panel_id {
            Some(id) => {
                if contains_string(&self.panels, &id) {
                    self.active_panel = Some(id);
                }
            },
            None => {
                self.active_panel = None;
            },
        }
    }
}

impl ZoneContent {
    /// A copy of this content.
    pub fn copy(&self) -> (r: ZoneContent)
        ensures
            r@ == self@,
    {
        let mut panels: Vec<String> = Vec::new();
        let mut i: usize = 0;
        while i < self.panels.len()
            invariant
                i <= self.panels@.len(),
                strs(panels@) == strs(self.panels@).subrange(0, i as int),
            decreases self.panels@.len() - i,
        {
            let ghost before = panels@;
            panels.push(self.panels[i].clone());
            assert(strs(panels@) =~= strs(before).push(self.panels@[i as int]@));
            assert(strs(self.panels@).subrange(0, i + 1) =~= strs(self.panels@).subrange(0, i as int).push(self.panels@[i as int]@));
            i = i + 1;
        }
        assert(strs(self.panels@).subrange(0, i as int) =~= strs(self.panels@));
        let mut metadata: Vec<(String, String)> = Vec::new();
        let mut j: usize = 0;
        while j < self.metadata.len()
            invariant
                j <= self.metadata@.len(),
                pairs(metadata@) == pairs(self.metadata@).subrange(0, j as int),
            decreases self.metadata@.len() - j,
        {
            let ghost before = metadata@;
            let e = (self.metadata[j].0.clone(), self.metadata[j].1.clone());
            metadata.push(e);
            assert(pairs(metadata@) =~= pairs(before).push((self.metadata@[j as int].0@, self.metadata@[j as int].1@)));
            assert(pairs(self.metadata@).subrange(0, j + 1) =~= pairs(self.metadata@).subrange(0, j as int).push((self.metadata@[j as int].0@, self.metadata@[j as int].1@)));
            j = j + 1;
        }
        assert(pairs(self.metadata@).subrange(0, j as int) =~= pairs(self.metadata@));
        let active_panel = match &self.active_panel {
            Some(a) => Some(a.clone()),
            None => None,
        };
        let r = ZoneContent { panels, active_panel, metadata };
        assert(r@ =~= self@);
        r
    }
}

impl Default for ZoneContent {
    fn default() -> (r: ZoneContent)
        ensures
            r@ == empty_content(),
    {
        ZoneContent::new()
    }
}

} // verus!
