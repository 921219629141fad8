//! Named, saved docking layouts: a registry of presets, some of them built in
//! (system presets, which cannot be changed or removed).
//!
//! The registry is generic over the layout it stores; timestamps are
//! milliseconds since the Unix epoch.
use vstd::prelude::*;
use crate::node::strs;
use crate::presets::current_timestamp_millis;

verus! {

broadcast use vstd::string::group_string_axioms;

/// Errors that can occur when working with presets.
#[derive(Debug)]
pub enum PresetError {
    PresetNotFound { name: String },
    PresetAlreadyExists { name: String },
    InvalidConfiguration { reason: String },
}

pub ghost enum PresetErrorModel {
    PresetNotFound(Seq<char>),
    PresetAlreadyExists(Seq<char>),
    InvalidConfiguration(Seq<char>),
}

impl View for PresetError {
    type V = PresetErrorModel;

    open spec fn view(&self) -> PresetErrorModel {
        match self {
            PresetError::PresetNotFound { name } => PresetErrorModel::PresetNotFound(name@),
            PresetError::PresetAlreadyExists { name } => PresetErrorModel::PresetAlreadyExists(name@),
            PresetError::InvalidConfiguration { reason } => PresetErrorModel::InvalidConfiguration(reason@),
        }
    }
}

/// The text of a preset error.
pub open spec fn preset_error_message(e: PresetErrorModel) -> Seq<char> {
    match e {
        PresetErrorModel::PresetNotFound(n) => "Preset '"@ + n + "' not found"@,
        PresetErrorModel::PresetAlreadyExists(n) => "Preset '"@ + n + "' already exists"@,
        PresetErrorModel::InvalidConfiguration(r) => "Invalid preset configuration: "@ + r,
    }
}

impl PresetError {
    /// The error's message.
    pub fn message(&self) -> (r: String)
        ensures
            r@ == preset_error_message(self@),
    {
        match self {
            PresetError::PresetNotFound { name } => String::from_str("Preset '").concat(name.as_str()).concat(
                "' not found",
            ),
            PresetError::PresetAlreadyExists { name } => String::from_str("Preset '").concat(
                name.as_str(),
            ).concat("' already exists"),
            PresetError::InvalidConfiguration { reason } => String::from_str(
                "Invalid preset configuration: ",
            ).concat(reason.as_str()),
        }
    }
}

/// Metadata for a preset.
#[derive(Debug, Clone)]
pub struct PresetMetadata {
    /// When the preset was created
    pub created_at: u64,
    /// When the preset was last modified
    pub modified_at: u64,
    /// Version of the preset format
    pub version: String,
    /// Tags for categorizing presets
    pub tags: Vec<String>,
}

impl PresetMetadata {
    /// Metadata of a preset created at `now`, in format version 1.0.0, with no tags.
    pub fn new_with_timestamp(now: u64) -> (r: PresetMetadata)
        ensures
            r.created_at == now,
            r.modified_at == now,
            r.version@ == "1.0.0"@,
            r.tags@.len() == 0,
    {
        PresetMetadata { created_at: now, modified_at: now, version: String::from_str("1.0.0"), tags: Vec::new() }
    }
}

impl Default for PresetMetadata {
    /// Metadata of a preset created now.
    fn default() -> (r: PresetMetadata)
        ensures
            r.created_at == r.modified_at,
            r.version@ == "1.0.0"@,
            r.tags@.len() == 0,
    {
        PresetMetadata::new_with_timestamp(current_timestamp_millis())
    }
}

/// A saved layout preset.
#[derive(Debug, Clone)]
pub struct LayoutPreset<L> {
    /// Unique identifier for the preset
    pub id: String,
    /// Display name for the preset
    pub name: String,
    /// Description of the preset
    pub description: String,
    /// Whether this is a system preset (cannot be changed or deleted)
    pub is_system: bool,
    /// The layout
    pub layout: L,
    /// When the preset was created and changed, and its tags
    pub metadata: PresetMetadata,
}

/// The abstract form of a preset.
pub ghost struct PresetModel<L> {
    pub id: Seq<char>,
    pub name: Seq<char>,
    pub description: Seq<char>,
    pub is_system: bool,
    pub layout: L,
    pub created_at: u64,
    pub modified_at: u64,
    pub version: Seq<char>,
    pub tags: Seq<Seq<char>>,
}

impl<L> View for LayoutPreset<L> {
    type V = PresetModel<L>;

    open spec fn view(&self) -> PresetModel<L> {
        PresetModel {
            id: self.id@,
            name: self.name@,
            description: self.description@,
            is_system: self.is_system,
            layout: self.layout,
            created_at: self.metadata.created_at,
            modified_at: self.metadata.modified_at,
            version: self.metadata.version@,
            tags: strs(self.metadata.tags@),
        }
    }
}

/// The identifiers of a list of presets.
pub open spec fn preset_ids<L>(s: Seq<PresetModel<L>>) -> Seq<Seq<char>> {
    s.map_values(|p: PresetModel<L>| p.id)
}

/// The views of a list of presets.
pub open spec fn preset_views<L>(s: Seq<LayoutPreset<L>>) -> Seq<PresetModel<L>> {
    s.map_values(|p: LayoutPreset<L>| p@)
}

/// A built-in preset created at `now`.
pub open spec fn system_preset<L>(
    id: Seq<char>,
    name: Seq<char>,
    description: Seq<char>,
    layout: L,
    tags: Seq<Seq<char>>,
    now: u64,
) -> PresetModel<L> {
    PresetModel {
        id,
        name,
        description,
        is_system: true,
        layout,
        created_at: now,
        modified_at: now,
        version: "1.0.0"@,
        tags,
    }
}

/// The built-in presets, in order: default, minimal, wide and focus.
pub open spec fn default_presets<L>(default_layout: L, minimal_layout: L, wide_layout: L, focus_layout: L, now: u64) -> Seq<
    PresetModel<L>,
> {
    seq![
        system_preset(
            "default"@,
            "Default Layout"@,
            "The standard Seaglass layout with all panels visible"@,
            default_layout,
            seq!["default"@, "standard"@],
            now,
        ),
        system_preset(
            "minimal"@,
            "Minimal"@,
            "Simplified layout with only essential panels"@,
            minimal_layout,
            seq!["minimal"@, "simple"@],
            now,
        ),
        system_preset(
            "wide"@,
            "Wide Screen"@,
            "Optimized for wide monitors with side-by-side panels"@,
            wide_layout,
            seq!["wide"@, "ultrawide"@],
            now,
        ),
        system_preset(
            "focus"@,
            "Focus Mode"@,
            "Maximum space for data table with hidden sidebars"@,
            focus_layout,
            seq!["focus"@, "data"@],
            now,
        ),
    ]
}

/// Whether a preset carries one of the tags.
pub open spec fn has_any_tag<L>(p: PresetModel<L>, tags: Seq<Seq<char>>) -> bool {
    exists|i: int| 0 <= i < tags.len() && p.tags.contains(#[trigger] tags[i])
}

/// `add_preset`.
pub open spec fn add_spec<L>(s: Seq<PresetModel<L>>, p: PresetModel<L>) -> (Seq<PresetModel<L>>, Result<(), PresetErrorModel>) {
    if preset_ids(s).contains(p.id) {
        (s, Err(PresetErrorModel::PresetAlreadyExists(p.id)))
    } else {
        (s.push(p), Ok(()))
    }
}

/// `update_preset_with_timestamp`.
pub open spec fn update_spec<L>(s: Seq<PresetModel<L>>, id: Seq<char>, layout: L, now: u64) -> (
    Seq<PresetModel<L>>,
    Result<(), PresetErrorModel>,
) {
    match preset_ids(s).index_of_first(id) {
        None => (s, Err(PresetErrorModel::PresetNotFound(id))),
        Some(i) => if s[i].is_system {
            (s, Err(PresetErrorModel::InvalidConfiguration("Cannot modify system presets"@)))
        } else {
            (s.update(i, PresetModel { layout, modified_at: now, ..s[i] }), Ok(()))
        },
    }
}

/// `remove_preset`.
pub open spec fn remove_spec<L>(s: Seq<PresetModel<L>>, id: Seq<char>) -> (Seq<PresetModel<L>>, Result<(), PresetErrorModel>) {
    match preset_ids(s).index_of_first(id) {
        None => (s, Err(PresetErrorModel::PresetNotFound(id))),
        Some(i) => if s[i].is_system {
            (s, Err(PresetErrorModel::InvalidConfiguration("Cannot remove system presets"@)))
        } else {
            (s.remove(i), Ok(()))
        },
    }
}

/// Importing presets: each, made a custom preset, is added unless its
/// identifier is taken; the count is of those added.
pub open spec fn import_spec<L>(s: Seq<PresetModel<L>>, ps: Seq<PresetModel<L>>) -> (Seq<PresetModel<L>>, nat)
    decreases ps.len(),
{
    if ps.len() == 0 {
        (s, 0)
    } else {
        let (s1, n1) = import_spec(s, ps.drop_last());
        let p = PresetModel { is_system: false, ..ps.last() };
        if preset_ids(s1).contains(p.id) {
            (s1, n1)
        } else {
            (s1.push(p), n1 + 1)
        }
    }
}

pub open spec fn unit_result(r: Result<(), PresetError>) -> Result<(), PresetErrorModel> {
    match r {
        Ok(()) => Ok(()),
        Err(e) => Err(e@),
    }
}

/// Registry of layout presets, each under its own identifier.
#[derive(Debug)]
pub struct PresetRegistry<L> {
    presets: Vec<LayoutPreset<L>>,
}

impl<L> View for PresetRegistry<L> {
    type V = Seq<PresetModel<L>>;

    closed spec fn view(&self) -> Seq<PresetModel<L>> {
        preset_views(self.presets@)
    }
}

impl<L> PresetRegistry<L> {
    /// No two presets share an identifier.
    #[verifier::type_invariant]
    closed spec fn ids_distinct(self) -> bool {
        preset_ids(preset_views(self.presets@)).no_duplicates()
    }

    /// Take the presets out, leaving none.
    fn take_presets(&mut self) -> (r: Vec<LayoutPreset<L>>)
        ensures
            r@ == old(self).presets@,
            final(self).presets@.len() == 0,
    {
        let mut v: Vec<LayoutPreset<L>> = Vec::new();
        std::mem::swap(&mut v, &mut self.presets);
        v
    }

    /// An empty registry.
    pub fn new() -> (r: PresetRegistry<L>)
        ensures
            r@.len() == 0,
    {
        let r = PresetRegistry { presets: Vec::new() };
        assert(preset_ids(preset_views(r.presets@)) =~= Seq::<Seq<char>>::empty());
        r
    }

    /// A registry holding the built-in presets over the given layouts,
    /// created at `now`.
    pub fn with_default_presets(default_layout: L, minimal_layout: L, wide_layout: L, focus_layout: L, now: u64) -> (r:
        PresetRegistry<L>)
        ensures
            r@ == default_presets(default_layout, minimal_layout, wide_layout, focus_layout, now),
    {
        let mut presets: Vec<LayoutPreset<L>> = Vec::new();
        presets.push(
            system_preset_of(
                "default",
                "Default Layout",
                "The standard Seaglass layout with all panels visible",
                default_layout,
                "default",
                "standard",
                now,
            ),
        );
        presets.push(
            system_preset_of(
                "minimal",
                "Minimal",
                "Simplified layout with only essential panels",
                minimal_layout,
                "minimal",
                "simple",
                now,
            ),
        );
        presets.push(
            system_preset_of(
                "wide",
                "Wide Screen",
                "Optimized for wide monitors with side-by-side panels",
                wide_layout,
                "wide",
                "ultrawide",
                now,
            ),
        );
        presets.push(
            system_preset_of(
                "focus",
                "Focus Mode",
                "Maximum space for data table with hidden sidebars",
                focus_layout,
                "focus",
                "data",
                now,
            ),
        );
        let ghost v = preset_views(presets@);
        assert(v =~= default_presets(default_layout, minimal_layout, wide_layout, focus_layout, now));
        proof {
            reveal_strlit("default");
            reveal_strlit("minimal");
            reveal_strlit("wide");
            reveal_strlit("focus");
            let ids = preset_ids(v);
            assert(ids[0] == "default"@ && ids[1] == "minimal"@ && ids[2] == "wide"@ && ids[3] == "focus"@);
            assert(ids[0][0] != ids[1][0] && ids[0][0] != ids[2][0] && ids[0][0] != ids[3][0]);
            assert(ids[1][0] != ids[2][0] && ids[1][0] != ids[3][0] && ids[2][0] != ids[3][0]);
            assert(ids[0] != ids[1] && ids[0] != ids[2] && ids[0] != ids[3]);
            assert(ids[1] != ids[2] && ids[1] != ids[3] && ids[2] != ids[3]);
            assert(ids.no_duplicates());
        }
        PresetRegistry { presets }
    }

    /// Position of the preset with an identifier.
    fn index_of(&self, id: &str) -> (r: Option<usize>)
        ensures
            match r {
                Some(i) => preset_ids(self@).index_of_first(id@) == Some(i as int) && i < self@.len(),
                None => preset_ids(self@).index_of_first(id@) is None,
            },
    {
        let ghost ids = preset_ids(self@);
        let key = id.to_string();
        let mut i: usize = 0;
        while i < self.presets.len()
            invariant
                i <= self.presets@.len(),
                ids == preset_ids(preset_views(self.presets@)),
                ids.len() == self.presets@.len(),
                forall|j: int| 0 <= j < i ==> ids[j] != key@,
                key@ == id@,
            decreases self.presets@.len() - i,
        {
            assert(ids[i as int] == self.presets@[i as int].id@);
            if self.presets[i].id == key {
                proof {
                    ids.index_of_first_ensures(id@);
                }
                return Some(i);
            }
            i = i + 1;
        }
        proof {
            ids.index_of_first_ensures(id@);
        }
        None
    }

    /// The preset with an identifier.
    pub fn get(&self, id: &str) -> (r: Option<&LayoutPreset<L>>)
        ensures
            match preset_ids(self@).index_of_first(id@) {
                Some(i) => r matches Some(p) && p@ == self@[i],
                None => r is None,
            },
    {
        match self.index_of(id) {
            Some(i) => Some(&self.presets[i]),
            None => None,
        }
    }

    /// All presets.
    pub fn list(&self) -> (r: Vec<&LayoutPreset<L>>)
        ensures
            r@.map_values(|p: &LayoutPreset<L>| p@) == self@,
    {
        let mut out: Vec<&LayoutPreset<L>> = Vec::new();
        let mut i: usize = 0;
        while i < self.presets.len()
            invariant
                i <= self.presets@.len(),
                out@.map_values(|p: &LayoutPreset<L>| p@) == self@.subrange(0, i as int),
            decreases self.presets@.len() - i,
        {
            let ghost before = out@;
            out.push(&self.presets[i]);
            assert(self@[i as int] == self.presets@[i as int]@);
            assert(self@.subrange(0, i + 1) =~= self@.subrange(0, i as int).push(self@[i as int]));
            assert(out@.map_values(|p: &LayoutPreset<L>| p@) =~= before.map_values(|p: &LayoutPreset<L>| p@).push(
                self@[i as int],
            ));
            i = i + 1;
        }
        assert(self@.subrange(0, i as int) =~= self@);
        out
    }

    /// The presets carrying at least one of the tags.
    pub fn list_by_tags(&self, tags: &[String]) -> (r: Vec<&LayoutPreset<L>>)
        ensures
            r@.map_values(|p: &LayoutPreset<L>| p@) == self@.filter(|p: PresetModel<L>| has_any_tag(p, strs(tags@))),
    {
        let ghost tv = strs(tags@);
        let ghost f = |p: PresetModel<L>| has_any_tag(p, tv);
        let mut out: Vec<&LayoutPreset<L>> = Vec::new();
        let mut i: usize = 0;
        proof {
            reveal(Seq::filter);
        }
        assert(self@.subrange(0, 0).filter(f) =~= Seq::<PresetModel<L>>::empty());
        while i < self.presets.len()
            invariant
                i <= self.presets@.len(),
                tv == strs(tags@),
                f == (|p: PresetModel<L>| has_any_tag(p, tv)),
                out@.map_values(|p: &LayoutPreset<L>| p@) == self@.subrange(0, i as int).filter(f),
            decreases self.presets@.len() - i,
        {
            let ghost before = out@;
            let p = &self.presets[i];
            let hit = carries_any(&p.metadata.tags, tags);
            assert(self@.subrange(0, i + 1).drop_last() =~= self@.subrange(0, i as int));
            assert(self@[i as int] == p@);
            proof {
                reveal(Seq::filter);
            }
            if hit {
                out.push(p);
                assert(out@.map_values(|q: &LayoutPreset<L>| q@) =~= before.map_values(
                    |q: &LayoutPreset<L>| q@,
                ).push(p@));
            }
            i = i + 1;
        }
        assert(self@.subrange(0, i as int) =~= self@);
        out
    }

    /// Add a preset under its identifier, unless one is there.
    pub fn add_preset(&mut self, preset: LayoutPreset<L>) -> (r: Result<(), PresetError>)
        ensures
            (final(self)@, unit_result(r)) == add_spec(old(self)@, preset@),
    {
        match self.index_of(preset.id.as_str()) {
            Some(_) => {
                proof {
                    preset_ids(self@).index_of_first_ensures(preset@.id);
                }
                return Err(PresetError::PresetAlreadyExists { name: preset.id.clone() });
            },
            None => {},
        }
        proof {
            preset_ids(self@).index_of_first_ensures(preset@.id);
            use_type_invariant(&*self);
        }
        let ghost before = self@;
        let ghost pv = preset@;
        proof {
            assert(preset_ids(before.push(pv)) =~= preset_ids(before).push(pv.id));
            crate::integration::lemma_push_no_duplicates(preset_ids(before), pv.id);
        }
        let mut v = self.take_presets();
        v.push(preset);
        assert(preset_views(v@) =~= before.push(pv));
        self.presets = v;
        Ok(())
    }

    /// Give a custom preset a new layout, changed at `now`.
    pub fn update_preset_with_timestamp(&mut self, id: &str, layout: L, now: u64) -> (r: Result<(), PresetError>)
        ensures
            (final(self)@, unit_result(r)) == update_spec(old(self)@, id@, layout, now),
    {
        let i = match self.index_of(id) {
            Some(i) => i,
            None => {
                return Err(PresetError::PresetNotFound { name: id.to_string() });
            },
        };
        if self.presets[i].is_system {
            return Err(PresetError::InvalidConfiguration { reason: String::from_str("Cannot modify system presets") });
        }
        proof {
            use_type_invariant(&*self);
        }
        let ghost before = self@;
        let ghost lv = layout;
        let mut v = self.take_presets();
        let mut p = v.remove(i);
        p.layout = layout;
        p.metadata.modified_at = now;
        let ghost pv = p@;
        assert(pv == PresetModel { layout: lv, modified_at: now, ..before[i as int] });
        proof {
            assert(preset_ids(before.update(i as int, pv)) =~= preset_ids(before));
        }
        v.insert(i, p);
        assert(preset_views(v@) =~= before.update(i as int, pv));
        self.presets = v;
        Ok(())
    }

    /// Give a custom preset a new layout, changed now.
    pub fn update_preset(&mut self, id: &str, layout: L) -> (r: Result<(), PresetError>)
        ensures
            exists|now: u64| (final(self)@, unit_result(r)) == #[trigger] update_spec(old(self)@, id@, layout, now),
    {
        let now = current_timestamp_millis();
        self.update_preset_with_timestamp(id, layout, now)
    }

    /// Remove a custom preset.
    pub fn remove_preset(&mut self, id: &str) -> (r: Result<(), PresetError>)
        ensures
            (final(self)@, unit_result(r)) == remove_spec(old(self)@, id@),
    {
        let i = match self.index_of(id) {
            Some(i) => i,
            None => {
                return Err(PresetError::PresetNotFound { name: id.to_string() });
            },
        };
        if self.presets[i].is_system {
            return Err(PresetError::InvalidConfiguration { reason: String::from_str("Cannot remove system presets") });
        }
        proof {
            use_type_invariant(&*self);
        }
        let ghost before = self@;
        proof {
            assert(preset_ids(before.remove(i as int)) =~= preset_ids(before).remove(i as int));
            crate::integration::lemma_remove_no_duplicates(preset_ids(before), i as int);
        }
        let mut v = self.take_presets();
        v.remove(i);
        assert(preset_views(v@) =~= before.remove(i as int));
        self.presets = v;
        Ok(())
    }

    /// The custom presets, for export.
    pub fn custom_presets(&self) -> (r: Vec<&LayoutPreset<L>>)
        ensures
            r@.map_values(|p: &LayoutPreset<L>| p@) == self@.filter(|p: PresetModel<L>| !p.is_system),
    {
        let ghost f = |p: PresetModel<L>| !p.is_system;
        let mut out: Vec<&LayoutPreset<L>> = Vec::new();
        let mut i: usize = 0;
        proof {
            reveal(Seq::filter);
        }
        assert(self@.subrange(0, 0).filter(f) =~= Seq::<PresetModel<L>>::empty());
        while i < self.presets.len()
            invariant
                i <= self.presets@.len(),
                f == (|p: PresetModel<L>| !p.is_system),
                out@.map_values(|p: &LayoutPreset<L>| p@) == self@.subrange(0, i as int).filter(f),
            decreases self.presets@.len() - i,
        {
            let ghost before = out@;
            let p = &self.presets[i];
            assert(self@.subrange(0, i + 1).drop_last() =~= self@.subrange(0, i as int));
            assert(self@[i as int] == p@);
            proof {
                reveal(Seq::filter);
            }
            if !p.is_system {
                out.push(p);
                assert(out@.map_values(|q: &LayoutPreset<L>| q@) =~= before.map_values(
                    |q: &LayoutPreset<L>| q@,
                ).push(p@));
            }
            i = i + 1;
        }
        assert(self@.subrange(0, i as int) =~= self@);
        out
    }

    /// Add each of the presets as a custom preset, unless its identifier is
    /// taken; the number added.
    pub fn import_presets(&mut self, imported: Vec<LayoutPreset<L>>) -> (r: usize)
        ensures
            (final(self)@, r as nat) == import_spec(old(self)@, preset_views(imported@)),
    {
        let ghost s0 = self@;
        let ghost ps = preset_views(imported@);
        let n = imported.len();
        assert(ps.len() == n);
        let mut rest = imported;
        let mut count: usize = 0;
        let mut i: usize = 0;
        assert(ps.subrange(0, 0) =~= Seq::<PresetModel<L>>::empty());
        while rest.len() > 0
            invariant
                i + rest@.len() == ps.len(),
                ps.len() <= usize::MAX,
                preset_views(rest@) == ps.subrange(i as int, ps.len() as int),
                (self@, count as nat) == import_spec(s0, ps.subrange(0, i as int)),
                count <= i,
            decreases rest@.len(),
        {
            let ghost r0 = rest@;
            assert(preset_views(r0)[0] == ps[i as int]);
            let mut p = rest.remove(0);
            assert(p@ == ps[i as int]);
            assert(preset_views(rest@) =~= preset_views(r0).subrange(1, r0.len() as int));
            assert(preset_views(rest@) =~= ps.subrange(i + 1, ps.len() as int));
            assert(ps.subrange(0, i + 1).drop_last() =~= ps.subrange(0, i as int));
            p.is_system = false;
            let taken = match self.index_of(p.id.as_str()) {
                Some(_) => true,
                None => false,
            };
            proof {
                preset_ids(self@).index_of_first_ensures(p@.id);
            }
            if !taken {
                proof {
                    use_type_invariant(&*self);
                }
                let ghost before = self@;
                let ghost pv = p@;
                proof {
                    assert(preset_ids(before.push(pv)) =~= preset_ids(before).push(pv.id));
                    crate::integration::lemma_push_no_duplicates(preset_ids(before), pv.id);
                }
                let mut v = self.take_presets();
                v.push(p);
                assert(preset_views(v@) =~= before.push(pv));
                self.presets = v;
                count = count + 1;
            }
            i = i + 1;
        }
        assert(ps.subrange(0, i as int) =~= ps);
        count
    }
}

/// A built-in preset with two tags.
fn system_preset_of<L>(
    id: &str,
    name: &str,
    description: &str,
    layout: L,
    tag1: &str,
    tag2: &str,
    now: u64,
) -> (r: LayoutPreset<L>)
    ensures
        r@ == system_preset(id@, name@, description@, layout, seq![tag1@, tag2@], now),
{
    let mut metadata = PresetMetadata::new_with_timestamp(now);
    metadata.tags.push(tag1.to_string());
    metadata.tags.push(tag2.to_string());
    assert(strs(metadata.tags@) =~= seq![tag1@, tag2@]);
    LayoutPreset {
        id: id.to_string(),
        name: name.to_string(),
        description: description.to_string(),
        is_system: true,
        layout,
        metadata,
    }
}

/// Whether `have` holds one of `wanted`.
fn carries_any(have: &Vec<String>, wanted: &[String]) -> (r: bool)
    ensures
        r == exists|i: int| 0 <= i < wanted@.len() && strs(have@).contains(#[trigger] strs(wanted@)[i]),
{
    let mut i: usize = 0;
    while i < wanted.len()
        invariant
            i <= wanted@.len(),
            forall|j: int| 0 <= j < i ==> !strs(have@).contains(#[trigger] strs(wanted@)[j]),
        decreases wanted@.len() - i,
    {
        assert(strs(wanted@)[i as int] == wanted@[i as int]@);
        if crate::node::contains_string(have, &wanted[i]) {
            return true;
        }
        i = i + 1;
    }
    false
}


/// A preset that was added is what a lookup of its identifier finds.
pub proof fn law_add_then_get<L>(s: Seq<PresetModel<L>>, p: PresetModel<L>)
    requires
        add_spec(s, p).1 is Ok,
    ensures
        preset_ids(add_spec(s, p).0).index_of_first(p.id) == Some(s.len() as int),
        add_spec(s, p).0[s.len() as int] == p,
{
    let t = s.push(p);
    assert(preset_ids(t) =~= preset_ids(s).push(p.id));
    preset_ids(s).index_of_first_ensures(p.id);
    preset_ids(t).index_of_first_ensures(p.id);
    assert(preset_ids(t)[s.len() as int] == p.id);
    if let Some(j) = preset_ids(t).index_of_first(p.id) {
        if j < s.len() {
            assert(preset_ids(s)[j] == p.id);
        }
    }
}

/// Removing a custom preset that was just added gives the registry back.
pub proof fn law_remove_undoes_add<L>(s: Seq<PresetModel<L>>, p: PresetModel<L>)
    requires
        add_spec(s, p).1 is Ok,
        !p.is_system,
    ensures
        remove_spec(add_spec(s, p).0, p.id) == (s, Ok::<(), PresetErrorModel>(())),
{
    law_add_then_get(s, p);
    assert(s.push(p).remove(s.len() as int) =~= s);
}

/// A system preset can be neither changed nor removed, and the attempt
/// leaves the registry as it was.
pub proof fn law_system_presets_protected<L>(s: Seq<PresetModel<L>>, i: int, layout: L, now: u64)
    requires
        0 <= i < s.len(),
        s[i].is_system,
        preset_ids(s).no_duplicates(),
    ensures
        remove_spec(s, s[i].id) == (s, Err::<(), PresetErrorModel>(
            PresetErrorModel::InvalidConfiguration("Cannot remove system presets"@),
        )),
        update_spec(s, s[i].id, layout, now) == (s, Err::<(), PresetErrorModel>(
            PresetErrorModel::InvalidConfiguration("Cannot modify system presets"@),
        )),
{
    let ids = preset_ids(s);
    assert(ids[i] == s[i].id);
    ids.index_of_first_ensures(s[i].id);
    let j = ids.index_of_first(s[i].id).unwrap();
    assert(j == i) by {
        if j != i {
            assert(ids[j] == ids[i]);
        }
    }
}

/// Imported presets are never system presets, and the count is of those
/// that were added.
pub proof fn law_import_adds_custom<L>(s: Seq<PresetModel<L>>, ps: Seq<PresetModel<L>>)
    ensures
        import_spec(s, ps).0.len() == s.len() + import_spec(s, ps).1,
        import_spec(s, ps).0.subrange(0, s.len() as int) == s,
        forall|k: int|
            s.len() <= k < import_spec(s, ps).0.len() ==> !(#[trigger] import_spec(s, ps).0[k]).is_system,
    decreases ps.len(),
{
    if ps.len() == 0 {
        assert(s.subrange(0, s.len() as int) =~= s);
    } else {
        law_import_adds_custom(s, ps.drop_last());
        let (s1, n1) = import_spec(s, ps.drop_last());
        assert(s1.push(PresetModel { is_system: false, ..ps.last() }).subrange(0, s.len() as int) =~= s1.subrange(
            0,
            s.len() as int,
        ));
    }
}

} // verus!
