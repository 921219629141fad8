//! Dock zones, the panels docked in them, and the docking layout that moves
//! panels between zones and in and out of floating.
use vstd::prelude::*;
use crate::node::{contains_string, opt_str, position_of, strs, without_first};

verus! {

broadcast use vstd::string::group_string_axioms;

/// Where a panel stands.
#[derive(Debug, Clone, PartialEq)]
pub enum PanelState {
    Docked { zone_id: String },
    Floating,
    Hidden,
}

impl Default for PanelState {
    fn default() -> (r: PanelState)
        ensures
            r == PanelState::Hidden,
    {
        PanelState::Hidden
    }
}

/// The panels of a dock zone and the active one.
pub ghost struct DockModel {
    pub panels: Seq<Seq<char>>,
    pub active: Option<Seq<char>>,
}

/// A zone where panels can be docked.
///
/// Its place and size on screen are kept by the renderer; the zone holds
/// the panels.
#[derive(Debug, Clone, PartialEq)]
pub struct DockZone {
    pub panels: Vec<String>,
    pub active_panel: Option<String>,
}

impl View for DockZone {
    type V = DockModel;

    open spec fn view(&self) -> DockModel {
        DockModel { panels: strs(self.panels@), active: opt_str(self.active_panel) }
    }
}

/// `add_panel`: append a panel that is not yet present; it becomes active if none is.
pub open spec fn dock_add(z: DockModel, p: Seq<char>) -> DockModel {
    if z.panels.contains(p) {
        z
    } else {
        DockModel {
            panels: z.panels.push(p),
            active: if z.active is None { Some(p) } else { z.active },
        }
    }
}

/// `remove_panel`: drop the panel; if it was active, the new first panel (if any) is.
pub open spec fn dock_remove(z: DockModel, p: Seq<char>) -> DockModel {
    if z.panels.contains(p) {
        let rest = without_first(z.panels, p);
        DockModel {
            panels: rest,
            active: if z.active == Some(p) {
                if rest.len() > 0 { Some(rest[0]) } else { None }
            } else {
                z.active
            },
        }
    } else {
        z
    }
}

/// `insert_panel`: insert a panel that is not yet present at `min(index, len)`.
pub open spec fn dock_insert(z: DockModel, p: Seq<char>, index: nat) -> DockModel {
    if z.panels.contains(p) {
        z
    } else {
        let k = if index <= z.panels.len() { index as int } else { z.panels.len() as int };
        DockModel {
            panels: z.panels.insert(k, p),
            active: if z.active is None { Some(p) } else { z.active },
        }
    }
}

/// `move_panel`: move a present panel to `min(index, len - 1)`.
pub open spec fn dock_move(z: DockModel, p: Seq<char>, index: nat) -> DockModel {
    if z.panels.contains(p) {
        let rest = without_first(z.panels, p);
        let k = if index <= rest.len() { index as int } else { rest.len() as int };
        DockModel { panels: rest.insert(k, p), active: z.active }
    } else {
        z
    }
}

impl DockZone {
    /// An empty zone.
    pub fn new() -> (r: DockZone)
        ensures
            r@.panels.len() == 0,
            r@.active is None,
    {
        DockZone { panels: Vec::new(), active_panel: None }
    }

    /// Add a panel to this zone.
    pub fn add_panel(&mut self, panel_id: String)
        ensures
            final(self)@ == dock_add(old(self)@, panel_id@),
    {
        if !contains_string(&self.panels, &panel_id) {
            let ghost before = self.panels@;
            self.panels.push(panel_id.clone());
            assert(strs(self.panels@) =~= strs(before).push(panel_id@));
            if self.active_panel.is_none() {
                self.active_panel = Some(panel_id);
            }
        }
    }

    /// Remove a panel from this zone; whether it was there.
    pub fn remove_panel(&mut self, panel_id: &str) -> (r: bool)
        ensures
            r == old(self)@.panels.contains(panel_id@),
            final(self)@ == dock_remove(old(self)@, panel_id@),
    {
        let id = panel_id.to_string();
        let ghost z0 = self@;
        proof {
            z0.panels.index_of_first_ensures(id@);
        }
        match position_of(&self.panels, &id) {
            Some(pos) => {
                let ghost before = self.panels@;
                self.panels.remove(pos);
                assert(strs(self.panels@) =~= strs(before).remove(pos as int));
                let was_active = match &self.active_panel {
                    Some(a) => *a == id,
                    None => false,
                };
                if was_active {
                    if self.panels.len() > 0 {
                        self.active_panel = Some(self.panels[0].clone());
                    } else {
                        self.active_panel = None;
                    }
                }
                true
            },
            None => false,
        }
    }

    /// Make a present panel active; whether it was present.
    pub fn set_active_panel(&mut self, panel_id: String) -> (r: bool)
        ensures
            r == old(self)@.panels.contains(panel_id@),
            final(self)@ == (if r {
                DockModel { active: Some(panel_id@), ..old(self)@ }
            } else {
                old(self)@
            }),
    {
        if contains_string(&self.panels, &panel_id) {
            self.active_panel = Some(panel_id);
            true
        } else {
            false
        }
    }

    /// The active panel.
    pub fn get_active_panel(&self) -> (r: Option<&String>)
        ensures
            opt_str(match r {
                Some(s) => Some(*s),
                None => None,
            }) == self@.active,
    {
        match &self.active_panel {
            Some(a) => Some(a),
            None => None,
        }
    }

    /// Whether the zone holds no panel.
    pub fn is_empty(&self) -> (r: bool)
        ensures
            r == (self@.panels.len() == 0),
    {
        self.panels.len() == 0
    }

    /// Number of panels.
    pub fn panel_count(&self) -> (r: u32)
        requires
            self@.panels.len() <= u32::MAX,
        ensures
            r == self@.panels.len(),
    {
        self.panels.len() as u32
    }

    /// Whether the zone holds the panel.
    pub fn contains_panel(&self, panel_id: &str) -> (r: bool)
        ensures
            r == self@.panels.contains(panel_id@),
    {
        contains_string(&self.panels, &panel_id.to_string())
    }

    /// Position of the panel in the zone.
    pub fn get_panel_index(&self, panel_id: &str) -> (r: Option<u32>)
        requires
            self@.panels.len() <= u32::MAX,
        ensures
            match r {
                Some(i) => self@.panels.index_of_first(panel_id@) == Some(i as int),
                None => self@.panels.index_of_first(panel_id@) == None::<int>,
            },
    {
        match position_of(&self.panels, &panel_id.to_string()) {
            Some(i) => Some(i as u32),
            None => None,
        }
    }

    /// Insert a panel that is not yet present at `index` (clamped to the end).
    pub fn insert_panel(&mut self, panel_id: String, index: u32)
        ensures
            final(self)@ == dock_insert(old(self)@, panel_id@, index as nat),
    {
        if !contains_string(&self.panels, &panel_id) {
            let index_usize = index as usize;
            let at = if index_usize <= self.panels.len() {
                index_usize
            } else {
                self.panels.len()
            };
            let ghost before = self.panels@;
            self.panels.insert(at, panel_id.clone());
            assert(strs(self.panels@) =~= strs(before).insert(at as int, panel_id@));
            if self.active_panel.is_none() {
                self.active_panel = Some(panel_id);
            }
        }
    }

    /// Move a present panel to `new_index` (clamped to the end); whether it was present.
    pub fn move_panel(&mut self, panel_id: &str, new_index: u32) -> (r: bool)
        ensures
            r == old(self)@.panels.contains(panel_id@),
            final(self)@ == dock_move(old(self)@, panel_id@, new_index as nat),
    {
        let id = panel_id.to_string();
        let ghost z0 = self@;
        proof {
            z0.panels.index_of_first_ensures(id@);
        }
        match position_of(&self.panels, &id) {
            Some(current) => {
                let ghost before = self.panels@;
                let panel = self.panels.remove(current);
                assert(strs(self.panels@) =~= strs(before).remove(current as int));
                assert(panel@ == id@);
                let index_usize = new_index as usize;
                let at = if index_usize <= self.panels.len() {
                    index_usize
                } else {
                    self.panels.len()
                };
                let ghost mid = self.panels@;
                self.panels.insert(at, panel);
                assert(strs(self.panels@) =~= strs(mid).insert(at as int, id@));
                true
            },
            None => false,
        }
    }

    /// A copy of this zone.
    pub fn copy(&self) -> (r: DockZone)
        ensures
            r@ == self@,
    {
        let mut panels: Vec<String> = Vec::new();
        let mut i: usize = 0;
        while i < self.panels.len()
            invariant
                i <= self.panels@.len(),
                strs(panels@) == strs(self.panels@).subrange(0, i as int),
            decreases self.panels@.len() - i,
        {
            let ghost before = panels@;
            panels.push(self.panels[i].clone());
            assert(strs(panels@) =~= strs(before).push(self.panels@[i as int]@));
            assert(strs(self.panels@).subrange(0, i + 1) =~= strs(self.panels@).subrange(
                0,
                i as int,
            ).push(self.panels@[i as int]@));
            i = i + 1;
        }
        assert(strs(self.panels@).subrange(0, i as int) =~= strs(self.panels@));
        let active_panel = match &self.active_panel {
            Some(a) => Some(a.clone()),
            None => None,
        };
        DockZone { panels, active_panel }
    }
}

/// Errors that can occur during docking layout operations.
#[derive(Debug, Clone, PartialEq)]
pub enum DockingLayoutError {
    ZoneNotFound { zone_id: String },
    PanelNotFound { panel_id: String },
    PanelNotFoundInZone { panel_id: String, zone_id: String },
    FloatingPanelNotFound { panel_id: String },
    PanelNotInZone,
}

/// The abstract form of a docking error.
pub ghost enum DockErrorModel {
    ZoneNotFound(Seq<char>),
    PanelNotFound(Seq<char>),
    PanelNotFoundInZone(Seq<char>, Seq<char>),
    FloatingPanelNotFound(Seq<char>),
    PanelNotInZone,
}

impl View for DockingLayoutError {
    type V = DockErrorModel;

    open spec fn view(&self) -> DockErrorModel {
        match self {
            DockingLayoutError::ZoneNotFound { zone_id } => DockErrorModel::ZoneNotFound(zone_id@),
            DockingLayoutError::PanelNotFound { panel_id } => DockErrorModel::PanelNotFound(panel_id@),
            DockingLayoutError::PanelNotFoundInZone { panel_id, zone_id } =>
                DockErrorModel::PanelNotFoundInZone(panel_id@, zone_id@),
            DockingLayoutError::FloatingPanelNotFound { panel_id } =>
                DockErrorModel::FloatingPanelNotFound(panel_id@),
            DockingLayoutError::PanelNotInZone => DockErrorModel::PanelNotInZone,
        }
    }
}

/// The text of a docking error.
pub open spec fn dock_error_message(e: DockErrorModel) -> Seq<char> {
    match e {
        DockErrorModel::ZoneNotFound(z) => "Target zone '"@ + z + "' not found"@,
        DockErrorModel::PanelNotFound(p) => "Panel '"@ + p + "' not found"@,
        DockErrorModel::PanelNotFoundInZone(p, z) => "Panel '"@ + p + "' not found in zone '"@ + z
            + "'"@,
        DockErrorModel::FloatingPanelNotFound(p) => "Floating panel '"@ + p + "' not found"@,
        DockErrorModel::PanelNotInZone => "Panel not found in zone"@,
    }
}

impl DockingLayoutError {
    /// The error's message.
    pub fn message(&self) -> (r: String)
        ensures
            r@ == dock_error_message(self@),
    {
        match self {
            DockingLayoutError::ZoneNotFound { zone_id } => String::from_str("Target zone '").concat(
                zone_id.as_str(),
            ).concat("' not found"),
            DockingLayoutError::PanelNotFound { panel_id } => String::from_str("Panel '").concat(
                panel_id.as_str(),
            ).concat("' not found"),
            DockingLayoutError::PanelNotFoundInZone { panel_id, zone_id } => String::from_str(
                "Panel '",
            ).concat(panel_id.as_str()).concat("' not found in zone '").concat(
                zone_id.as_str(),
            ).concat("'"),
            DockingLayoutError::FloatingPanelNotFound { panel_id } => String::from_str(
                "Floating panel '",
            ).concat(panel_id.as_str()).concat("' not found"),
            DockingLayoutError::PanelNotInZone => String::from_str("Panel not found in zone"),
        }
    }
}

/// Result of a drop operation. Where a panel floats on screen is kept by the
/// renderer.
#[derive(Debug, Clone, PartialEq)]
pub enum DropResult {
    /// Panel was dropped in a new zone
    ZoneChange {
        panel_id: String,
        from_zone: Option<String>,
        to_zone: String,
        insert_index: Option<usize>,
    },
    /// Panel was reordered within the same zone
    Reorder { panel_id: String, zone_id: String, from_index: usize, to_index: usize },
    /// Panel became floating
    Float { panel_id: String, from_zone: Option<String> },
    /// Drop was cancelled or invalid
    Cancel { panel_id: String },
}

/// The abstract form of a drop result.
pub ghost enum DropModel {
    ZoneChange(Seq<char>, Option<Seq<char>>, Seq<char>, Option<usize>),
    Reorder(Seq<char>, Seq<char>, usize, usize),
    Float(Seq<char>, Option<Seq<char>>),
    Cancel(Seq<char>),
}

impl View for DropResult {
    type V = DropModel;

    open spec fn view(&self) -> DropModel {
        match self {
            DropResult::ZoneChange { panel_id, from_zone, to_zone, insert_index } =>
                DropModel::ZoneChange(panel_id@, opt_str(*from_zone), to_zone@, *insert_index),
            DropResult::Reorder { panel_id, zone_id, from_index, to_index } => DropModel::Reorder(
                panel_id@,
                zone_id@,
                *from_index,
                *to_index,
            ),
            DropResult::Float { panel_id, from_zone } => DropModel::Float(
                panel_id@,
                opt_str(*from_zone),
            ),
            DropResult::Cancel { panel_id } => DropModel::Cancel(panel_id@),
        }
    }
}

pub open spec fn drop_result(r: Result<DropResult, DockingLayoutError>) -> Result<
    DropModel,
    DockErrorModel,
> {
    match r {
        Ok(d) => Ok(d@),
        Err(e) => Err(e@),
    }
}

pub open spec fn unit_result(r: Result<(), DockingLayoutError>) -> Result<(), DockErrorModel> {
    match r {
        Ok(()) => Ok(()),
        Err(e) => Err(e@),
    }
}

/// Zones keyed by identifier, in order.
pub type ZoneSeq = Seq<(Seq<char>, DockModel)>;

/// The abstract state of a docking layout: its zones and the floating panels.
pub ghost struct DockState {
    pub zones: ZoneSeq,
    pub floating: Seq<Seq<char>>,
}

pub open spec fn zone_views(v: Seq<(String, DockZone)>) -> ZoneSeq {
    v.map_values(|e: (String, DockZone)| (e.0@, e.1@))
}

/// Position of the first zone at or after `j` keyed `k`.
pub open spec fn key_from(zs: ZoneSeq, k: Seq<char>, j: int) -> Option<int>
    decreases zs.len() - j,
{
    if j < 0 || j >= zs.len() {
        None
    } else if zs[j].0 == k {
        Some(j)
    } else {
        key_from(zs, k, j + 1)
    }
}

/// Position of the zone keyed `k`.
pub open spec fn key_pos(zs: ZoneSeq, k: Seq<char>) -> Option<int> {
    key_from(zs, k, 0)
}

/// Position of the first zone at or after `j` that holds panel `p`.
pub open spec fn holder_from(zs: ZoneSeq, p: Seq<char>, j: int) -> Option<int>
    decreases zs.len() - j,
{
    if j < 0 || j >= zs.len() {
        None
    } else if zs[j].1.panels.contains(p) {
        Some(j)
    } else {
        holder_from(zs, p, j + 1)
    }
}

/// Position of the zone that holds panel `p`.
pub open spec fn holder(zs: ZoneSeq, p: Seq<char>) -> Option<int> {
    holder_from(zs, p, 0)
}

pub proof fn lemma_key_from(zs: ZoneSeq, k: Seq<char>, j: int)
    requires
        0 <= j,
    ensures
        match key_from(zs, k, j) {
            Some(i) => j <= i < zs.len() && zs[i].0 == k && forall|m: int| j <= m < i ==> zs[m].0 != k,
            None => forall|m: int| j <= m < zs.len() ==> zs[m].0 != k,
        },
    decreases zs.len() - j,
{
    if j < zs.len() && zs[j].0 != k {
        lemma_key_from(zs, k, j + 1);
    }
}

pub proof fn lemma_holder_from(zs: ZoneSeq, p: Seq<char>, j: int)
    requires
        0 <= j,
    ensures
        match holder_from(zs, p, j) {
            Some(i) => j <= i < zs.len() && zs[i].1.panels.contains(p) && forall|m: int|
                j <= m < i ==> !zs[m].1.panels.contains(p),
            None => forall|m: int| j <= m < zs.len() ==> !zs[m].1.panels.contains(p),
        },
    decreases zs.len() - j,
{
    if j < zs.len() && !zs[j].1.panels.contains(p) {
        lemma_holder_from(zs, p, j + 1);
    }
}

/// Keys are kept when a zone's panels change.
pub proof fn lemma_key_pos_update(zs: ZoneSeq, i: int, z: DockModel, k: Seq<char>)
    requires
        0 <= i < zs.len(),
    ensures
        key_pos(zs.update(i, (zs[i].0, z)), k) == key_pos(zs, k),
{
    let t = zs.update(i, (zs[i].0, z));
    assert forall|j: int| 0 <= j <= zs.len() implies key_from(t, k, j) == key_from(zs, k, j) by {
        lemma_key_update_from(zs, i, z, k, j);
    }
}

proof fn lemma_key_update_from(zs: ZoneSeq, i: int, z: DockModel, k: Seq<char>, j: int)
    requires
        0 <= i < zs.len(),
        0 <= j <= zs.len(),
    ensures
        key_from(zs.update(i, (zs[i].0, z)), k, j) == key_from(zs, k, j),
    decreases zs.len() - j,
{
    if j < zs.len() {
        lemma_key_update_from(zs, i, z, k, j + 1);
    }
}

/// The zones with zone `i` holding `z`.
pub open spec fn with_zone(zs: ZoneSeq, i: int, z: DockModel) -> ZoneSeq {
    zs.update(i, (zs[i].0, z))
}

/// The zones with the zone keyed `k` changed by `f`, when there is one.
pub open spec fn change_zone(zs: ZoneSeq, k: Seq<char>, f: spec_fn(DockModel) -> DockModel) -> ZoneSeq {
    match key_pos(zs, k) {
        Some(i) => with_zone(zs, i, f(zs[i].1)),
        None => zs,
    }
}

pub open spec fn zone_change(p: Seq<char>, from: Option<Seq<char>>, to: Seq<char>, idx: Option<usize>) -> Result<
    DropModel,
    DockErrorModel,
> {
    Ok(DropModel::ZoneChange(p, from, to, idx))
}

/// `move_floating_to_zone`: the panel stops floating and joins zone `t`.
pub open spec fn from_floating(s: DockState, p: Seq<char>, t: Seq<char>, idx: Option<usize>) -> (
    DockState,
    Result<DropModel, DockErrorModel>,
) {
    let floating = without_first(s.floating, p);
    match key_pos(s.zones, t) {
        Some(i) => (
            DockState { zones: with_zone(s.zones, i, dock_add(s.zones[i].1, p)), floating },
            zone_change(p, None, t, idx),
        ),
        None => (DockState { zones: s.zones, floating }, Err(DockErrorModel::ZoneNotFound(t))),
    }
}

/// `reorder_within_zone`: move the panel to position `idx` of its zone `z`.
pub open spec fn reorder(s: DockState, p: Seq<char>, z: Seq<char>, idx: Option<usize>) -> (
    DockState,
    Result<DropModel, DockErrorModel>,
) {
    match (key_pos(s.zones, z), idx) {
        (Some(i), Some(n)) => match s.zones[i].1.panels.index_of_first(p) {
            Some(cur) => (
                DockState { zones: with_zone(s.zones, i, dock_move(s.zones[i].1, p, n as nat)), ..s },
                Ok(DropModel::Reorder(p, z, cur as usize, n)),
            ),
            None => (s, Err(DockErrorModel::PanelNotInZone)),
        },
        _ => (s, Ok(DropModel::Cancel(p))),
    }
}

/// `transfer_between_zones`: take the panel out of zone `src` and put it in zone `t`.
pub open spec fn transfer(s: DockState, p: Seq<char>, src: Seq<char>, t: Seq<char>, idx: Option<usize>) -> (
    DockState,
    Result<DropModel, DockErrorModel>,
) {
    let zs1 = match key_pos(s.zones, src) {
        Some(i) => with_zone(s.zones, i, dock_remove(s.zones[i].1, p)),
        None => s.zones,
    };
    match key_pos(zs1, t) {
        Some(j) => (
            DockState {
                zones: with_zone(
                    zs1,
                    j,
                    match idx {
                        Some(n) => dock_insert(zs1[j].1, p, n as nat),
                        None => dock_add(zs1[j].1, p),
                    },
                ),
                ..s
            },
            zone_change(p, Some(src), t, idx),
        ),
        None => (DockState { zones: zs1, ..s }, Err(DockErrorModel::ZoneNotFound(t))),
    }
}

/// `move_panel`: from floating, within its zone, or between zones.
pub open spec fn move_spec(s: DockState, p: Seq<char>, t: Seq<char>, idx: Option<usize>) -> (
    DockState,
    Result<DropModel, DockErrorModel>,
) {
    match holder(s.zones, p) {
        None => if s.floating.contains(p) {
            from_floating(s, p, t, idx)
        } else {
            (s, Err(DockErrorModel::PanelNotFound(p)))
        },
        Some(i) => {
            let src = s.zones[i].0;
            if src == t {
                reorder(s, p, src, idx)
            } else {
                transfer(s, p, src, t, idx)
            }
        },
    }
}

/// `float_panel`: take the panel out of its zone and let it float.
pub open spec fn float_spec(s: DockState, p: Seq<char>) -> (DockState, DropModel) {
    let floating = if s.floating.contains(p) { s.floating } else { s.floating.push(p) };
    match holder(s.zones, p) {
        Some(i) => {
            let k = s.zones[i].0;
            (
                DockState {
                    zones: change_zone(s.zones, k, |z: DockModel| dock_remove(z, p)),
                    floating,
                },
                DropModel::Float(p, Some(k)),
            )
        },
        None => (DockState { zones: s.zones, floating }, DropModel::Float(p, None)),
    }
}

/// `dock_floating_panel`: a floating panel joins zone `t`.
pub open spec fn dock_spec(s: DockState, p: Seq<char>, t: Seq<char>) -> (
    DockState,
    Result<DropModel, DockErrorModel>,
) {
    if !s.floating.contains(p) {
        (s, Err(DockErrorModel::FloatingPanelNotFound(p)))
    } else {
        from_floating(s, p, t, None)
    }
}

/// `set_active_panel` on the zone keyed `z`.
pub open spec fn activate_spec(s: DockState, z: Seq<char>, p: Seq<char>) -> (
    DockState,
    Result<(), DockErrorModel>,
) {
    match key_pos(s.zones, z) {
        None => (s, Err(DockErrorModel::ZoneNotFound(z))),
        Some(i) => if s.zones[i].1.panels.contains(p) {
            (
                DockState {
                    zones: with_zone(s.zones, i, DockModel { active: Some(p), ..s.zones[i].1 }),
                    ..s
                },
                Ok(()),
            )
        } else {
            (s, Err(DockErrorModel::PanelNotFoundInZone(p, z)))
        },
    }
}

/// Every zone's panel count fits in a `u32`.
pub open spec fn counts_fit(zs: ZoneSeq) -> bool {
    forall|i: int| 0 <= i < zs.len() ==> #[trigger] zs[i].1.panels.len() <= u32::MAX
}

/// The zones of a fresh layout: identifier and the panel docked in it.
pub open spec fn default_zone_panels() -> Seq<(Seq<char>, Seq<char>)> {
    seq![
        ("left"@, "nodes_panel"@),
        ("left_bottom"@, "validation_results_panel"@),
        ("right"@, "transformations_panel"@),
        ("center"@, "main_content"@),
        ("bottom_left"@, "flow_view"@),
        ("bottom_right"@, "validation_rules_panel"@),
    ]
}

/// Zones and floating panels.
#[derive(Debug)]
pub struct DockingLayout {
    pub zones: Vec<(String, DockZone)>,
    pub floating_panels: Vec<String>,
}

impl View for DockingLayout {
    type V = DockState;

    open spec fn view(&self) -> DockState {
        DockState { zones: zone_views(self.zones@), floating: strs(self.floating_panels@) }
    }
}

fn zone_with(zone_id: &str, panel_id: &str) -> (r: (String, DockZone))
    ensures
        r.0@ == zone_id@,
        r.1@.panels == seq![panel_id@],
        r.1@.active == Some(panel_id@),
{
    let mut z = DockZone::new();
    z.add_panel(panel_id.to_string());
    assert(z@.panels =~= seq![panel_id@]);
    (zone_id.to_string(), z)
}

/// A zone holding the given panels, the first of them active.
pub open spec fn zone_model(panels: Seq<Seq<char>>) -> DockModel {
    DockModel { panels, active: if panels.len() > 0 { Some(panels[0]) } else { None } }
}

/// The zones of the built-in "default" preset layout.
pub open spec fn default_preset_zones() -> ZoneSeq {
    seq![
        ("left"@, zone_model(seq!["nodes_panel"@])),
        ("left_bottom"@, zone_model(seq!["validation_results_panel"@])),
        ("right"@, zone_model(seq!["transformations_panel"@])),
        ("center"@, zone_model(seq!["main_content"@])),
        ("bottom_left"@, zone_model(seq!["flow_view"@])),
        ("bottom_right"@, zone_model(Seq::empty())),
    ]
}

/// The zones of the built-in "minimal" preset layout.
pub open spec fn minimal_preset_zones() -> ZoneSeq {
    seq![("left"@, zone_model(seq!["nodes_panel"@])), ("center"@, zone_model(seq!["main_content"@]))]
}

/// The zones of the built-in "wide" preset layout.
pub open spec fn wide_preset_zones() -> ZoneSeq {
    seq![
        ("left"@, zone_model(seq!["nodes_panel"@])),
        ("center"@, zone_model(seq!["main_content"@])),
        ("right"@, zone_model(seq!["transformations_panel"@, "flow_view"@])),
    ]
}

/// The zones of the built-in "focus" preset layout.
pub open spec fn focus_preset_zones() -> ZoneSeq {
    seq![("center"@, zone_model(seq!["main_content"@]))]
}

fn zone_empty(zone_id: &str) -> (r: (String, DockZone))
    ensures
        r.0@ == zone_id@,
        r.1@ == zone_model(Seq::empty()),
{
    let z = DockZone::new();
    assert(z@.panels =~= Seq::<Seq<char>>::empty());
    (zone_id.to_string(), z)
}

fn zone_with_two(zone_id: &str, a: &str, b: &str) -> (r: (String, DockZone))
    requires
        a@ != b@,
    ensures
        r.0@ == zone_id@,
        r.1@ == zone_model(seq![a@, b@]),
{
    let mut z = DockZone::new();
    z.add_panel(a.to_string());
    assert(z@.panels =~= seq![a@]);
    z.add_panel(b.to_string());
    assert(z@.panels =~= seq![a@, b@]);
    (zone_id.to_string(), z)
}

impl DockingLayout {
    /// A layout with the default zones, each holding its default panel.
    pub fn new() -> (r: DockingLayout)
        ensures
            r@.floating.len() == 0,
            r@.zones.len() == default_zone_panels().len(),
            forall|i: int|
                0 <= i < r@.zones.len() ==> #[trigger] r@.zones[i].0 == default_zone_panels()[i].0
                    && r@.zones[i].1.panels == seq![default_zone_panels()[i].1]
                    && r@.zones[i].1.active == Some(default_zone_panels()[i].1),
    {
        let mut zones: Vec<(String, DockZone)> = Vec::new();
        zones.push(zone_with("left", "nodes_panel"));
        zones.push(zone_with("left_bottom", "validation_results_panel"));
        zones.push(zone_with("right", "transformations_panel"));
        zones.push(zone_with("center", "main_content"));
        zones.push(zone_with("bottom_left", "flow_view"));
        zones.push(zone_with("bottom_right", "validation_rules_panel"));
        let r = DockingLayout { zones, floating_panels: Vec::new() };
        assert(r@.floating =~= Seq::<Seq<char>>::empty());
        r
    }

    /// The zones of the built-in "default" preset, with no floating panels.
    pub fn default_preset() -> (r: DockingLayout)
        ensures
            r@ == (DockState { zones: default_preset_zones(), floating: Seq::empty() }),
    {
        let mut zones: Vec<(String, DockZone)> = Vec::new();
        zones.push(zone_with("left", "nodes_panel"));
        zones.push(zone_with("left_bottom", "validation_results_panel"));
        zones.push(zone_with("right", "transformations_panel"));
        zones.push(zone_with("center", "main_content"));
        zones.push(zone_with("bottom_left", "flow_view"));
        zones.push(zone_empty("bottom_right"));
        let r = DockingLayout { zones, floating_panels: Vec::new() };
        assert(r@.floating =~= Seq::<Seq<char>>::empty());
        assert(r@.zones =~= default_preset_zones());
        r
    }

    /// The zones of the built-in "minimal" preset, with no floating panels.
    pub fn minimal_preset() -> (r: DockingLayout)
        ensures
            r@ == (DockState { zones: minimal_preset_zones(), floating: Seq::empty() }),
    {
        let mut zones: Vec<(String, DockZone)> = Vec::new();
        zones.push(zone_with("left", "nodes_panel"));
        zones.push(zone_with("center", "main_content"));
        let r = DockingLayout { zones, floating_panels: Vec::new() };
        assert(r@.floating =~= Seq::<Seq<char>>::empty());
        assert(r@.zones =~= minimal_preset_zones());
        r
    }

    /// The zones of the built-in "wide" preset, with no floating panels.
    pub fn wide_preset() -> (r: DockingLayout)
        ensures
            r@ == (DockState { zones: wide_preset_zones(), floating: Seq::empty() }),
    {
        let mut zones: Vec<(String, DockZone)> = Vec::new();
        zones.push(zone_with("left", "nodes_panel"));
        zones.push(zone_with("center", "main_content"));
        let a = "transformations_panel";
        let b = "flow_view";
        proof {
            reveal_strlit("transformations_panel");
            reveal_strlit("flow_view");
            assert(a@.len() != b@.len());
        }
        zones.push(zone_with_two("right", a, b));
        let r = DockingLayout { zones, floating_panels: Vec::new() };
        assert(r@.floating =~= Seq::<Seq<char>>::empty());
        assert(r@.zones =~= wide_preset_zones());
        r
    }

    /// The zones of the built-in "focus" preset, with no floating panels.
    pub fn focus_preset() -> (r: DockingLayout)
        ensures
            r@ == (DockState { zones: focus_preset_zones(), floating: Seq::empty() }),
    {
        let mut zones: Vec<(String, DockZone)> = Vec::new();
        zones.push(zone_with("center", "main_content"));
        let r = DockingLayout { zones, floating_panels: Vec::new() };
        assert(r@.floating =~= Seq::<Seq<char>>::empty());
        assert(r@.zones =~= focus_preset_zones());
        r
    }

    fn zone_index(&self, zone_id: &str) -> (r: Option<usize>)
        ensures
            match r {
                Some(i) => key_pos(self@.zones, zone_id@) == Some(i as int) && i < self@.zones.len(),
                None => key_pos(self@.zones, zone_id@) is None,
            },
    {
        let ghost zs = self@.zones;
        let key = zone_id.to_string();
        let mut i: usize = 0;
        while i < self.zones.len()
            invariant
                zs == zone_views(self.zones@),
                key@ == zone_id@,
                i <= self.zones@.len(),
                key_from(zs, zone_id@, 0) == key_from(zs, zone_id@, i as int),
            decreases self.zones@.len() - i,
        {
            assert(zs[i as int].0 == self.zones@[i as int].0@);
            if self.zones[i].0 == key {
                return Some(i);
            }
            i = i + 1;
        }
        None
    }

    fn holder_index(&self, panel_id: &str) -> (r: Option<usize>)
        ensures
            match r {
                Some(i) => holder(self@.zones, panel_id@) == Some(i as int) && i < self@.zones.len(),
                None => holder(self@.zones, panel_id@) is None,
            },
    {
        let ghost zs = self@.zones;
        let mut i: usize = 0;
        while i < self.zones.len()
            invariant
                zs == zone_views(self.zones@),
                i <= self.zones@.len(),
                holder_from(zs, panel_id@, 0) == holder_from(zs, panel_id@, i as int),
            decreases self.zones@.len() - i,
        {
            assert(zs[i as int].1 == self.zones@[i as int].1@);
            if self.zones[i].1.contains_panel(panel_id) {
                return Some(i);
            }
            i = i + 1;
        }
        None
    }

    /// Replace the panels of zone `i`.
    fn put_zone(&mut self, i: usize, z: DockZone)
        requires
            i < old(self)@.zones.len(),
        ensures
            final(self)@ == (DockState { zones: with_zone(old(self)@.zones, i as int, z@), ..old(self)@ }),
    {
        let k = self.zones[i].0.clone();
        let ghost before = self.zones@;
        self.zones.set(i, (k, z));
        assert(zone_views(self.zones@) =~= with_zone(zone_views(before), i as int, z@));
    }

    /// Take the panel off the floating list.
    fn unfloat(&mut self, panel_id: &str)
        ensures
            final(self)@ == (DockState { floating: without_first(old(self)@.floating, panel_id@), ..old(self)@ }),
    {
        let id = panel_id.to_string();
        let ghost f0 = self@.floating;
        proof {
            f0.index_of_first_ensures(id@);
        }
        match position_of(&self.floating_panels, &id) {
            Some(pos) => {
                let ghost before = self.floating_panels@;
                self.floating_panels.remove(pos);
                assert(strs(self.floating_panels@) =~= strs(before).remove(pos as int));
            },
            None => {},
        }
    }

    /// The zone that holds a panel.
    pub fn find_panel_zone(&self, panel_id: &str) -> (r: Option<String>)
        ensures
            match holder(self@.zones, panel_id@) {
                Some(i) => r is Some && r.unwrap()@ == self@.zones[i].0,
                None => r is None,
            },
    {
        match self.holder_index(panel_id) {
            Some(i) => Some(self.zones[i].0.clone()),
            None => None,
        }
    }

    fn move_floating_to_zone(&mut self, panel_id: &str, target_zone_id: &str, insert_index: Option<usize>) -> (r: Result<DropResult, DockingLayoutError>)
        ensures
            (final(self)@, drop_result(r)) == from_floating(old(self)@, panel_id@, target_zone_id@, insert_index),
    {
        self.unfloat(panel_id);
        match self.zone_index(target_zone_id) {
            Some(i) => {
                let mut z = self.zones[i].1.copy();
                z.add_panel(panel_id.to_string());
                self.put_zone(i, z);
                Ok(DropResult::ZoneChange {
                    panel_id: panel_id.to_string(),
                    from_zone: None,
                    to_zone: target_zone_id.to_string(),
                    insert_index,
                })
            },
            None => Err(DockingLayoutError::ZoneNotFound { zone_id: target_zone_id.to_string() }),
        }
    }

    fn reorder_within_zone(&mut self, panel_id: &str, zone_id: &str, insert_index: Option<usize>) -> (r: Result<DropResult, DockingLayoutError>)
        requires
            counts_fit(old(self)@.zones),
            insert_index matches Some(n) ==> n <= u32::MAX,
        ensures
            (final(self)@, drop_result(r)) == reorder(old(self)@, panel_id@, zone_id@, insert_index),
    {
        match (self.zone_index(zone_id), insert_index) {
            (Some(i), Some(index)) => {
                let ghost zm = self@.zones[i as int].1;
                assert(zm == self.zones@[i as int].1@);
                assert(zm.panels.len() <= u32::MAX);
                let current = match self.zones[i].1.get_panel_index(panel_id) {
                    Some(c) => c,
                    None => return Err(DockingLayoutError::PanelNotInZone),
                };
                let mut z = self.zones[i].1.copy();
                proof {
                    zm.panels.index_of_first_ensures(panel_id@);
                }
                let moved = z.move_panel(panel_id, index as u32);
                self.put_zone(i, z);
                Ok(DropResult::Reorder {
                    panel_id: panel_id.to_string(),
                    zone_id: zone_id.to_string(),
                    from_index: current as usize,
                    to_index: index,
                })
            },
            _ => Ok(DropResult::Cancel { panel_id: panel_id.to_string() }),
        }
    }

    fn transfer_between_zones(&mut self, panel_id: &str, source_zone_id: &str, target_zone_id: &str, insert_index: Option<usize>) -> (r: Result<DropResult, DockingLayoutError>)
        requires
            insert_index matches Some(n) ==> n <= u32::MAX,
        ensures
            (final(self)@, drop_result(r)) == transfer(old(self)@, panel_id@, source_zone_id@, target_zone_id@, insert_index),
    {
        let ghost s0 = self@;
        match self.zone_index(source_zone_id) {
            Some(i) => {
                let mut z = self.zones[i].1.copy();
                z.remove_panel(panel_id);
                self.put_zone(i, z);
                proof {
                    lemma_key_pos_update(s0.zones, i as int, z@, target_zone_id@);
                }
            },
            None => {},
        }
        match self.zone_index(target_zone_id) {
            Some(j) => {
                let mut z = self.zones[j].1.copy();
                match insert_index {
                    Some(index) => z.insert_panel(panel_id.to_string(), index as u32),
                    None => z.add_panel(panel_id.to_string()),
                }
                self.put_zone(j, z);
                Ok(DropResult::ZoneChange {
                    panel_id: panel_id.to_string(),
                    from_zone: Some(source_zone_id.to_string()),
                    to_zone: target_zone_id.to_string(),
                    insert_index,
                })
            },
            None => Err(DockingLayoutError::ZoneNotFound { zone_id: target_zone_id.to_string() }),
        }
    }

    /// Move a panel to zone `target_zone_id` (at `insert_index`, if given):
    /// from floating, within its zone, or from another zone.
    pub fn move_panel(&mut self, panel_id: &str, target_zone_id: &str, insert_index: Option<usize>) -> (r: Result<DropResult, DockingLayoutError>)
        requires
            counts_fit(old(self)@.zones),
            insert_index matches Some(n) ==> n <= u32::MAX,
        ensures
            (final(self)@, drop_result(r)) == move_spec(old(self)@, panel_id@, target_zone_id@, insert_index),
    {
        match self.holder_index(panel_id) {
            None => {
                if self.is_panel_floating(panel_id) {
                    self.move_floating_to_zone(panel_id, target_zone_id, insert_index)
                } else {
                    Err(DockingLayoutError::PanelNotFound { panel_id: panel_id.to_string() })
                }
            },
            Some(i) => {
                let source = self.zones[i].0.clone();
                if source == target_zone_id.to_string() {
                    self.reorder_within_zone(panel_id, source.as_str(), insert_index)
                } else {
                    self.transfer_between_zones(panel_id, source.as_str(), target_zone_id, insert_index)
                }
            },
        }
    }

    /// Make a panel of a zone active.
    pub fn set_active_panel(&mut self, zone_id: &str, panel_id: &str) -> (r: Result<(), DockingLayoutError>)
        ensures
            (final(self)@, unit_result(r)) == activate_spec(old(self)@, zone_id@, panel_id@),
    {
        match self.zone_index(zone_id) {
            Some(i) => {
                let mut z = self.zones[i].1.copy();
                if z.set_active_panel(panel_id.to_string()) {
                    self.put_zone(i, z);
                    Ok(())
                } else {
                    Err(DockingLayoutError::PanelNotFoundInZone {
                        panel_id: panel_id.to_string(),
                        zone_id: zone_id.to_string(),
                    })
                }
            },
            None => Err(DockingLayoutError::ZoneNotFound { zone_id: zone_id.to_string() }),
        }
    }

    /// Take a panel out of its zone and let it float.
    pub fn float_panel(&mut self, panel_id: &str) -> (r: DropResult)
        ensures
            (final(self)@, r@) == float_spec(old(self)@, panel_id@),
    {
        let source = self.find_panel_zone(panel_id);
        let ghost s0 = self@;
        match &source {
            Some(zone_id) => {
                match self.zone_index(zone_id.as_str()) {
                    Some(i) => {
                        let mut z = self.zones[i].1.copy();
                        z.remove_panel(panel_id);
                        self.put_zone(i, z);
                    },
                    None => {},
                }
            },
            None => {},
        }
        if !self.is_panel_floating(panel_id) {
            let ghost before = self.floating_panels@;
            self.floating_panels.push(panel_id.to_string());
            assert(strs(self.floating_panels@) =~= strs(before).push(panel_id@));
        }
        proof {
            if let Some(i) = holder(s0.zones, panel_id@) {
                lemma_holder_from(s0.zones, panel_id@, 0);
                lemma_key_from(s0.zones, s0.zones[i].0, 0);
            }
        }
        DropResult::Float { panel_id: panel_id.to_string(), from_zone: source }
    }

    /// Dock a floating panel in zone `target_zone_id`.
    pub fn dock_floating_panel(&mut self, panel_id: &str, target_zone_id: &str) -> (r: Result<DropResult, DockingLayoutError>)
        ensures
            (final(self)@, drop_result(r)) == dock_spec(old(self)@, panel_id@, target_zone_id@),
    {
        if !self.is_panel_floating(panel_id) {
            return Err(DockingLayoutError::FloatingPanelNotFound { panel_id: panel_id.to_string() });
        }
        self.move_floating_to_zone(panel_id, target_zone_id, None)
    }

    /// The zone identifiers, in order.
    pub fn get_zone_ids(&self) -> (r: Vec<String>)
        ensures
            strs(r@) == self@.zones.map_values(|e: (Seq<char>, DockModel)| e.0),
    {
        let mut ids: Vec<String> = Vec::new();
        let mut i: usize = 0;
        while i < self.zones.len()
            invariant
                i <= self.zones@.len(),
                strs(ids@) == self@.zones.map_values(|e: (Seq<char>, DockModel)| e.0).subrange(0, i as int),
            decreases self.zones@.len() - i,
        {
            let ghost before = ids@;
            ids.push(self.zones[i].0.clone());
            assert(strs(ids@) =~= strs(before).push(self.zones@[i as int].0@));
            assert(self@.zones.map_values(|e: (Seq<char>, DockModel)| e.0).subrange(0, i + 1)
                =~= self@.zones.map_values(|e: (Seq<char>, DockModel)| e.0).subrange(0, i as int).push(
                self.zones@[i as int].0@,
            ));
            i = i + 1;
        }
        assert(self@.zones.map_values(|e: (Seq<char>, DockModel)| e.0).subrange(0, i as int)
            =~= self@.zones.map_values(|e: (Seq<char>, DockModel)| e.0));
        ids
    }

    /// The zone keyed `zone_id`.
    pub fn get_zone(&self, zone_id: &str) -> (r: Option<&DockZone>)
        ensures
            match key_pos(self@.zones, zone_id@) {
                Some(i) => r is Some && r.unwrap()@ == self@.zones[i].1,
                None => r is None,
            },
    {
        match self.zone_index(zone_id) {
            Some(i) => Some(&self.zones[i].1),
            None => None,
        }
    }

    /// Whether a panel floats.
    pub fn is_panel_floating(&self, panel_id: &str) -> (r: bool)
        ensures
            r == self@.floating.contains(panel_id@),
    {
        contains_string(&self.floating_panels, &panel_id.to_string())
    }
}

/// Every zone key occurs once.
pub open spec fn keys_distinct(zs: ZoneSeq) -> bool {
    forall|i: int, j: int| 0 <= i < j < zs.len() ==> zs[i].0 != zs[j].0
}

/// A zone's state is consistent: the active panel is one of its panels, and
/// there is one whenever there are panels.
pub open spec fn zone_consistent(z: DockModel) -> bool {
    &&& z.active matches Some(a) ==> z.panels.contains(a)
    &&& z.active is None ==> z.panels.len() == 0
}

/// Adding a panel twice is adding it once.
pub proof fn law_add_idempotent(z: DockModel, p: Seq<char>)
    ensures
        dock_add(dock_add(z, p), p) == dock_add(z, p),
{
    assert(dock_add(z, p).panels.contains(p)) by {
        if !z.panels.contains(p) {
            assert(z.panels.push(p)[z.panels.len() as int] == p);
        }
    }
}

/// Removing a panel just added to a consistent zone restores the zone.
pub proof fn law_remove_undoes_add(z: DockModel, p: Seq<char>)
    requires
        zone_consistent(z),
        !z.panels.contains(p),
    ensures
        dock_remove(dock_add(z, p), p) == z,
{
    let a = dock_add(z, p);
    assert(a.panels == z.panels.push(p));
    assert(a.panels[z.panels.len() as int] == p);
    a.panels.index_of_first_ensures(p);
    let i = a.panels.index_of_first(p).unwrap();
    assert(i == z.panels.len()) by {
        if i < z.panels.len() {
            assert(z.panels[i] == a.panels[i]);
        }
    }
    assert(a.panels.remove(i) =~= z.panels);
    if let Some(x) = z.active {
        assert(x != p);
    }
}

/// A zone holds a panel after the panel is added to it, inserted in it, or
/// moved within it.
proof fn lemma_placed(z: DockModel, p: Seq<char>, n: nat)
    ensures
        dock_add(z, p).panels.contains(p),
        dock_insert(z, p, n).panels.contains(p),
        z.panels.contains(p) ==> dock_move(z, p, n).panels.contains(p),
{
    if !z.panels.contains(p) {
        assert(z.panels.push(p)[z.panels.len() as int] == p);
        let k = if n <= z.panels.len() { n as int } else { z.panels.len() as int };
        assert(z.panels.insert(k, p)[k] == p);
    } else {
        let rest = without_first(z.panels, p);
        let k = if n <= rest.len() { n as int } else { rest.len() as int };
        z.panels.index_of_first_ensures(p);
        assert(rest.insert(k, p)[k] == p);
    }
}

/// A panel that `move_panel` places successfully ends up in the target
/// zone, for zones with distinct keys.
pub proof fn law_move_places_panel(s: DockState, p: Seq<char>, t: Seq<char>, idx: Option<usize>)
    requires
        keys_distinct(s.zones),
        move_spec(s, p, t, idx).1 is Ok,
    ensures
        ({
            let n = move_spec(s, p, t, idx).0;
            key_pos(n.zones, t) matches Some(i) && n.zones[i].1.panels.contains(p)
        }),
{
    let n = match idx {
        Some(v) => v as nat,
        None => 0,
    };
    match holder(s.zones, p) {
        None => {
            lemma_key_from(s.zones, t, 0);
            if let Some(i) = key_pos(s.zones, t) {
                lemma_placed(s.zones[i].1, p, n);
                lemma_key_pos_update(s.zones, i, dock_add(s.zones[i].1, p), t);
            }
        },
        Some(h) => {
            lemma_holder_from(s.zones, p, 0);
            let src = s.zones[h].0;
            if src == t {
                lemma_key_from(s.zones, t, 0);
                let i = key_pos(s.zones, t).unwrap();
                assert(i == h) by {
                    if i != h {
                        assert(s.zones[i].0 == s.zones[h].0);
                    }
                }
                if let Some(v) = idx {
                    lemma_placed(s.zones[i].1, p, v as nat);
                    lemma_key_pos_update(s.zones, i, dock_move(s.zones[i].1, p, v as nat), t);
                }
            } else {
                lemma_key_from(s.zones, src, 0);
                let zs1 = match key_pos(s.zones, src) {
                    Some(i) => with_zone(s.zones, i, dock_remove(s.zones[i].1, p)),
                    None => s.zones,
                };
                if let Some(i) = key_pos(s.zones, src) {
                    lemma_key_pos_update(s.zones, i, dock_remove(s.zones[i].1, p), t);
                }
                if let Some(j) = key_pos(zs1, t) {
                    lemma_key_from(zs1, t, 0);
                    lemma_placed(zs1[j].1, p, n);
                    match idx {
                        Some(v) => lemma_key_pos_update(zs1, j, dock_insert(zs1[j].1, p, v as nat), t),
                        None => lemma_key_pos_update(zs1, j, dock_add(zs1[j].1, p), t),
                    }
                }
            }
        },
    }
}

/// Floating a docked panel and docking it again puts it in the target zone
/// and leaves it floating no more.
pub proof fn law_float_then_dock(s: DockState, p: Seq<char>, t: Seq<char>)
    requires
        !s.floating.contains(p),
        dock_spec(float_spec(s, p).0, p, t).1 is Ok,
    ensures
        ({
            let n = dock_spec(float_spec(s, p).0, p, t).0;
            &&& !n.floating.contains(p)
            &&& key_pos(n.zones, t) matches Some(i) && n.zones[i].1.panels.contains(p)
        }),
{
    let f = float_spec(s, p).0;
    assert(f.floating == s.floating.push(p));
    assert(f.floating[s.floating.len() as int] == p);
    f.floating.index_of_first_ensures(p);
    let i = f.floating.index_of_first(p).unwrap();
    assert(i == s.floating.len()) by {
        if i < s.floating.len() {
            assert(s.floating[i] == f.floating[i]);
        }
    }
    assert(without_first(f.floating, p) =~= s.floating);
    lemma_key_from(f.zones, t, 0);
    if let Some(k) = key_pos(f.zones, t) {
        lemma_placed(f.zones[k].1, p, 0);
        lemma_key_pos_update(f.zones, k, dock_add(f.zones[k].1, p), t);
    }
}

} // verus!
