//! Helpers for moving saved layouts of the zone-based format to layout trees.
use vstd::prelude::*;
use crate::assoc::assoc_map;
use crate::builder::{default_shape, layout_with_shape, lemma_shape_height, LayoutBuilder};
use crate::dock::{DockModel, DockingLayout, ZoneSeq};
use crate::integration::{
    add_panels, adapter_add_spec, find_zone_by_legacy_name, integration_result, legacy_add, legacy_map,
    legacy_zone, lemma_add_panel_height, lemma_add_panels_err, lift_tree, name_map, zone_panel_views,
    AdapterModel, FlexibleLayoutAdapter, IntegrationError, IntegrationErrorModel, LegacyZoneState,
};
use crate::layout_node::height;
use crate::node::strs;
use crate::text::chars_of;
use crate::tree::{LayoutTree, TreeErrorModel, TreeModel, MAX_TREE_DEPTH};

verus! {

broadcast use vstd::string::group_string_axioms;

/// Whether `t` occurs in `s` at position `i`.
pub open spec fn occurs_at(s: Seq<char>, t: Seq<char>, i: int) -> bool {
    0 <= i && i + t.len() <= s.len() && s.subrange(i, i + t.len()) == t
}

/// Whether `t` occurs in `s`.
pub open spec fn has_substring(s: Seq<char>, t: Seq<char>) -> bool {
    exists|i: int| occurs_at(s, t, i)
}

/// Whether the characters `t` occur in `s`.
pub fn contains_chars(s: &Vec<char>, t: &Vec<char>) -> (r: bool)
    ensures
        r == has_substring(s@, t@),
{
    let n = s.len();
    let m = t.len();
    if m > n {
        assert forall|i: int| !occurs_at(s@, t@, i) by {}
        return false;
    }
    let mut i: usize = 0;
    while i <= n - m
        invariant
            m <= n,
            n == s@.len(),
            m == t@.len(),
            i <= n - m + 1,
            forall|j: int| 0 <= j < i ==> !occurs_at(s@, t@, j),
        decreases n - m + 1 - i,
    {
        let mut k: usize = 0;
        while k < m && s[i + k] == t[k]
            invariant
                m <= n,
                n == s@.len(),
                m == t@.len(),
                i + m <= n,
                k <= m,
                forall|q: int| 0 <= q < k ==> s@[i + q] == t@[q],
            decreases m - k,
        {
            k = k + 1;
        }
        if k == m {
            assert(s@.subrange(i as int, i + m) =~= t@);
            assert(occurs_at(s@, t@, i as int));
            return true;
        }
        assert(!occurs_at(s@, t@, i as int)) by {
            if s@.subrange(i as int, i + m) == t@ {
                assert(s@.subrange(i as int, i + m)[k as int] == s@[i + k]);
            }
        }
        i = i + 1;
    }
    assert forall|j: int| !occurs_at(s@, t@, j) by {
        if 0 <= j && j + m <= n {
            assert(j < i);
        }
    }
    false
}

/// Migration helpers for saved layouts.
pub struct LayoutMigration;

/// The panels each zone of the default tree layout starts with.
pub open spec fn default_assignments() -> Seq<(Seq<char>, Seq<Seq<char>>)> {
    seq![
        ("menu_zone"@, seq!["menu_bar"@]),
        ("left_top"@, seq!["nodes_panel"@]),
        ("left_middle"@, seq!["validation_results_panel"@]),
        ("left_bottom"@, Seq::empty()),
        ("center"@, seq!["main_content"@, "flow_view"@]),
        ("right_top"@, seq!["transformations_panel"@]),
        ("right_middle"@, seq!["validation_rules_panel"@]),
        ("right_bottom"@, Seq::empty()),
    ]
}

fn assignment(zone: &str, panels: Vec<&str>) -> (r: (String, Vec<String>))
    ensures
        r.0@ == zone@,
        strs(r.1@) == panels@.map_values(|p: &str| p@),
{
    let mut v: Vec<String> = Vec::new();
    let mut i: usize = 0;
    while i < panels.len()
        invariant
            i <= panels@.len(),
            strs(v@) == panels@.map_values(|p: &str| p@).subrange(0, i as int),
        decreases panels@.len() - i,
    {
        let ghost before = v@;
        v.push(panels[i].to_string());
        assert(strs(v@) =~= strs(before).push(panels@[i as int]@));
        assert(panels@.map_values(|p: &str| p@).subrange(0, i + 1) =~= panels@.map_values(|p: &str| p@).subrange(
            0,
            i as int,
        ).push(panels@[i as int]@));
        i = i + 1;
    }
    assert(panels@.map_values(|p: &str| p@).subrange(0, i as int) =~= panels@.map_values(|p: &str| p@));
    (zone.to_string(), v)
}

impl LayoutMigration {
    /// Whether a saved layout is in the zone-based format: it names `"zones"`
    /// and not `"tree"`.
    pub fn needs_migration(layout_json: &str) -> (r: bool)
        ensures
            r == (has_substring(layout_json@, "\"zones\""@) && !has_substring(layout_json@, "\"tree\""@)),
    {
        let s = chars_of(layout_json);
        let zones = chars_of("\"zones\"");
        let tree = chars_of("\"tree\"");
        contains_chars(&s, &zones) && !contains_chars(&s, &tree)
    }

    /// The panels each zone of the default layout starts with, in order.
    pub fn default_panel_assignments() -> (r: Vec<(String, Vec<String>)>)
        ensures
            r@.len() == default_assignments().len(),
            forall|i: int|
                0 <= i < r@.len() ==> (#[trigger] r@[i].0@, strs(r@[i].1@)) == default_assignments()[i],
    {
        let mut v: Vec<(String, Vec<String>)> = Vec::new();
        v.push(assignment("menu_zone", vec!["menu_bar"]));
        v.push(assignment("left_top", vec!["nodes_panel"]));
        v.push(assignment("left_middle", vec!["validation_results_panel"]));
        v.push(assignment("left_bottom", vec![]));
        v.push(assignment("center", vec!["main_content", "flow_view"]));
        v.push(assignment("right_top", vec!["transformations_panel"]));
        v.push(assignment("right_middle", vec!["validation_rules_panel"]));
        v.push(assignment("right_bottom", vec![]));
        proof {
            assert(seq!["menu_bar"].map_values(|p: &str| p@) =~= seq!["menu_bar"@]);
        }
        v
    }
}


// ---------------------------------------------------------------------------
// From the zone-based layout
// ---------------------------------------------------------------------------

/// Add each panel in turn to a legacy zone.
pub open spec fn legacy_add_all(z: Seq<(Seq<char>, Seq<Seq<char>>)>, zone: Seq<char>, ps: Seq<Seq<char>>) -> Seq<
    (Seq<char>, Seq<Seq<char>>),
>
    decreases ps.len(),
{
    if ps.len() == 0 {
        z
    } else {
        legacy_add(legacy_add_all(z, zone, ps.drop_last()), zone, ps.last())
    }
}

/// The legacy state of the zones of a docking layout: the panels of each zone
/// in turn, and the active panels.
pub open spec fn legacy_of_zones(zs: ZoneSeq) -> (Seq<(Seq<char>, Seq<Seq<char>>)>, Map<Seq<char>, Seq<char>>)
    decreases zs.len(),
{
    if zs.len() == 0 {
        (Seq::empty(), Map::empty())
    } else {
        let (z, a) = legacy_of_zones(zs.drop_last());
        let name = zs.last().0;
        let dz: DockModel = zs.last().1;
        (
            legacy_add_all(z, name, dz.panels),
            match dz.active {
                Some(p) => a.insert(name, p),
                None => a,
            },
        )
    }
}

/// Place each panel in turn in the legacy zone it names, stopping at the
/// first failure.
pub open spec fn adds_all(a: AdapterModel, ps: Seq<(Seq<char>, Seq<char>)>) -> (AdapterModel, Result<(), IntegrationErrorModel>)
    decreases ps.len(),
{
    if ps.len() == 0 {
        (a, Ok(()))
    } else {
        let (a1, r1) = adds_all(a, ps.drop_last());
        if r1 is Err {
            (a1, r1)
        } else {
            adapter_add_spec(a1, ps.last().1, ps.last().0)
        }
    }
}

/// Whether an adapter state is a fresh one over the default layout.
pub open spec fn fresh_default(a: AdapterModel) -> bool {
    &&& layout_with_shape(a.tree, default_shape())
    &&& a.zones == legacy_map(a.tree)
    &&& a.names == name_map(a.tree)
    &&& a.floating.len() == 0
}

/// Add the panels of one zone, if a zone has its legacy name.
pub open spec fn arrange_zone(t: TreeModel, name: Seq<char>, ps: Seq<Seq<char>>) -> (TreeModel, Result<(), IntegrationErrorModel>) {
    match legacy_zone(t, name) {
        None => (t, Ok(())),
        Some(z) => {
            let (t1, r1) = add_panels(t, z, ps);
            (t1, lift_tree(r1))
        },
    }
}

/// Arrange each zone in turn, stopping at the first failure.
pub open spec fn arrange_all(t: TreeModel, zs: Seq<(Seq<char>, Seq<Seq<char>>)>) -> (TreeModel, Result<(), IntegrationErrorModel>)
    decreases zs.len(),
{
    if zs.len() == 0 {
        (t, Ok(()))
    } else {
        let (t1, r1) = arrange_all(t, zs.drop_last());
        if r1 is Err {
            (t1, r1)
        } else {
            arrange_zone(t1, zs.last().0, zs.last().1)
        }
    }
}

pub proof fn lemma_adds_all_err(a: AdapterModel, ps: Seq<(Seq<char>, Seq<char>)>, k: int)
    requires
        0 <= k <= ps.len(),
        adds_all(a, ps.subrange(0, k)).1 is Err,
    ensures
        adds_all(a, ps) == adds_all(a, ps.subrange(0, k)),
    decreases ps.len(),
{
    if ps.len() == k {
        assert(ps.subrange(0, k) =~= ps);
    } else {
        assert(ps.drop_last().subrange(0, k) =~= ps.subrange(0, k));
        lemma_adds_all_err(a, ps.drop_last(), k);
    }
}

pub proof fn lemma_arrange_all_err(t: TreeModel, zs: Seq<(Seq<char>, Seq<Seq<char>>)>, k: int)
    requires
        0 <= k <= zs.len(),
        arrange_all(t, zs.subrange(0, k)).1 is Err,
    ensures
        arrange_all(t, zs) == arrange_all(t, zs.subrange(0, k)),
    decreases zs.len(),
{
    if zs.len() == k {
        assert(zs.subrange(0, k) =~= zs);
    } else {
        assert(zs.drop_last().subrange(0, k) =~= zs.subrange(0, k));
        lemma_arrange_all_err(t, zs.drop_last(), k);
    }
}

impl LayoutMigration {
    /// The legacy state of a docking layout: each zone's panels and active
    /// panel (zone sizes are kept by the renderer).
    pub fn from_docking_layout(layout: &DockingLayout) -> (r: LegacyZoneState)
        ensures
            (zone_panel_views(r.zone_panels@), assoc_map(r.active_panels@)) == legacy_of_zones(layout@.zones),
    {
        let mut state = LegacyZoneState::new();
        let ghost zs = layout@.zones;
        assert(zs.subrange(0, 0) =~= ZoneSeq::empty());
        assert(zone_panel_views(state.zone_panels@) =~= Seq::<(Seq<char>, Seq<Seq<char>>)>::empty());
        assert(assoc_map(state.active_panels@) =~= Map::<Seq<char>, Seq<char>>::empty());
        let mut i: usize = 0;
        while i < layout.zones.len()
            invariant
                i <= layout.zones@.len(),
                zs == layout@.zones,
                (zone_panel_views(state.zone_panels@), assoc_map(state.active_panels@)) == legacy_of_zones(
                    zs.subrange(0, i as int),
                ),
            decreases layout.zones@.len() - i,
        {
            let zone_id = &layout.zones[i].0;
            let zone = &layout.zones[i].1;
            let ghost sub = zs.subrange(0, i + 1);
            assert(sub.drop_last() =~= zs.subrange(0, i as int));
            assert(sub.last() == (zone_id@, zone@));
            let ghost z0 = zone_panel_views(state.zone_panels@);
            let ghost ps = strs(zone.panels@);
            let mut j: usize = 0;
            assert(ps.subrange(0, 0) =~= Seq::<Seq<char>>::empty());
            while j < zone.panels.len()
                invariant
                    j <= zone.panels@.len(),
                    ps == strs(zone.panels@),
                    zone_panel_views(state.zone_panels@) == legacy_add_all(z0, zone_id@, ps.subrange(0, j as int)),
                    assoc_map(state.active_panels@) == legacy_of_zones(zs.subrange(0, i as int)).1,
                decreases zone.panels@.len() - j,
            {
                assert(ps.subrange(0, j + 1).drop_last() =~= ps.subrange(0, j as int));
                state.add_panel(zone_id.clone(), zone.panels[j].clone());
                j = j + 1;
            }
            assert(ps.subrange(0, j as int) =~= ps);
            match &zone.active_panel {
                Some(active) => {
                    state.set_active(zone_id.clone(), active.clone());
                },
                None => {},
            }
            i = i + 1;
        }
        assert(zs.subrange(0, i as int) =~= zs);
        state
    }

    /// An adapter over the default layout with each panel placed in the
    /// legacy zone it names, in turn; the first failure is returned.
    pub fn create_with_current_panels(panel_positions: Vec<(String, String)>) -> (r: Result<FlexibleLayoutAdapter, IntegrationError>)
        ensures
            exists|a0: AdapterModel|
                #![trigger fresh_default(a0)]
                fresh_default(a0) && {
                    let (a, res) = adds_all(a0, panel_positions@.map_values(|e: (String, String)| (e.0@, e.1@)));
                    match r {
                        Ok(adapter) => res is Ok && adapter@ == a && adapter.wf(),
                        Err(e) => res == Err::<(), IntegrationErrorModel>(e@),
                    }
                },
    {
        let mut adapter = match FlexibleLayoutAdapter::new() {
            Ok(a) => a,
            Err(e) => {
                return Err(e);
            },
        };
        let ghost a0 = adapter@;
        let ghost ps = panel_positions@.map_values(|e: (String, String)| (e.0@, e.1@));
        assert(ps.subrange(0, 0) =~= Seq::<(Seq<char>, Seq<char>)>::empty());
        let mut i: usize = 0;
        while i < panel_positions.len()
            invariant
                i <= panel_positions@.len(),
                ps == panel_positions@.map_values(|e: (String, String)| (e.0@, e.1@)),
                fresh_default(a0),
                adapter.wf(),
                adds_all(a0, ps.subrange(0, i as int)) == (adapter@, Ok::<(), IntegrationErrorModel>(())),
            decreases panel_positions@.len() - i,
        {
            assert(ps.subrange(0, i + 1).drop_last() =~= ps.subrange(0, i as int));
            assert(ps[i as int] == (panel_positions@[i as int].0@, panel_positions@[i as int].1@));
            let r = adapter.add_panel_to_zone(panel_positions[i].1.as_str(), panel_positions[i].0.clone());
            match r {
                Ok(()) => {},
                Err(e) => {
                    proof {
                        lemma_adds_all_err(a0, ps, i + 1);
                    }
                    return Err(e);
                },
            }
            i = i + 1;
        }
        assert(ps.subrange(0, i as int) =~= ps);
        Ok(adapter)
    }

    /// The default layout with each zone's panels added to the zone tagged
    /// with its legacy name; zones with no such name are skipped.
    pub fn create_custom_layout(panel_arrangement: Vec<(String, Vec<String>)>) -> (r: Result<LayoutTree, IntegrationError>)
        ensures
            exists|t0: TreeModel|
                #![trigger layout_with_shape(t0, default_shape())]
                layout_with_shape(t0, default_shape()) && {
                    let (t, res) = arrange_all(t0, zone_panel_views(panel_arrangement@));
                    match r {
                        Ok(tree) => res is Ok && tree@ == t,
                        Err(e) => res == Err::<(), IntegrationErrorModel>(e@),
                    }
                },
    {
        let mut tree = match LayoutBuilder::default_seaglass_layout() {
            Ok(t) => t,
            Err(e) => {
                return Err(IntegrationError::InvalidMapping(e.message()));
            },
        };
        let ghost t0 = tree@;
        let ghost zs = zone_panel_views(panel_arrangement@);
        proof {
            lemma_shape_height(t0.root);
            reveal_with_fuel(height, 6);
            assert(zs.subrange(0, 0) =~= Seq::<(Seq<char>, Seq<Seq<char>>)>::empty());
        }
        let mut i: usize = 0;
        while i < panel_arrangement.len()
            invariant
                i <= panel_arrangement@.len(),
                zs == zone_panel_views(panel_arrangement@),
                layout_with_shape(t0, default_shape()),
                height(tree@.root) == height(t0.root),
                height(t0.root) < MAX_TREE_DEPTH,
                arrange_all(t0, zs.subrange(0, i as int)) == (tree@, Ok::<(), IntegrationErrorModel>(())),
            decreases panel_arrangement@.len() - i,
        {
            let ghost ti = tree@;
            let name = &panel_arrangement[i].0;
            let panels = &panel_arrangement[i].1;
            let ghost ps = strs(panels@);
            proof {
                assert(zs.subrange(0, i + 1).drop_last() =~= zs.subrange(0, i as int));
                assert(zs[i as int] == (name@, ps));
            }
            match find_zone_by_legacy_name(&tree, name.as_str()) {
                Some(zone_id) => {
                    let mut j: usize = 0;
                    assert(ps.subrange(0, 0) =~= Seq::<Seq<char>>::empty());
                    while j < panels.len()
                        invariant
                            j <= panels@.len(),
                            ps == strs(panels@),
                            height(tree@.root) == height(t0.root),
                            add_panels(ti, zone_id@, ps.subrange(0, j as int)) == (tree@, Ok::<(), TreeErrorModel>(())),
                            i < panel_arrangement@.len(),
                            zs == zone_panel_views(panel_arrangement@),
                            layout_with_shape(t0, default_shape()),
                            height(t0.root) < MAX_TREE_DEPTH,
                            arrange_all(t0, zs.subrange(0, i as int)) == (ti, Ok::<(), IntegrationErrorModel>(())),
                            zs.subrange(0, i + 1).drop_last() == zs.subrange(0, i as int),
                            zs[i as int] == (name@, ps),
                            legacy_zone(ti, name@) == Some(zone_id@),
                        decreases panels@.len() - j,
                    {
                        let ghost tj = tree@;
                        assert(ps.subrange(0, j + 1).drop_last() =~= ps.subrange(0, j as int));
                        let added = tree.add_panel_to_zone(&zone_id, panels[j].clone());
                        proof {
                            lemma_add_panel_height(tj, zone_id@, ps[j as int], None);
                        }
                        match added {
                            Ok(()) => {},
                            Err(e) => {
                                proof {
                                    lemma_add_panels_err(ti, zone_id@, ps, j + 1);
                                    lemma_arrange_all_err(t0, zs, i + 1);
                                }
                                return Err(IntegrationError::TreeError(e));
                            },
                        }
                        j = j + 1;
                    }
                    assert(ps.subrange(0, j as int) =~= ps);
                },
                None => {},
            }
            i = i + 1;
        }
        assert(zs.subrange(0, i as int) =~= zs);
        Ok(tree)
    }
}

} // verus!
