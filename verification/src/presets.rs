//! Named layout presets and saved custom presets.
use vstd::prelude::*;
use crate::builder::{
    build_debug_layout, build_focus_layout, build_split_layout, debug_shape, default_shape,
    focus_shape, layout_with_shape, split_view_shape, BuilderError, BuilderErrorModel,
    LayoutBuilder,
};
use crate::tree::LayoutTree;

verus! {

broadcast use vstd::string::group_string_axioms;

/// Available layout presets.
#[derive(Debug, Clone, PartialEq)]
pub enum LayoutPreset {
    /// Default layout
    Default,
    /// Focus mode - single large center area
    Focus,
    /// Split view - two equal panels
    SplitView,
    /// Debug layout - multiple panels for debugging
    Debug,
    /// Custom preset loaded from storage
    Custom(String),
}

/// Key prefix for preset storage.
pub const PRESET_STORAGE_KEY_PREFIX: &'static str = "seaglass_layout_preset_";

/// The message of the error that a custom preset gets from `build`.
pub open spec fn custom_preset_message(name: Seq<char>) -> Seq<char> {
    "Custom preset '"@ + name
        + "' must be loaded via PresetStorageService. Use seaglass_web::services::preset_storage_service::PresetStorageService::load_preset()"@
}

/// Custom presets are kept by the storage layer, not built here.
fn load_custom_preset(name: &str) -> (r: Result<LayoutTree, BuilderError>)
    ensures
        r matches Err(e) && e@ == BuilderErrorModel::InvalidConfiguration(custom_preset_message(name@)),
{
    Err(
        BuilderError::InvalidConfiguration(
            String::from_str("Custom preset '").concat(name).concat(
                "' must be loaded via PresetStorageService. Use seaglass_web::services::preset_storage_service::PresetStorageService::load_preset()",
            ),
        ),
    )
}

impl LayoutPreset {
    /// Build the layout tree for this preset.
    pub fn build(&self) -> (r: Result<LayoutTree, BuilderError>)
        ensures
            match self {
                LayoutPreset::Default => r matches Ok(t) && layout_with_shape(t@, default_shape()),
                LayoutPreset::Focus => r matches Ok(t) && layout_with_shape(t@, focus_shape()),
                LayoutPreset::SplitView => r matches Ok(t) && layout_with_shape(t@, split_view_shape()),
                LayoutPreset::Debug => r matches Ok(t) && layout_with_shape(t@, debug_shape()),
                LayoutPreset::Custom(name) => r matches Err(e) && e@
                    == BuilderErrorModel::InvalidConfiguration(custom_preset_message(name@)),
            },
    {
        match self {
            LayoutPreset::Default => LayoutBuilder::default_seaglass_layout(),
            LayoutPreset::Focus => build_focus_layout(),
            LayoutPreset::SplitView => build_split_layout(),
            LayoutPreset::Debug => build_debug_layout(),
            LayoutPreset::Custom(name) => load_custom_preset(name.as_str()),
        }
    }

    /// The built-in presets with their names.
    pub fn all() -> (r: Vec<(String, LayoutPreset)>)
        ensures
            r@.len() == 4,
            r@[0].0@ == "default"@ && r@[0].1 == LayoutPreset::Default,
            r@[1].0@ == "focus"@ && r@[1].1 == LayoutPreset::Focus,
            r@[2].0@ == "split"@ && r@[2].1 == LayoutPreset::SplitView,
            r@[3].0@ == "debug"@ && r@[3].1 == LayoutPreset::Debug,
    {
        let mut v: Vec<(String, LayoutPreset)> = Vec::new();
        v.push((String::from_str("default"), LayoutPreset::Default));
        v.push((String::from_str("focus"), LayoutPreset::Focus));
        v.push((String::from_str("split"), LayoutPreset::SplitView));
        v.push((String::from_str("debug"), LayoutPreset::Debug));
        v
    }

    /// The preset of a name; any other name names a custom preset.
    pub fn by_name(name: &str) -> (r: Option<LayoutPreset>)
        ensures
            r is Some,
            name@ == "default"@ ==> r == Some(LayoutPreset::Default),
            name@ == "focus"@ ==> r == Some(LayoutPreset::Focus),
            name@ == "split"@ ==> r == Some(LayoutPreset::SplitView),
            name@ == "debug"@ ==> r == Some(LayoutPreset::Debug),
            name@ != "default"@ && name@ != "focus"@ && name@ != "split"@ && name@ != "debug"@
                ==> (r matches Some(LayoutPreset::Custom(c)) && c@ == name@),
    {
        proof {
            reveal_strlit("default");
            reveal_strlit("focus");
            reveal_strlit("split");
            reveal_strlit("debug");
            assert("focus"@ != "default"@) by {
                assert("focus"@.len() != "default"@.len());
            }
            assert("split"@ != "default"@) by {
                assert("split"@.len() != "default"@.len());
            }
            assert("debug"@ != "default"@) by {
                assert("debug"@.len() != "default"@.len());
            }
            assert("split"@ != "focus"@) by {
                assert("split"@[0] != "focus"@[0]);
            }
            assert("debug"@ != "focus"@) by {
                assert("debug"@[0] != "focus"@[0]);
            }
            assert("debug"@ != "split"@) by {
                assert("debug"@[0] != "split"@[0]);
            }
        }
        let n = name.to_string();
        if n == String::from_str("default") {
            Some(LayoutPreset::Default)
        } else if n == String::from_str("focus") {
            Some(LayoutPreset::Focus)
        } else if n == String::from_str("split") {
            Some(LayoutPreset::SplitView)
        } else if n == String::from_str("debug") {
            Some(LayoutPreset::Debug)
        } else {
            Some(LayoutPreset::Custom(n))
        }
    }
}

/// Preset metadata for display.
#[derive(Debug, Clone)]
pub struct PresetInfo {
    pub name: String,
    pub display_name: String,
    pub description: String,
    pub icon: String,
}

/// The display entries of the built-in presets: name, display name,
/// description and icon.
pub open spec fn preset_infos() -> Seq<(Seq<char>, Seq<char>, Seq<char>, Seq<char>)> {
    seq![
        ("default"@, "Default"@, "Standard Seaglass layout with all panels"@, "⊞"@),
        ("focus"@, "Focus Mode"@, "Minimalist layout for focused work"@, "□"@),
        ("split"@, "Split View"@, "Side-by-side panels for comparison"@, "⊟"@),
        ("debug"@, "Debug Layout"@, "Multiple panels for debugging workflows"@, "⊡"@),
    ]
}

fn info(name: &str, display_name: &str, description: &str, icon: &str) -> (r: PresetInfo)
    ensures
        r.name@ == name@,
        r.display_name@ == display_name@,
        r.description@ == description@,
        r.icon@ == icon@,
{
    PresetInfo {
        name: String::from_str(name),
        display_name: String::from_str(display_name),
        description: String::from_str(description),
        icon: String::from_str(icon),
    }
}

impl PresetInfo {
    /// The display entries of the built-in presets.
    pub fn all() -> (r: Vec<PresetInfo>)
        ensures
            r@.len() == preset_infos().len(),
            forall|i: int|
                0 <= i < r@.len() ==> (#[trigger] r@[i].name@, r@[i].display_name@, r@[i].description@, r@[i].icon@)
                    == preset_infos()[i],
    {
        let mut v: Vec<PresetInfo> = Vec::new();
        v.push(info("default", "Default", "Standard Seaglass layout with all panels", "⊞"));
        v.push(info("focus", "Focus Mode", "Minimalist layout for focused work", "□"));
        v.push(info("split", "Split View", "Side-by-side panels for comparison", "⊟"));
        v.push(info("debug", "Debug Layout", "Multiple panels for debugging workflows", "⊡"));
        v
    }
}

/// A saved custom preset.
#[derive(Debug)]
pub struct CustomPresetData {
    /// Name of the preset
    pub name: String,
    /// The layout tree
    pub layout: LayoutTree,
    /// Optional description
    pub description: Option<String>,
    /// Time of saving (Unix milliseconds)
    pub saved_at: Option<u64>,
}

/// The current time in Unix milliseconds.
///
/// Calls `chrono::Utc::now().timestamp_millis()`; nothing is claimed of the
/// value, which depends on the clock.
#[verifier::external_body]
pub(crate) fn current_timestamp_millis() -> u64 {
    chrono::Utc::now().timestamp_millis() as u64
}

impl CustomPresetData {
    /// A preset saved at the given time.
    pub fn new_with_timestamp(name: String, layout: LayoutTree, timestamp_millis: u64) -> (r: CustomPresetData)
        ensures
            r.name@ == name@,
            r.layout@ == layout@,
            r.description is None,
            r.saved_at == Some(timestamp_millis),
    {
        CustomPresetData { name, layout, description: None, saved_at: Some(timestamp_millis) }
    }

    /// A preset saved now.
    pub fn new(name: String, layout: LayoutTree) -> (r: CustomPresetData)
        ensures
            r.name@ == name@,
            r.layout@ == layout@,
            r.description is None,
            r.saved_at is Some,
    {
        let now = current_timestamp_millis();
        Self::new_with_timestamp(name, layout, now)
    }

    /// The preset with a description.
    pub fn with_description(self, description: &str) -> (r: CustomPresetData)
        ensures
            r.name@ == self.name@,
            r.layout@ == self.layout@,
            r.description matches Some(d) && d@ == description@,
            r.saved_at == self.saved_at,
    {
        let mut s = self;
        s.description = Some(String::from_str(description));
        s
    }

    /// The storage key of this preset: the key prefix and its name.
    pub fn storage_key(&self) -> (r: String)
        ensures
            r@ == PRESET_STORAGE_KEY_PREFIX@ + self.name@,
    {
        String::from_str(PRESET_STORAGE_KEY_PREFIX).concat(self.name.as_str())
    }
}

} // verus!
