use meteorite::dock_presets::{LayoutPreset, PresetError, PresetMetadata, PresetRegistry};

fn custom(id: &str, layout: u32, tags: &[&str]) -> LayoutPreset<u32> {
    let mut metadata = PresetMetadata::new_with_timestamp(10);
    for t in tags {
        metadata.tags.push(t.to_string());
    }
    LayoutPreset {
        id: id.to_string(),
        name: format!("{id} name"),
        description: String::new(),
        is_system: false,
        layout,
        metadata,
    }
}

fn defaults() -> PresetRegistry<u32> {
    PresetRegistry::with_default_presets(1, 2, 3, 4, 99)
}

#[test]
fn default_presets_are_registered() {
    let reg = defaults();
    let ids: Vec<&str> = reg.list().iter().map(|p| p.id.as_str()).collect();
    assert_eq!(ids, vec!["default", "minimal", "wide", "focus"]);
    let wide = reg.get("wide").expect("wide preset");
    assert_eq!(wide.name, "Wide Screen");
    assert_eq!(wide.layout, 3);
    assert!(wide.is_system);
    assert_eq!(wide.metadata.tags, vec!["wide".to_string(), "ultrawide".to_string()]);
    assert_eq!(wide.metadata.created_at, 99);
    assert_eq!(wide.metadata.version, "1.0.0");
    assert!(reg.get("nope").is_none());
}

#[test]
fn list_by_tags_filters() {
    let reg = defaults();
    let found: Vec<&str> = reg
        .list_by_tags(&["simple".to_string(), "data".to_string()])
        .iter()
        .map(|p| p.id.as_str())
        .collect();
    assert_eq!(found, vec!["minimal", "focus"]);
    assert!(reg.list_by_tags(&[]).is_empty());
}

#[test]
fn add_update_remove_custom_preset() {
    let mut reg = defaults();
    reg.add_preset(custom("mine", 7, &["x"])).expect("add should succeed");
    match reg.add_preset(custom("mine", 8, &[])) {
        Err(e) => assert_eq!(e.message(), "Preset 'mine' already exists"),
        Ok(()) => panic!("duplicate add should fail"),
    }
    reg.update_preset_with_timestamp("mine", 9, 500).expect("update should succeed");
    let p = reg.get("mine").unwrap();
    assert_eq!(p.layout, 9);
    assert_eq!(p.metadata.modified_at, 500);
    assert_eq!(p.metadata.created_at, 10);
    reg.update_preset("mine", 11).expect("update now should succeed");
    assert_eq!(reg.get("mine").unwrap().layout, 11);
    reg.remove_preset("mine").expect("remove should succeed");
    assert!(reg.get("mine").is_none());
    assert!(matches!(
        reg.remove_preset("mine"),
        Err(PresetError::PresetNotFound { ref name }) if name == "mine"
    ));
}

#[test]
fn system_presets_are_protected() {
    let mut reg = defaults();
    let e = reg.remove_preset("default").unwrap_err();
    assert_eq!(e.message(), "Invalid preset configuration: Cannot remove system presets");
    let e = reg.update_preset_with_timestamp("focus", 0, 1).unwrap_err();
    assert_eq!(e.message(), "Invalid preset configuration: Cannot modify system presets");
    assert_eq!(reg.get("focus").unwrap().layout, 4);
    assert!(reg.update_preset_with_timestamp("zzz", 0, 1).is_err());
}

#[test]
fn import_skips_taken_ids_and_clears_system_flag() {
    let mut reg = defaults();
    let mut sys = custom("imported_sys", 5, &[]);
    sys.is_system = true;
    let n = reg.import_presets(vec![custom("default", 0, &[]), sys, custom("other", 6, &[])]);
    assert_eq!(n, 2);
    assert!(!reg.get("imported_sys").unwrap().is_system);
    assert_eq!(reg.get("default").unwrap().layout, 1);
    let customs: Vec<&str> = reg.custom_presets().iter().map(|p| p.id.as_str()).collect();
    assert_eq!(customs, vec!["imported_sys", "other"]);
}

#[test]
fn empty_registry_and_metadata_default() {
    let reg: PresetRegistry<u32> = PresetRegistry::new();
    assert!(reg.list().is_empty());
    let m = PresetMetadata::default();
    assert_eq!(m.created_at, m.modified_at);
    assert!(m.tags.is_empty());
}
