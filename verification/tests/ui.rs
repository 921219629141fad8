use meteorite::ui::{
    clamp_hours, clamp_minutes, default_sections, leader_hint, leader_title, palette_key,
    rank_matches, single_char, toast_class, PaletteAction, PaletteItem, PaletteKey, ToastLevel,
};

#[test]
fn default_shortcut_sections() {
    let s = default_sections();
    let titles: Vec<&str> = s.iter().map(|x| x.title.as_str()).collect();
    assert_eq!(titles, vec!["Navigation", "Selection", "Clipboard", "Search"]);
    assert_eq!(s[0].shortcuts.len(), 4);
    assert_eq!(s[3].shortcuts[2].key, "Shift+F3");
    assert_eq!(s[3].shortcuts[2].description, "Previous result");
}

#[test]
fn palette_navigation_wraps() {
    assert_eq!(palette_key(2, 3, PaletteKey::ArrowDown), (0, PaletteAction::Stay));
    assert_eq!(palette_key(0, 3, PaletteKey::ArrowUp), (2, PaletteAction::Stay));
    assert_eq!(palette_key(1, 3, PaletteKey::ArrowUp), (0, PaletteAction::Stay));
    assert_eq!(palette_key(0, 0, PaletteKey::ArrowDown), (0, PaletteAction::Stay));
    assert_eq!(palette_key(1, 3, PaletteKey::Enter), (1, PaletteAction::Select(1)));
    assert_eq!(palette_key(1, 3, PaletteKey::Escape), (1, PaletteAction::Close));
    assert_eq!(palette_key(1, 3, PaletteKey::Other), (1, PaletteAction::Stay));
}

#[test]
fn palette_item_builders() {
    let item = PaletteItem::new("open", "Open file").shortcut("⌘O").icon("o").group("File");
    assert_eq!(item.id, "open");
    assert_eq!(item.shortcut.as_deref(), Some("⌘O"));
    assert_eq!(item.icon.as_deref(), Some("o"));
    assert_eq!(item.group.as_deref(), Some("File"));
}

#[test]
fn leader_labels() {
    assert_eq!(leader_title(&vec![]), "Space");
    assert_eq!(leader_title(&vec!["file".to_string(), "recent".to_string()]), "Space › file › recent");
    assert_eq!(leader_hint(0), "esc close");
    assert_eq!(leader_hint(2), "esc back");
    assert_eq!(single_char("a"), Some('a'));
    assert_eq!(single_char("é"), Some('é'));
    assert_eq!(single_char("ab"), None);
    assert_eq!(single_char(""), None);
}

#[test]
fn toast_and_time_fields() {
    assert_eq!(toast_class(ToastLevel::Warning, "x"), "met-toast met-toast-warning x");
    assert_eq!(ToastLevel::Error.class(), "met-toast-error");
    assert_eq!(clamp_hours(30), 23);
    assert_eq!(clamp_hours(7), 7);
    assert_eq!(clamp_minutes(60), 59);
    assert_eq!(clamp_minutes(0), 0);
}

#[test]
fn palette_down_then_up_returns() {
    let (down, action) = palette_key(2, 3, PaletteKey::ArrowDown);
    assert_eq!((down, action), (0, PaletteAction::Stay));
    assert_eq!(palette_key(down, 3, PaletteKey::ArrowUp).0, 2);
    assert_eq!(palette_key(0, 3, PaletteKey::ArrowUp).0, 2);
    assert_eq!(palette_key(1, 3, PaletteKey::Enter), (1, PaletteAction::Select(1)));
    assert_eq!(palette_key(1, 3, PaletteKey::Escape).1, PaletteAction::Close);
}

#[test]
fn rank_matches_orders_by_score_then_position() {
    let scores = vec![Some(3), None, Some(7), Some(3), Some(-1), Some(7)];
    assert_eq!(rank_matches(&scores), vec![(2, 7), (5, 7), (0, 3), (3, 3), (4, -1)]);
    assert!(rank_matches(&vec![None, None]).is_empty());
}
