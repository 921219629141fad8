use meteorite::style::{Size, Variant};

#[test]
fn variant_class_names() {
    assert_eq!(Variant::Default.class(), "met-default");
    assert_eq!(Variant::Primary.class(), "met-primary");
    assert_eq!(Variant::Danger.class(), "met-danger");
    assert_eq!(Variant::Transparent.class(), "met-ghost");
    assert_eq!(Variant::Custom("brand".into()).class(), "met-brand");
    assert_eq!(Variant::Custom("x-y-z".into()).class(), "met-x-y-z");
}

#[test]
fn remaining_variant_classes() {
    assert_eq!(Variant::Secondary.class(), "met-secondary");
    assert_eq!(Variant::Success.class(), "met-success");
    assert_eq!(Variant::Warning.class(), "met-warning");
    assert_eq!(Variant::Custom(String::new()).class(), "met-");
    assert_eq!(Variant::default(), Variant::Default);
}

#[test]
fn size_classes() {
    assert_eq!(Size::Xs.class(), "met-xs");
    assert_eq!(Size::Sm.class(), "met-sm");
    assert_eq!(Size::Md.class(), "met-md");
    assert_eq!(Size::Lg.class(), "met-lg");
    assert_eq!(Size::Xl.class(), "met-xl");
    assert_eq!(Size::default(), Size::Md);
}

use meteorite::style::{Palette, Theme, Tokens};

#[test]
fn dark_and_light_presets_differ() {
    let dark = Theme::dark();
    let light = Theme::light();
    assert_ne!(dark.palette.bg, light.palette.bg);
    assert_ne!(dark.palette.fg, light.palette.fg);
    assert_eq!(dark.name, "dark");
    assert_eq!(light.name, "light");
}

#[test]
fn to_css_vars_contains_all_builtin_vars() {
    let css = Theme::dark().to_css_vars();
    let expected = [
        "--met-bg", "--met-fg", "--met-primary", "--met-secondary",
        "--met-success", "--met-warning", "--met-danger", "--met-muted",
        "--met-border", "--met-radius-sm", "--met-radius-md", "--met-radius-lg",
        "--met-font-sm", "--met-font-md", "--met-font-lg",
        "--met-space-xs", "--met-space-sm", "--met-space-md",
        "--met-space-lg", "--met-space-xl",
    ];
    for var in expected {
        assert!(css.contains(var), "missing CSS var: {var}");
    }
}

#[test]
fn variant_color_resolves_builtin() {
    let theme = Theme::dark();
    assert_eq!(theme.variant_color(&Variant::Primary), &theme.palette.primary);
    assert_eq!(theme.variant_color(&Variant::Success), &theme.palette.success);
    assert_eq!(theme.variant_color(&Variant::Transparent), "transparent");
}

#[test]
fn default_theme_is_dark() {
    let t: Theme = Default::default();
    assert_eq!(t.name, "dark");
}

#[test]
fn css_vars_exact_text() {
    let palette = Palette {
        bg: "b".into(),
        fg: "f".into(),
        primary: "p".into(),
        secondary: "s".into(),
        success: "ok".into(),
        warning: "w".into(),
        danger: "d".into(),
        muted: "m".into(),
        border: "bo".into(),
        extra: vec![],
    };
    let theme = Theme::custom("mine", palette);
    let css = theme.to_css_vars();
    assert!(css.starts_with(":root {\n  --met-bg: b;\n  --met-fg: f;\n"));
    assert!(css.ends_with("  --met-space-xl: 32px;\n}"));
    assert_eq!(css.lines().count(), 22);
    assert_eq!(theme.variant_color(&Variant::Custom("brand".into())), "f");
    assert_eq!(Tokens::default().font_sm, "0.875rem");
}

#[test]
fn extra_palette_colors_emit_var_and_class() {
    let theme = Theme::builder("test")
        .extra_color("brand", "#ff6600")
        .extra_color("accent", "#9333ea")
        .build();
    let css = theme.to_css_vars();
    assert!(css.contains("--met-brand: #ff6600"), "missing --met-brand var");
    assert!(css.contains("--met-accent: #9333ea"), "missing --met-accent var");
    assert!(css.contains(".met-brand {"), "missing .met-brand class");
    assert!(css.contains(".met-accent {"), "missing .met-accent class");
    assert!(css.contains("var(--met-brand)"), "class should reference var");
}

#[test]
fn extra_tokens_emit_vars() {
    let theme = Theme::builder("test")
        .extra_token("shadow-lg", "0 8px 24px rgba(0,0,0,0.15)")
        .extra_token("transition", "0.2s ease")
        .build();
    let css = theme.to_css_vars();
    assert!(css.contains("--met-shadow-lg: 0 8px 24px rgba(0,0,0,0.15)"));
    assert!(css.contains("--met-transition: 0.2s ease"));
}

#[test]
fn builder_overrides_palette_and_tokens() {
    let theme = Theme::builder("custom")
        .palette(Palette {
            primary: "#000000".into(),
            ..Palette::light()
        })
        .tokens(Tokens {
            radius_md: "99px".into(),
            ..Tokens::default()
        })
        .build();
    assert_eq!(theme.name, "custom");
    assert_eq!(theme.palette.primary, "#000000");
    assert_eq!(theme.palette.bg, Palette::light().bg);
    assert_eq!(theme.tokens.radius_md, "99px");
    assert_eq!(theme.tokens.space_sm, Tokens::default().space_sm);
}

#[test]
fn variant_color_resolves_custom() {
    let theme = Theme::builder("test")
        .extra_color("brand", "#ff6600")
        .build();
    assert_eq!(theme.variant_color(&Variant::Custom("brand".into())), "#ff6600");
    assert_eq!(theme.variant_color(&Variant::Custom("nope".into())), &theme.palette.fg);
}

#[test]
fn css_output_is_deterministic() {
    let theme = Theme::builder("test")
        .extra_color("z-last", "#111")
        .extra_color("a-first", "#222")
        .extra_token("z-tok", "1")
        .extra_token("a-tok", "2")
        .build();
    let css1 = theme.to_css_vars();
    let css2 = theme.to_css_vars();
    assert_eq!(css1, css2);
    let a_pos = css1.find("--met-a-first").unwrap();
    let z_pos = css1.find("--met-z-last").unwrap();
    assert!(a_pos < z_pos, "extra colors should be in alphabetical order");
}

#[test]
fn extra_color_set_twice_keeps_last_value_once() {
    let theme = Theme::builder("t")
        .extra_color("brand", "#1")
        .extra_color("alpha", "#2")
        .extra_color("brand", "#3")
        .build();
    assert_eq!(
        theme.palette.extra,
        vec![("alpha".to_string(), "#2".to_string()), ("brand".to_string(), "#3".to_string())]
    );
    let css = theme.to_css_vars();
    assert!(css.ends_with("}\n.met-alpha { color: var(--met-alpha); }\n.met-brand { color: var(--met-brand); }"));
    assert_eq!(theme.variant_color(&Variant::Custom("brand".into())), "#3");
    assert_eq!(Palette::dark(), Theme::dark().palette);
}
