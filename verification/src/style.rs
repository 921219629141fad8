//! Component sizes and visual variants, with the CSS classes they emit, and
//! themes: palettes and design tokens emitted as CSS custom properties.
use vstd::prelude::*;
use crate::node::pairs;
use crate::text::chars_of;

verus! {

/// Component sizing.
#[derive(Debug, Clone, Copy, PartialEq, Eq)]
pub enum Size {
    Xs,
    Sm,
    Md,
    Lg,
    Xl,
}

/// The CSS class of a size.
pub open spec fn size_class(s: Size) -> Seq<char> {
    match s {
        Size::Xs => "met-xs"@,
        Size::Sm => "met-sm"@,
        Size::Md => "met-md"@,
        Size::Lg => "met-lg"@,
        Size::Xl => "met-xl"@,
    }
}

impl Size {
    pub fn class(&self) -> (r: &'static str)
        ensures
            r@ == size_class(*self),
    {
        match self {
            Size::Xs => "met-xs",
            Size::Sm => "met-sm",
            Size::Md => "met-md",
            Size::Lg => "met-lg",
            Size::Xl => "met-xl",
        }
    }
}

impl Default for Size {
    fn default() -> (r: Size)
        ensures
            r == Size::Md,
    {
        Size::Md
    }
}

/// Visual variant for components.
///
/// `Custom` names a brand- or domain-specific color and emits the CSS class
/// `met-{name}`.
#[derive(Debug, Clone, PartialEq, Eq)]
pub enum Variant {
    Default,
    Primary,
    Secondary,
    Success,
    Warning,
    Danger,
    /// The ghost style, with a transparent background (class `met-ghost`).
    Transparent,
    Custom(String),
}

/// The CSS class of a variant.
pub open spec fn variant_class(v: Variant) -> Seq<char> {
    match v {
        Variant::Default => "met-default"@,
        Variant::Primary => "met-primary"@,
        Variant::Secondary => "met-secondary"@,
        Variant::Success => "met-success"@,
        Variant::Warning => "met-warning"@,
        Variant::Danger => "met-danger"@,
        Variant::Transparent => "met-ghost"@,
        Variant::Custom(name) => "met-"@ + name@,
    }
}

impl Variant {
    /// CSS class name emitted on the DOM element.
    pub fn class(&self) -> (r: String)
        ensures
            r@ == variant_class(*self),
    {
        match self {
            Variant::Default => String::from_str("met-default"),
            Variant::Primary => String::from_str("met-primary"),
            Variant::Secondary => String::from_str("met-secondary"),
            Variant::Success => String::from_str("met-success"),
            Variant::Warning => String::from_str("met-warning"),
            Variant::Danger => String::from_str("met-danger"),
            Variant::Transparent => String::from_str("met-ghost"),
            Variant::Custom(name) => String::from_str("met-").concat(name.as_str()),
        }
    }
}

impl Default for Variant {
    fn default() -> (r: Variant)
        ensures
            r == Variant::Default,
    {
        Variant::Default
    }
}

/// Color palette for a theme.
#[derive(Debug, Clone, PartialEq)]
pub struct Palette {
    pub bg: String,
    pub fg: String,
    pub primary: String,
    pub secondary: String,
    pub success: String,
    pub warning: String,
    pub danger: String,
    pub muted: String,
    pub border: String,
    /// Extra named colors, by name in alphabetical order; each also gives a
    /// custom variant.
    pub extra: Vec<(String, String)>,
}

/// Design tokens for spacing, radius, and typography.
#[derive(Debug, Clone, PartialEq)]
pub struct Tokens {
    pub radius_sm: String,
    pub radius_md: String,
    pub radius_lg: String,
    pub font_sm: String,
    pub font_md: String,
    pub font_lg: String,
    pub space_xs: String,
    pub space_sm: String,
    pub space_md: String,
    pub space_lg: String,
    pub space_xl: String,
    /// Extra named tokens, by name in alphabetical order.
    pub extra: Vec<(String, String)>,
}

/// Theme configuration.
#[derive(Debug, Clone, PartialEq)]
pub struct Theme {
    pub name: String,
    pub palette: Palette,
    /// Per-component radius, spacing, font-size overrides.
    pub tokens: Tokens,
}

/// The palette's colors, in order.
pub open spec fn palette_values(p: Palette) -> Seq<Seq<char>> {
    seq![p.bg@, p.fg@, p.primary@, p.secondary@, p.success@, p.warning@, p.danger@, p.muted@, p.border@]
}

/// The tokens' values, in order.
pub open spec fn token_values(t: Tokens) -> Seq<Seq<char>> {
    seq![
        t.radius_sm@,
        t.radius_md@,
        t.radius_lg@,
        t.font_sm@,
        t.font_md@,
        t.font_lg@,
        t.space_xs@,
        t.space_sm@,
        t.space_md@,
        t.space_lg@,
        t.space_xl@,
    ]
}

/// The names of the CSS variables a theme sets, after `--met-`.
pub open spec fn css_var_names() -> Seq<Seq<char>> {
    seq![
        "bg"@,
        "fg"@,
        "primary"@,
        "secondary"@,
        "success"@,
        "warning"@,
        "danger"@,
        "muted"@,
        "border"@,
        "radius-sm"@,
        "radius-md"@,
        "radius-lg"@,
        "font-sm"@,
        "font-md"@,
        "font-lg"@,
        "space-xs"@,
        "space-sm"@,
        "space-md"@,
        "space-lg"@,
        "space-xl"@,
    ]
}

/// One line per variable: two spaces, `--met-`, its name, `: `, its value
/// and `;`.
pub open spec fn css_lines(names: Seq<Seq<char>>, values: Seq<Seq<char>>) -> Seq<char>
    decreases names.len(),
{
    if names.len() == 0 || values.len() == 0 {
        Seq::empty()
    } else {
        css_lines(names.drop_last(), values.drop_last()) + "  --met-"@ + names.last() + ": "@
            + values.last() + ";\n"@
    }
}

/// One line per extra value, as for the built-in variables.
pub open spec fn extra_lines(e: Seq<(Seq<char>, Seq<char>)>) -> Seq<char>
    decreases e.len(),
{
    if e.len() == 0 {
        Seq::empty()
    } else {
        extra_lines(e.drop_last()) + "  --met-"@ + e.last().0 + ": "@ + e.last().1 + ";\n"@
    }
}

/// One class rule per extra color, giving elements of its variant that color.
pub open spec fn variant_rules(e: Seq<(Seq<char>, Seq<char>)>) -> Seq<char>
    decreases e.len(),
{
    if e.len() == 0 {
        Seq::empty()
    } else {
        variant_rules(e.drop_last()) + "\n.met-"@ + e.last().0 + " { color: var(--met-"@ + e.last().0 + "); }"@
    }
}

/// The CSS of a theme: its custom properties in a `:root` block (the
/// built-in ones, then the extra colors and the extra tokens), then a class
/// rule for each extra color.
pub open spec fn css_vars(t: Theme) -> Seq<char> {
    ":root {\n"@ + css_lines(css_var_names(), palette_values(t.palette) + token_values(t.tokens)) + extra_lines(
        pairs(t.palette.extra@),
    ) + extra_lines(pairs(t.tokens.extra@)) + "}"@ + variant_rules(pairs(t.palette.extra@))
}

/// Whether `a` comes before `b` in alphabetical (code point) order.
pub open spec fn str_lt(a: Seq<char>, b: Seq<char>) -> bool
    decreases a.len(),
{
    if a.len() == 0 {
        b.len() > 0
    } else if b.len() == 0 {
        false
    } else if a[0] != b[0] {
        a[0] < b[0]
    } else {
        str_lt(a.drop_first(), b.drop_first())
    }
}

/// The first position whose name is not before `k`.
pub open spec fn insert_pos(e: Seq<(Seq<char>, Seq<char>)>, k: Seq<char>) -> int
    decreases e.len(),
{
    if e.len() == 0 || !str_lt(e[0].0, k) {
        0
    } else {
        1 + insert_pos(e.drop_first(), k)
    }
}

/// The named values with `k` set to `v`: an entry named `k` at its place is
/// replaced, else one is inserted there.
pub open spec fn keyed_insert(e: Seq<(Seq<char>, Seq<char>)>, k: Seq<char>, v: Seq<char>) -> Seq<
    (Seq<char>, Seq<char>),
> {
    let j = insert_pos(e, k);
    if j < e.len() && e[j].0 == k {
        e.update(j, (k, v))
    } else {
        e.insert(j, (k, v))
    }
}

/// The value of the first entry named `k`.
pub open spec fn extra_lookup(e: Seq<(Seq<char>, Seq<char>)>, k: Seq<char>) -> Option<Seq<char>>
    decreases e.len(),
{
    if e.len() == 0 {
        None
    } else if e[0].0 == k {
        Some(e[0].1)
    } else {
        extra_lookup(e.drop_first(), k)
    }
}

/// Names strictly in alphabetical order.
pub open spec fn names_sorted(e: Seq<(Seq<char>, Seq<char>)>) -> bool {
    forall|a: int, b: int| 0 <= a < b < e.len() ==> str_lt(e[a].0, e[b].0)
}

/// The palette color a variant resolves to; the ghost style is transparent
/// and a custom variant falls back to the foreground color.
pub open spec fn variant_color_spec(p: Palette, v: Variant) -> Seq<char> {
    match v {
        Variant::Default => p.fg@,
        Variant::Primary => p.primary@,
        Variant::Secondary => p.secondary@,
        Variant::Success => p.success@,
        Variant::Warning => p.warning@,
        Variant::Danger => p.danger@,
        Variant::Transparent => "transparent"@,
        Variant::Custom(name) => match extra_lookup(pairs(p.extra@), name@) {
            Some(c) => c,
            None => p.fg@,
        },
    }
}

/// The default token values.
pub open spec fn default_token_values() -> Seq<Seq<char>> {
    seq![
        "4px"@,
        "6px"@,
        "12px"@,
        "0.875rem"@,
        "1rem"@,
        "1.25rem"@,
        "4px"@,
        "8px"@,
        "16px"@,
        "24px"@,
        "32px"@,
    ]
}

impl Default for Tokens {
    fn default() -> (r: Tokens)
        ensures
            token_values(r) == default_token_values(),
            r.extra@.len() == 0,
    {
        Tokens {
            radius_sm: String::from_str("4px"),
            radius_md: String::from_str("6px"),
            radius_lg: String::from_str("12px"),
            font_sm: String::from_str("0.875rem"),
            font_md: String::from_str("1rem"),
            font_lg: String::from_str("1.25rem"),
            space_xs: String::from_str("4px"),
            space_sm: String::from_str("8px"),
            space_md: String::from_str("16px"),
            space_lg: String::from_str("24px"),
            space_xl: String::from_str("32px"),
            extra: Vec::new(),
        }
    }
}

/// The colors of the dark theme.
pub open spec fn dark_colors() -> Seq<Seq<char>> {
    seq![
        "#0a0a0a"@,
        "#fafafa"@,
        "#3b82f6"@,
        "#6366f1"@,
        "#22c55e"@,
        "#eab308"@,
        "#ef4444"@,
        "#71717a"@,
        "#27272a"@,
    ]
}

/// The colors of the light theme.
pub open spec fn light_colors() -> Seq<Seq<char>> {
    seq![
        "#ffffff"@,
        "#09090b"@,
        "#2563eb"@,
        "#4f46e5"@,
        "#16a34a"@,
        "#ca8a04"@,
        "#dc2626"@,
        "#a1a1aa"@,
        "#e4e4e7"@,
    ]
}

fn palette_of(c: [&str; 9]) -> (r: Palette)
    ensures
        palette_values(r) == c@.map_values(|s: &str| s@),
        r.extra@.len() == 0,
{
    let r = Palette {
        bg: String::from_str(c[0]),
        fg: String::from_str(c[1]),
        primary: String::from_str(c[2]),
        secondary: String::from_str(c[3]),
        success: String::from_str(c[4]),
        warning: String::from_str(c[5]),
        danger: String::from_str(c[6]),
        muted: String::from_str(c[7]),
        border: String::from_str(c[8]),
        extra: Vec::new(),
    };
    assert(palette_values(r) =~= c@.map_values(|s: &str| s@));
    r
}

impl Palette {
    /// The dark palette, with no extra colors.
    pub fn dark() -> (r: Palette)
        ensures
            palette_values(r) == dark_colors(),
            r.extra@.len() == 0,
    {
        palette_of(["#0a0a0a", "#fafafa", "#3b82f6", "#6366f1", "#22c55e", "#eab308", "#ef4444", "#71717a", "#27272a"])
    }

    /// The light palette, with no extra colors.
    pub fn light() -> (r: Palette)
        ensures
            palette_values(r) == light_colors(),
            r.extra@.len() == 0,
    {
        palette_of(["#ffffff", "#09090b", "#2563eb", "#4f46e5", "#16a34a", "#ca8a04", "#dc2626", "#a1a1aa", "#e4e4e7"])
    }
}

impl Theme {
    pub fn dark() -> (r: Theme)
        ensures
            r.name@ == "dark"@,
            palette_values(r.palette) == dark_colors(),
            r.palette.extra@.len() == 0,
            token_values(r.tokens) == default_token_values(),
            r.tokens.extra@.len() == 0,
    {
        Theme { name: String::from_str("dark"), palette: Palette::dark(), tokens: Tokens::default() }
    }

    pub fn light() -> (r: Theme)
        ensures
            r.name@ == "light"@,
            palette_values(r.palette) == light_colors(),
            r.palette.extra@.len() == 0,
            token_values(r.tokens) == default_token_values(),
            r.tokens.extra@.len() == 0,
    {
        Theme { name: String::from_str("light"), palette: Palette::light(), tokens: Tokens::default() }
    }

    /// A builder starting from the dark palette and the default tokens.
    pub fn builder(name: &str) -> (r: ThemeBuilder)
        ensures
            r.pending().name@ == name@,
            palette_values(r.pending().palette) == dark_colors(),
            r.pending().palette.extra@.len() == 0,
            token_values(r.pending().tokens) == default_token_values(),
            r.pending().tokens.extra@.len() == 0,
    {
        ThemeBuilder { theme: Theme { name: name.to_string(), palette: Palette::dark(), tokens: Tokens::default() } }
    }

    /// A theme of a palette with the default tokens.
    pub fn custom(name: &str, palette: Palette) -> (r: Theme)
        ensures
            r.name@ == name@,
            r.palette == palette,
            token_values(r.tokens) == default_token_values(),
            r.tokens.extra@.len() == 0,
    {
        Theme { name: name.to_string(), palette, tokens: Tokens::default() }
    }

    /// The CSS custom properties of this theme, in a `:root` block.
    pub fn to_css_vars(&self) -> (r: String)
        ensures
            r@ == css_vars(*self),
    {
        let p = &self.palette;
        let t = &self.tokens;
        let names = vec![
            "bg", "fg", "primary", "secondary", "success", "warning", "danger", "muted", "border",
            "radius-sm", "radius-md", "radius-lg", "font-sm", "font-md", "font-lg", "space-xs",
            "space-sm", "space-md", "space-lg", "space-xl",
        ];
        let values = vec![
            p.bg.as_str(), p.fg.as_str(), p.primary.as_str(), p.secondary.as_str(),
            p.success.as_str(), p.warning.as_str(), p.danger.as_str(), p.muted.as_str(),
            p.border.as_str(), t.radius_sm.as_str(), t.radius_md.as_str(), t.radius_lg.as_str(),
            t.font_sm.as_str(), t.font_md.as_str(), t.font_lg.as_str(), t.space_xs.as_str(),
            t.space_sm.as_str(), t.space_md.as_str(), t.space_lg.as_str(), t.space_xl.as_str(),
        ];
        let ghost nv = names@.map_values(|s: &str| s@);
        let ghost vv = values@.map_values(|s: &str| s@);
        assert(nv =~= css_var_names());
        assert(vv =~= palette_values(self.palette) + token_values(self.tokens));
        let mut css = String::from_str(":root {\n");
        let mut i: usize = 0;
        while i < names.len()
            invariant
                names@.len() == 20,
                values@.len() == 20,
                i <= 20,
                nv == names@.map_values(|s: &str| s@),
                vv == values@.map_values(|s: &str| s@),
                css@ == ":root {\n"@ + css_lines(nv.subrange(0, i as int), vv.subrange(0, i as int)),
            decreases 20 - i,
        {
            let ghost before = css@;
            css = css.concat("  --met-").concat(names[i]).concat(": ").concat(values[i]).concat(";\n");
            proof {
                let n1 = nv.subrange(0, i + 1);
                let v1 = vv.subrange(0, i + 1);
                assert(n1.drop_last() =~= nv.subrange(0, i as int));
                assert(v1.drop_last() =~= vv.subrange(0, i as int));
                assert(css_lines(n1, v1) == css_lines(nv.subrange(0, i as int), vv.subrange(0, i as int))
                    + "  --met-"@ + nv[i as int] + ": "@ + vv[i as int] + ";\n"@);
                assert(css@ =~= ":root {\n"@ + css_lines(n1, v1));
            }
            i = i + 1;
        }
        assert(nv.subrange(0, 20) =~= nv);
        assert(vv.subrange(0, 20) =~= vv);
        let css = push_extra_lines(css, &self.palette.extra);
        let css = push_extra_lines(css, &self.tokens.extra);
        let css = css.concat("}");
        push_variant_rules(css, &self.palette.extra)
    }

    /// The palette color a variant resolves to.
    pub fn variant_color(&self, variant: &Variant) -> (r: &str)
        ensures
            r@ == variant_color_spec(self.palette, *variant),
    {
        match variant {
            Variant::Default => self.palette.fg.as_str(),
            Variant::Primary => self.palette.primary.as_str(),
            Variant::Secondary => self.palette.secondary.as_str(),
            Variant::Success => self.palette.success.as_str(),
            Variant::Warning => self.palette.warning.as_str(),
            Variant::Danger => self.palette.danger.as_str(),
            Variant::Transparent => "transparent",
            Variant::Custom(name) => match lookup_extra(&self.palette.extra, name) {
                Some(c) => c,
                None => self.palette.fg.as_str(),
            },
        }
    }
}

/// Builds a theme step by step.
pub struct ThemeBuilder {
    theme: Theme,
}

impl ThemeBuilder {
    /// The theme built so far.
    pub closed spec fn pending(&self) -> Theme {
        self.theme
    }

    /// Use this palette (its extra colors included).
    pub fn palette(self, palette: Palette) -> (r: ThemeBuilder)
        ensures
            r.pending() == (Theme { palette, ..self.pending() }),
    {
        let mut b = self;
        b.theme.palette = palette;
        b
    }

    /// Use these tokens (their extra tokens included).
    pub fn tokens(self, tokens: Tokens) -> (r: ThemeBuilder)
        ensures
            r.pending() == (Theme { tokens, ..self.pending() }),
    {
        let mut b = self;
        b.theme.tokens = tokens;
        b
    }

    /// Set an extra color, which also gives the custom variant `name`.
    pub fn extra_color(self, name: &str, value: &str) -> (r: ThemeBuilder)
        ensures
            r.pending().name == self.pending().name,
            r.pending().tokens == self.pending().tokens,
            palette_values(r.pending().palette) == palette_values(self.pending().palette),
            pairs(r.pending().palette.extra@) == keyed_insert(pairs(self.pending().palette.extra@), name@, value@),
    {
        let mut b = self;
        insert_extra(&mut b.theme.palette.extra, name.to_string(), value.to_string());
        b
    }

    /// Set an extra token.
    pub fn extra_token(self, name: &str, value: &str) -> (r: ThemeBuilder)
        ensures
            r.pending().name == self.pending().name,
            r.pending().palette == self.pending().palette,
            token_values(r.pending().tokens) == token_values(self.pending().tokens),
            pairs(r.pending().tokens.extra@) == keyed_insert(pairs(self.pending().tokens.extra@), name@, value@),
    {
        let mut b = self;
        insert_extra(&mut b.theme.tokens.extra, name.to_string(), value.to_string());
        b
    }

    /// The theme.
    pub fn build(self) -> (r: Theme)
        ensures
            r == self.pending(),
    {
        self.theme
    }
}

/// Whether `a` comes before `b` in alphabetical (code point) order.
fn text_less(a: &String, b: &String) -> (r: bool)
    ensures
        r == str_lt(a@, b@),
{
    let x = chars_of(a.as_str());
    let y = chars_of(b.as_str());
    assert(x@.subrange(0, x@.len() as int) =~= x@);
    assert(y@.subrange(0, y@.len() as int) =~= y@);
    let mut i: usize = 0;
    while i < x.len() && i < y.len() && x[i] == y[i]
        invariant
            i <= x@.len(),
            i <= y@.len(),
            x@ == a@,
            y@ == b@,
            str_lt(a@, b@) == str_lt(x@.subrange(i as int, x@.len() as int), y@.subrange(i as int, y@.len() as int)),
        decreases x@.len() - i,
    {
        let ghost xs = x@.subrange(i as int, x@.len() as int);
        let ghost ys = y@.subrange(i as int, y@.len() as int);
        assert(xs.drop_first() =~= x@.subrange(i + 1, x@.len() as int));
        assert(ys.drop_first() =~= y@.subrange(i + 1, y@.len() as int));
        i = i + 1;
    }
    if i == x.len() {
        i < y.len()
    } else if i == y.len() {
        false
    } else {
        x[i] < y[i]
    }
}

/// Set `k` to `v` among named values kept in alphabetical order.
fn insert_extra(e: &mut Vec<(String, String)>, k: String, v: String)
    ensures
        pairs(final(e)@) == keyed_insert(pairs(old(e)@), k@, v@),
{
    let ghost s = pairs(e@);
    assert(s.subrange(0, s.len() as int) =~= s);
    let mut j: usize = 0;
    while j < e.len() && text_less(&e[j].0, &k)
        invariant
            j <= e@.len(),
            s == pairs(e@),
            insert_pos(s, k@) == j + insert_pos(s.subrange(j as int, s.len() as int), k@),
        decreases e@.len() - j,
    {
        let ghost rest = s.subrange(j as int, s.len() as int);
        assert(rest.drop_first() =~= s.subrange(j + 1, s.len() as int));
        assert(rest[0] == s[j as int]);
        j = j + 1;
    }
    proof {
        let rest = s.subrange(j as int, s.len() as int);
        if j < s.len() {
            assert(rest[0] == s[j as int]);
        }
        assert(insert_pos(s, k@) == j);
    }
    let ghost kv = k@;
    let ghost vv = v@;
    if j < e.len() && e[j].0 == k {
        e.set(j, (k, v));
        assert(pairs(e@) =~= s.update(j as int, (kv, vv)));
    } else {
        e.insert(j, (k, v));
        assert(pairs(e@) =~= s.insert(j as int, (kv, vv)));
    }
}

/// The value of the first entry named `k`.
fn lookup_extra<'a>(e: &'a Vec<(String, String)>, k: &String) -> (r: Option<&'a str>)
    ensures
        match r {
            Some(c) => extra_lookup(pairs(e@), k@) == Some(c@),
            None => extra_lookup(pairs(e@), k@) is None,
        },
{
    let ghost s = pairs(e@);
    assert(s.subrange(0, s.len() as int) =~= s);
    let mut i: usize = 0;
    while i < e.len()
        invariant
            i <= e@.len(),
            s == pairs(e@),
            extra_lookup(s, k@) == extra_lookup(s.subrange(i as int, s.len() as int), k@),
        decreases e@.len() - i,
    {
        let ghost rest = s.subrange(i as int, s.len() as int);
        assert(rest.drop_first() =~= s.subrange(i + 1, s.len() as int));
        assert(rest[0] == s[i as int]);
        if e[i].0 == *k {
            return Some(e[i].1.as_str());
        }
        i = i + 1;
    }
    assert(s.subrange(i as int, s.len() as int) =~= Seq::<(Seq<char>, Seq<char>)>::empty());
    None
}

/// `css` followed by a line per named value.
fn push_extra_lines(css: String, e: &Vec<(String, String)>) -> (r: String)
    ensures
        r@ == css@ + extra_lines(pairs(e@)),
{
    let ghost s = pairs(e@);
    let mut out = css;
    let mut i: usize = 0;
    assert(s.subrange(0, 0) =~= Seq::<(Seq<char>, Seq<char>)>::empty());
    assert(css@ + extra_lines(s.subrange(0, 0)) =~= css@);
    while i < e.len()
        invariant
            i <= e@.len(),
            s == pairs(e@),
            out@ == css@ + extra_lines(s.subrange(0, i as int)),
        decreases e@.len() - i,
    {
        let ghost before = out@;
        out = out.concat("  --met-").concat(e[i].0.as_str()).concat(": ").concat(e[i].1.as_str()).concat(";\n");
        proof {
            let s1 = s.subrange(0, i + 1);
            assert(s1.drop_last() =~= s.subrange(0, i as int));
            assert(s1.last() == s[i as int]);
            assert(out@ =~= css@ + extra_lines(s1));
        }
        i = i + 1;
    }
    assert(s.subrange(0, i as int) =~= s);
    out
}

/// `css` followed by a class rule per extra color.
fn push_variant_rules(css: String, e: &Vec<(String, String)>) -> (r: String)
    ensures
        r@ == css@ + variant_rules(pairs(e@)),
{
    let ghost s = pairs(e@);
    let mut out = css;
    let mut i: usize = 0;
    assert(s.subrange(0, 0) =~= Seq::<(Seq<char>, Seq<char>)>::empty());
    assert(css@ + variant_rules(s.subrange(0, 0)) =~= css@);
    while i < e.len()
        invariant
            i <= e@.len(),
            s == pairs(e@),
            out@ == css@ + variant_rules(s.subrange(0, i as int)),
        decreases e@.len() - i,
    {
        out = out.concat("\n.met-").concat(e[i].0.as_str()).concat(" { color: var(--met-").concat(
            e[i].0.as_str(),
        ).concat("); }");
        proof {
            let s1 = s.subrange(0, i + 1);
            assert(s1.drop_last() =~= s.subrange(0, i as int));
            assert(s1.last() == s[i as int]);
            assert(out@ =~= css@ + variant_rules(s1));
        }
        i = i + 1;
    }
    assert(s.subrange(0, i as int) =~= s);
    out
}

impl Default for Theme {
    fn default() -> (r: Theme)
        ensures
            r.name@ == "dark"@,
            palette_values(r.palette) == dark_colors(),
            r.palette.extra@.len() == 0,
            token_values(r.tokens) == default_token_values(),
            r.tokens.extra@.len() == 0,
    {
        Theme::dark()
    }
}


/// No name comes before itself.
pub proof fn lemma_str_lt_irreflexive(a: Seq<char>)
    ensures
        !str_lt(a, a),
    decreases a.len(),
{
    if a.len() > 0 {
        lemma_str_lt_irreflexive(a.drop_first());
    }
}

/// Alphabetical order is transitive.
pub proof fn lemma_str_lt_transitive(a: Seq<char>, b: Seq<char>, c: Seq<char>)
    requires
        str_lt(a, b),
        str_lt(b, c),
    ensures
        str_lt(a, c),
    decreases a.len(),
{
    if a.len() > 0 && b.len() > 0 && c.len() > 0 && a[0] == b[0] && b[0] == c[0] {
        lemma_str_lt_transitive(a.drop_first(), b.drop_first(), c.drop_first());
    }
}

/// Of two different names, one comes first.
pub proof fn lemma_str_lt_total(a: Seq<char>, b: Seq<char>)
    requires
        a != b,
    ensures
        str_lt(a, b) || str_lt(b, a),
    decreases a.len(),
{
    if a.len() > 0 && b.len() > 0 && a[0] == b[0] {
        if a.drop_first() == b.drop_first() {
            assert(a =~= seq![a[0]] + a.drop_first());
            assert(b =~= seq![b[0]] + b.drop_first());
        }
        lemma_str_lt_total(a.drop_first(), b.drop_first());
    } else if a.len() == 0 && b.len() == 0 {
        assert(a =~= b);
    }
}

proof fn lemma_insert_pos(e: Seq<(Seq<char>, Seq<char>)>, k: Seq<char>)
    ensures
        0 <= insert_pos(e, k) <= e.len(),
        forall|a: int| 0 <= a < insert_pos(e, k) ==> str_lt(#[trigger] e[a].0, k),
        insert_pos(e, k) < e.len() ==> !str_lt(e[insert_pos(e, k)].0, k),
    decreases e.len(),
{
    if e.len() > 0 && str_lt(e[0].0, k) {
        let t = e.drop_first();
        lemma_insert_pos(t, k);
        assert forall|a: int| 0 <= a < insert_pos(e, k) implies str_lt(#[trigger] e[a].0, k) by {
            if a > 0 {
                assert(e[a] == t[a - 1]);
            }
        }
    }
}

proof fn lemma_lookup_first(e: Seq<(Seq<char>, Seq<char>)>, k: Seq<char>, j: int)
    requires
        0 <= j < e.len(),
        e[j].0 == k,
        forall|a: int| 0 <= a < j ==> (#[trigger] e[a]).0 != k,
    ensures
        extra_lookup(e, k) == Some(e[j].1),
    decreases j,
{
    if j > 0 {
        let t = e.drop_first();
        assert forall|a: int| 0 <= a < j - 1 implies (#[trigger] t[a]).0 != k by {
            assert(t[a] == e[a + 1]);
        }
        lemma_lookup_first(t, k, j - 1);
    }
}

/// Setting a named value keeps the names in alphabetical order, each once,
/// and the name then gives that value: the extra colors and tokens are
/// emitted in alphabetical order, and a custom variant resolves to the color
/// last set for it.
pub proof fn law_keyed_insert_sorted(e: Seq<(Seq<char>, Seq<char>)>, k: Seq<char>, v: Seq<char>)
    requires
        names_sorted(e),
    ensures
        names_sorted(keyed_insert(e, k, v)),
        extra_lookup(keyed_insert(e, k, v), k) == Some(v),
{
    lemma_insert_pos(e, k);
    let j = insert_pos(e, k);
    let r = keyed_insert(e, k, v);
    if j < e.len() && e[j].0 == k {
        assert forall|a: int, b: int| 0 <= a < b < r.len() implies str_lt(r[a].0, r[b].0) by {
            assert(r[a].0 == e[a].0 && r[b].0 == e[b].0);
        }
        assert forall|a: int| 0 <= a < j implies (#[trigger] r[a]).0 != k by {
            assert(r[a] == e[a]);
            assert(str_lt(e[a].0, k));
            lemma_str_lt_irreflexive(k);
        }
        lemma_lookup_first(r, k, j);
    } else {
        if j < e.len() {
            lemma_str_lt_total(e[j].0, k);
        }
        assert forall|a: int, b: int| 0 <= a < b < r.len() implies str_lt(r[a].0, r[b].0) by {
            if b < j {
                assert(r[a] == e[a] && r[b] == e[b]);
            } else if b == j {
                assert(r[a] == e[a]);
            } else if a < j {
                assert(r[a] == e[a] && r[b] == e[b - 1]);
                if b - 1 > j {
                    lemma_str_lt_transitive(k, e[j].0, e[b - 1].0);
                }
                lemma_str_lt_transitive(e[a].0, k, e[b - 1].0);
            } else if a == j {
                assert(r[b] == e[b - 1]);
                if b - 1 > j {
                    lemma_str_lt_transitive(k, e[j].0, e[b - 1].0);
                }
            } else {
                assert(r[a] == e[a - 1] && r[b] == e[b - 1]);
            }
        }
        assert forall|a: int| 0 <= a < j implies (#[trigger] r[a]).0 != k by {
            assert(r[a] == e[a]);
            assert(str_lt(e[a].0, k));
            lemma_str_lt_irreflexive(k);
        }
        lemma_lookup_first(r, k, j);
    }
}

} // verus!
