//! The decisions of the interface components: keyboard shortcuts data, the
//! command palette's entries and keyboard navigation, leader-menu labels,
//! toast classes and time field limits.
use vstd::prelude::*;
use crate::node::strs;

verus! {

broadcast use vstd::string::group_string_axioms;

/// A single keyboard shortcut.
#[derive(Clone, Debug, PartialEq)]
pub struct Shortcut {
    /// Key combination (e.g. "Ctrl+C", "Arrow Keys")
    pub key: String,
    /// What the shortcut does
    pub description: String,
}

impl Shortcut {
    pub fn new(key: &str, description: &str) -> (r: Shortcut)
        ensures
            r.key@ == key@,
            r.description@ == description@,
    {
        Shortcut { key: key.to_string(), description: description.to_string() }
    }
}

/// A group of related shortcuts.
#[derive(Clone, Debug, PartialEq)]
pub struct ShortcutSection {
    pub title: String,
    pub shortcuts: Vec<Shortcut>,
}

impl ShortcutSection {
    pub fn new(title: &str, shortcuts: Vec<Shortcut>) -> (r: ShortcutSection)
        ensures
            r.title@ == title@,
            r.shortcuts@ == shortcuts@,
    {
        ShortcutSection { title: title.to_string(), shortcuts }
    }
}

/// The shortcuts of a section as key and description pairs.
pub open spec fn shortcut_pairs(s: Seq<Shortcut>) -> Seq<(Seq<char>, Seq<char>)> {
    s.map_values(|x: Shortcut| (x.key@, x.description@))
}

/// The default sections: each title with its key and description pairs.
pub open spec fn default_section_specs() -> Seq<(Seq<char>, Seq<(Seq<char>, Seq<char>)>)> {
    seq![
        (
            "Navigation"@,
            seq![
                ("Arrow Keys"@, "Move selection"@),
                ("Home / End"@, "Start / end of row"@),
                ("Page Up / Down"@, "Jump 10 rows"@),
                ("Ctrl+Home / End"@, "First / last cell"@),
            ],
        ),
        ("Selection"@, seq![("Enter"@, "Select"@), ("Escape"@, "Cancel / clear"@), ("Ctrl+A"@, "Select all"@)]),
        ("Clipboard"@, seq![("Ctrl+C"@, "Copy"@), ("Ctrl+V"@, "Paste"@), ("Ctrl+X"@, "Cut"@)]),
        (
            "Search"@,
            seq![("Ctrl+F"@, "Open search"@), ("F3"@, "Next result"@), ("Shift+F3"@, "Previous result"@)],
        ),
    ]
}

/// Default shortcut sections (generic editing shortcuts).
pub fn default_sections() -> (r: Vec<ShortcutSection>)
    ensures
        r@.len() == default_section_specs().len(),
        forall|i: int|
            0 <= i < r@.len() ==> (#[trigger] r@[i].title@, shortcut_pairs(r@[i].shortcuts@))
                == default_section_specs()[i],
{
    let navigation = ShortcutSection::new(
        "Navigation",
        vec![
            Shortcut::new("Arrow Keys", "Move selection"),
            Shortcut::new("Home / End", "Start / end of row"),
            Shortcut::new("Page Up / Down", "Jump 10 rows"),
            Shortcut::new("Ctrl+Home / End", "First / last cell"),
        ],
    );
    let selection = ShortcutSection::new(
        "Selection",
        vec![
            Shortcut::new("Enter", "Select"),
            Shortcut::new("Escape", "Cancel / clear"),
            Shortcut::new("Ctrl+A", "Select all"),
        ],
    );
    let clipboard = ShortcutSection::new(
        "Clipboard",
        vec![
            Shortcut::new("Ctrl+C", "Copy"),
            Shortcut::new("Ctrl+V", "Paste"),
            Shortcut::new("Ctrl+X", "Cut"),
        ],
    );
    let search = ShortcutSection::new(
        "Search",
        vec![
            Shortcut::new("Ctrl+F", "Open search"),
            Shortcut::new("F3", "Next result"),
            Shortcut::new("Shift+F3", "Previous result"),
        ],
    );
    proof {
        assert(shortcut_pairs(navigation.shortcuts@) =~= default_section_specs()[0].1);
        assert(shortcut_pairs(selection.shortcuts@) =~= default_section_specs()[1].1);
        assert(shortcut_pairs(clipboard.shortcuts@) =~= default_section_specs()[2].1);
        assert(shortcut_pairs(search.shortcuts@) =~= default_section_specs()[3].1);
    }
    vec![navigation, selection, clipboard, search]
}

/// Severity of a toast.
#[derive(Debug, Clone, Copy, PartialEq, Eq)]
pub enum ToastLevel {
    Info,
    Success,
    Warning,
    Error,
}

/// The CSS class of a toast level.
pub open spec fn toast_level_class(level: ToastLevel) -> Seq<char> {
    match level {
        ToastLevel::Info => "met-toast-info"@,
        ToastLevel::Success => "met-toast-success"@,
        ToastLevel::Warning => "met-toast-warning"@,
        ToastLevel::Error => "met-toast-error"@,
    }
}

impl ToastLevel {
    /// The CSS class of this level.
    pub fn class(&self) -> (r: &'static str)
        ensures
            r@ == toast_level_class(*self),
    {
        match self {
            ToastLevel::Info => "met-toast-info",
            ToastLevel::Success => "met-toast-success",
            ToastLevel::Warning => "met-toast-warning",
            ToastLevel::Error => "met-toast-error",
        }
    }
}

/// The classes of a toast element: `met-toast`, the level's class and the
/// caller's extra classes, separated by spaces.
pub fn toast_class(level: ToastLevel, extra: &str) -> (r: String)
    ensures
        r@ == "met-toast "@ + toast_level_class(level) + " "@ + extra@,
{
    String::from_str("met-toast ").concat(level.class()).concat(" ").concat(extra)
}

/// A single command palette entry.
#[derive(Debug, Clone, PartialEq)]
pub struct PaletteItem {
    pub id: String,
    pub label: String,
    pub shortcut: Option<String>,
    pub icon: Option<String>,
    pub group: Option<String>,
}

impl PaletteItem {
    pub fn new(id: &str, label: &str) -> (r: PaletteItem)
        ensures
            r.id@ == id@,
            r.label@ == label@,
            r.shortcut is None,
            r.icon is None,
            r.group is None,
    {
        PaletteItem { id: id.to_string(), label: label.to_string(), shortcut: None, icon: None, group: None }
    }

    pub fn shortcut(self, s: &str) -> (r: PaletteItem)
        ensures
            r.shortcut matches Some(x) && x@ == s@,
            r.id == self.id,
            r.label == self.label,
            r.icon == self.icon,
            r.group == self.group,
    {
        let mut me = self;
        me.shortcut = Some(s.to_string());
        me
    }

    pub fn icon(self, i: &str) -> (r: PaletteItem)
        ensures
            r.icon matches Some(x) && x@ == i@,
            r.id == self.id,
            r.label == self.label,
            r.shortcut == self.shortcut,
            r.group == self.group,
    {
        let mut me = self;
        me.icon = Some(i.to_string());
        me
    }

    pub fn group(self, g: &str) -> (r: PaletteItem)
        ensures
            r.group matches Some(x) && x@ == g@,
            r.id == self.id,
            r.label == self.label,
            r.shortcut == self.shortcut,
            r.icon == self.icon,
    {
        let mut me = self;
        me.group = Some(g.to_string());
        me
    }
}

/// Keys the command palette reacts to.
#[derive(Debug, Clone, Copy, PartialEq, Eq)]
pub enum PaletteKey {
    Escape,
    ArrowDown,
    ArrowUp,
    Enter,
    Other,
}

/// What the palette does after a key.
#[derive(Debug, Clone, Copy, PartialEq, Eq)]
pub enum PaletteAction {
    /// Close the palette.
    Close,
    /// Select the result at this position, if there is one.
    Select(usize),
    /// Nothing beyond moving the highlight.
    Stay,
}

/// The new highlighted position and action after a key.
pub open spec fn palette_step(selected: usize, result_count: usize, key: PaletteKey) -> (usize, PaletteAction) {
    match key {
        PaletteKey::Escape => (selected, PaletteAction::Close),
        PaletteKey::ArrowDown => (
            if result_count > 0 { ((selected + 1) % (result_count as int)) as usize } else { selected },
            PaletteAction::Stay,
        ),
        PaletteKey::ArrowUp => (
            if result_count > 0 {
                if selected == 0 { (result_count - 1) as usize } else { (selected - 1) as usize }
            } else {
                selected
            },
            PaletteAction::Stay,
        ),
        PaletteKey::Enter => (selected, PaletteAction::Select(selected)),
        PaletteKey::Other => (selected, PaletteAction::Stay),
    }
}

/// Moving the highlight down and then up (or up and then down) returns it
/// to where it was, and it stays among the results.
pub proof fn law_palette_down_up(selected: usize, result_count: usize)
    requires
        selected < result_count,
    ensures
        palette_step(palette_step(selected, result_count, PaletteKey::ArrowDown).0, result_count, PaletteKey::ArrowUp).0
            == selected,
        palette_step(palette_step(selected, result_count, PaletteKey::ArrowUp).0, result_count, PaletteKey::ArrowDown).0
            == selected,
        palette_step(selected, result_count, PaletteKey::ArrowDown).0 < result_count,
        palette_step(selected, result_count, PaletteKey::ArrowUp).0 < result_count,
{
    let n = result_count as int;
    if selected + 1 < result_count {
        vstd::arithmetic::div_mod::lemma_small_mod((selected + 1) as nat, n as nat);
    } else {
        vstd::arithmetic::div_mod::lemma_mod_self_0(n);
    }
    if selected > 0 {
        vstd::arithmetic::div_mod::lemma_small_mod(selected as nat, n as nat);
    } else {
        vstd::arithmetic::div_mod::lemma_mod_self_0(n);
    }
}

/// The palette's reaction to a key: the new highlighted position among
/// `result_count` results, and what to do. Down and up wrap around.
pub fn palette_key(selected: usize, result_count: usize, key: PaletteKey) -> (r: (usize, PaletteAction))
    requires
        key == PaletteKey::ArrowDown && result_count > 0 ==> selected < usize::MAX,
    ensures
        r == palette_step(selected, result_count, key),
{
    match key {
        PaletteKey::Escape => (selected, PaletteAction::Close),
        PaletteKey::ArrowDown => {
            if result_count > 0 {
                ((selected + 1) % result_count, PaletteAction::Stay)
            } else {
                (selected, PaletteAction::Stay)
            }
        },
        PaletteKey::ArrowUp => {
            if result_count > 0 {
                (if selected == 0 { result_count - 1 } else { selected - 1 }, PaletteAction::Stay)
            } else {
                (selected, PaletteAction::Stay)
            }
        },
        PaletteKey::Enter => (selected, PaletteAction::Select(selected)),
        PaletteKey::Other => (selected, PaletteAction::Stay),
    }
}

/// The title of the leader menu: `Space`, then the submenus entered, each
/// after ` › `.
pub open spec fn leader_title_spec(crumbs: Seq<Seq<char>>) -> Seq<char>
    decreases crumbs.len(),
{
    if crumbs.len() == 0 {
        "Space"@
    } else {
        leader_title_spec(crumbs.drop_last()) + " › "@ + crumbs.last()
    }
}

/// The title of the leader menu for the submenus entered so far.
pub fn leader_title(breadcrumb: &Vec<String>) -> (r: String)
    ensures
        r@ == leader_title_spec(strs(breadcrumb@)),
{
    let mut t = String::from_str("Space");
    let mut i: usize = 0;
    while i < breadcrumb.len()
        invariant
            i <= breadcrumb@.len(),
            t@ == leader_title_spec(strs(breadcrumb@).subrange(0, i as int)),
        decreases breadcrumb@.len() - i,
    {
        t = t.concat(" › ").concat(breadcrumb[i].as_str());
        assert(strs(breadcrumb@).subrange(0, i + 1).drop_last() =~= strs(breadcrumb@).subrange(0, i as int));
        i = i + 1;
    }
    assert(strs(breadcrumb@).subrange(0, i as int) =~= strs(breadcrumb@));
    t
}

/// The hint of the leader menu: escape goes back in a submenu and closes at
/// the top.
pub fn leader_hint(depth: usize) -> (r: &'static str)
    ensures
        r@ == (if depth > 0 { "esc back"@ } else { "esc close"@ }),
{
    if depth > 0 {
        "esc back"
    } else {
        "esc close"
    }
}

/// The character a key event names, when it names exactly one.
pub fn single_char(key: &str) -> (r: Option<char>)
    ensures
        r == (if key@.len() == 1 { Some(key@[0]) } else { None::<char> }),
{
    if key.unicode_len() == 1 {
        Some(key.get_char(0))
    } else {
        None
    }
}

/// An hour as the time field keeps it: at most 23.
pub fn clamp_hours(h: u8) -> (r: u8)
    ensures
        r == (if h > 23 { 23 } else { h }),
{
    if h > 23 {
        23
    } else {
        h
    }
}

/// A minute as the time field keeps it: at most 59.
pub fn clamp_minutes(m: u8) -> (r: u8)
    ensures
        r == (if m > 59 { 59 } else { m }),
{
    if m > 59 {
        59
    } else {
        m
    }
}

/// Value of a run of decimal digits.
pub open spec fn digits_value(s: Seq<char>) -> int
    decreases s.len(),
{
    if s.len() == 0 {
        0
    } else {
        digits_value(s.drop_last()) * 10 + (s.last() as int - '0' as int)
    }
}

/// Whether every character is a decimal digit.
pub open spec fn all_digits(s: Seq<char>) -> bool {
    forall|i: int| 0 <= i < s.len() ==> '0' <= #[trigger] s[i] <= '9'
}

/// A number as `str::parse::<u8>` reads it: an optional `+`, then one or
/// more decimal digits, of value at most 255.
pub open spec fn parse_u8_spec(s: Seq<char>) -> Option<u8> {
    let d = if s.len() > 0 && s[0] == '+' { s.drop_first() } else { s };
    if d.len() > 0 && all_digits(d) && digits_value(d) <= 255 {
        Some(digits_value(d) as u8)
    } else {
        None
    }
}

proof fn lemma_digits_value_nonneg(s: Seq<char>)
    requires
        all_digits(s),
    ensures
        digits_value(s) >= 0,
    decreases s.len(),
{
    if s.len() > 0 {
        assert(all_digits(s.drop_last())) by {
            assert forall|i: int| 0 <= i < s.drop_last().len() implies '0' <= #[trigger] s.drop_last()[i] <= '9' by {
                assert(s.drop_last()[i] == s[i]);
            }
        }
        lemma_digits_value_nonneg(s.drop_last());
        assert('0' <= s[s.len() - 1] <= '9');
    }
}

/// Read a number the way `str::parse::<u8>` does.
pub fn parse_u8(text: &str) -> (r: Option<u8>)
    ensures
        r == parse_u8_spec(text@),
{
    let cs = crate::text::chars_of(text);
    let start: usize = if cs.len() > 0 && cs[0] == '+' { 1 } else { 0 };
    let ghost d = if text@.len() > 0 && text@[0] == '+' { text@.drop_first() } else { text@ };
    assert(d =~= cs@.subrange(start as int, cs@.len() as int));
    if start >= cs.len() {
        return None;
    }
    let mut val: u32 = 0;
    let mut i: usize = start;
    while i < cs.len()
        invariant
            start <= i <= cs@.len(),
            d == cs@.subrange(start as int, cs@.len() as int),
            d == (if text@.len() > 0 && text@[0] == '+' { text@.drop_first() } else { text@ }),
            all_digits(cs@.subrange(start as int, i as int)),
            val == (if digits_value(cs@.subrange(start as int, i as int)) > 256 { 256 } else { digits_value(
                cs@.subrange(start as int, i as int),
            ) }),
        decreases cs@.len() - i,
    {
        let c = cs[i];
        let ghost pre = cs@.subrange(start as int, i as int);
        let ghost next = cs@.subrange(start as int, i + 1);
        assert(next.drop_last() =~= pre);
        if c < '0' || c > '9' {
            assert(d[(i - start) as int] == c);
            assert(!all_digits(d));
            return None;
        }
        assert(all_digits(next)) by {
            assert forall|k: int| 0 <= k < next.len() implies '0' <= #[trigger] next[k] <= '9' by {
                if k < pre.len() {
                    assert(next[k] == pre[k]);
                }
            }
        }
        proof {
            lemma_digits_value_nonneg(pre);
        }
        let digit: u32 = (c as u32) - ('0' as u32);
        let ghost dv = digits_value(pre);
        assert(digits_value(next) == dv * 10 + digit);
        if val >= 256 {
            assert(dv * 10 + digit >= 256) by (nonlinear_arith)
                requires
                    dv >= 256,
                    digit >= 0,
            ;
            val = 256;
        } else {
            let nv = val * 10 + digit;
            val = if nv > 256 { 256 } else { nv };
        }
        i = i + 1;
    }
    assert(cs@.subrange(start as int, i as int) =~= d);
    if val <= 255 {
        Some(val as u8)
    } else {
        None
    }
}

/// The field of a time input that was typed into.
#[derive(Clone, Copy, Debug, PartialEq, Eq)]
pub enum TimeField {
    Hours,
    Minutes,
}

/// The time a time input holds, and hands to its change handler, after
/// `text` is typed into one of its fields: nothing changes unless the text
/// reads as a number, which is then kept within the field's limit.
pub fn time_input_change(hours: u8, minutes: u8, field: TimeField, text: &str) -> (r: Option<(u8, u8)>)
    ensures
        r == match parse_u8_spec(text@) {
            None => None,
            Some(x) => match field {
                TimeField::Hours => Some((if x > 23 { 23u8 } else { x }, minutes)),
                TimeField::Minutes => Some((hours, if x > 59 { 59u8 } else { x })),
            },
        },
{
    match parse_u8(text) {
        None => None,
        Some(x) => match field {
            TimeField::Hours => Some((clamp_hours(x), minutes)),
            TimeField::Minutes => Some((hours, clamp_minutes(x))),
        },
    }
}


// ---------------------------------------------------------------------------
// Ranking palette matches
// ---------------------------------------------------------------------------

/// Whether `r` lists the matching items (those with a score) by score from
/// high to low, items with equal scores in their original order.
pub open spec fn ranked_matches(scores: Seq<Option<i32>>, r: Seq<(usize, i32)>) -> bool {
    &&& forall|k: int| 0 <= k < r.len() ==> #[trigger] r[k].0 < scores.len() && scores[r[k].0 as int] == Some(r[k].1)
    &&& forall|i: int| 0 <= i < scores.len() && #[trigger] scores[i] is Some ==> exists|k: int| 0 <= k < r.len() && r[k].0 == i
    &&& forall|a: int, b: int| 0 <= a < b < r.len() ==> r[a].1 >= r[b].1
    &&& forall|a: int, b: int| 0 <= a < b < r.len() && r[a].1 == r[b].1 ==> r[a].0 < r[b].0
}

/// The matching items (by position) with their scores, best first; items
/// with equal scores keep their order.
pub fn rank_matches(scores: &Vec<Option<i32>>) -> (r: Vec<(usize, i32)>)
    ensures
        ranked_matches(scores@, r@),
{
    let mut out: Vec<(usize, i32)> = Vec::new();
    let mut i: usize = 0;
    while i < scores.len()
        invariant
            i <= scores@.len(),
            ranked_matches(scores@.subrange(0, i as int), out@),
            forall|k: int| 0 <= k < out@.len() ==> #[trigger] out@[k].0 < i,
        decreases scores@.len() - i,
    {
        let ghost sub = scores@.subrange(0, i as int);
        let ghost next = scores@.subrange(0, i + 1);
        match scores[i] {
            Some(s) => {
                let ghost o = out@;
                let mut j: usize = 0;
                while j < out.len() && out[j].1 >= s
                    invariant
                        j <= out@.len(),
                        o == out@,
                        forall|a: int| 0 <= a < j ==> o[a].1 >= s,
                    decreases out@.len() - j,
                {
                    j = j + 1;
                }
                out.insert(j, (i, s));
                proof {
                    lemma_rank_insert(sub, o, j as int, s);
                    assert(next =~= sub.push(Some(s)));
                }
            },
            None => {
                proof {
                    assert(next =~= sub.push(None));
                    assert forall|k: int| 0 <= k < out@.len() implies #[trigger] out@[k].0 < next.len()
                        && next[out@[k].0 as int] == Some(out@[k].1) by {
                        assert(sub[out@[k].0 as int] == next[out@[k].0 as int]);
                    }
                    assert forall|q: int| 0 <= q < next.len() && #[trigger] next[q] is Some implies exists|k: int|
                        0 <= k < out@.len() && out@[k].0 == q by {
                        assert(q < i);
                        assert(sub[q] == next[q]);
                    }
                }
            },
        }
        i = i + 1;
    }
    assert(scores@.subrange(0, i as int) =~= scores@);
    out
}

/// The palette's list for a query: with an empty query every item, in order,
/// with score 0; otherwise the matching items ranked as `rank_matches` does,
/// where `scores` holds each item's match score against the query.
pub fn score_items(item_count: usize, query: &str, scores: &Vec<Option<i32>>) -> (r: Vec<(usize, i32)>)
    ensures
        query@.len() == 0 ==> r@ == Seq::new(item_count as nat, |i: int| (i as usize, 0i32)),
        query@.len() != 0 ==> ranked_matches(scores@, r@),
{
    if query.is_empty() {
        let mut out: Vec<(usize, i32)> = Vec::new();
        let mut i: usize = 0;
        while i < item_count
            invariant
                i <= item_count,
                out@ == Seq::new(i as nat, |k: int| (k as usize, 0i32)),
            decreases item_count - i,
        {
            out.push((i, 0));
            assert(out@ =~= Seq::new((i + 1) as nat, |k: int| (k as usize, 0i32)));
            i = i + 1;
        }
        out
    } else {
        rank_matches(scores)
    }
}

/// Inserting the next item before the first smaller score keeps the ranking.
proof fn lemma_rank_insert(sub: Seq<Option<i32>>, o: Seq<(usize, i32)>, j: int, s: i32)
    requires
        ranked_matches(sub, o),
        sub.len() <= usize::MAX,
        forall|k: int| 0 <= k < o.len() ==> #[trigger] o[k].0 < sub.len(),
        0 <= j <= o.len(),
        forall|a: int| 0 <= a < j ==> o[a].1 >= s,
        j < o.len() ==> o[j].1 < s,
    ensures
        ranked_matches(sub.push(Some(s)), o.insert(j, (sub.len() as usize, s))),
        forall|k: int|
            0 <= k < o.insert(j, (sub.len() as usize, s)).len() ==> #[trigger] o.insert(j, (sub.len() as usize, s))[k].0
                < sub.len() + 1,
{
    let x = (sub.len() as usize, s);
    let n = o.insert(j, x);
    let next = sub.push(Some(s));
    assert forall|k: int| 0 <= k < n.len() implies #[trigger] n[k].0 < next.len() && next[n[k].0 as int] == Some(n[k].1) by {
        if k < j {
            assert(n[k] == o[k]);
            assert(next[o[k].0 as int] == sub[o[k].0 as int]);
        } else if k > j {
            assert(n[k] == o[k - 1]);
            assert(next[o[k - 1].0 as int] == sub[o[k - 1].0 as int]);
        }
    }
    assert forall|q: int| 0 <= q < next.len() && #[trigger] next[q] is Some implies exists|k: int|
        0 <= k < n.len() && n[k].0 == q by {
        if q == sub.len() {
            assert(n[j].0 == q);
        } else {
            assert(next[q] == sub[q]);
            assert(sub[q] is Some);
            let k = choose|k: int| 0 <= k < o.len() && o[k].0 == q;
            if k < j {
                assert(n[k] == o[k]);
            } else {
                assert(n[k + 1] == o[k]);
            }
        }
    }
    assert forall|a: int, b: int| 0 <= a < b < n.len() implies n[a].1 >= n[b].1 by {
        if b < j {
            assert(n[a] == o[a] && n[b] == o[b]);
        } else if b == j {
            assert(n[a] == o[a]);
        } else if a < j {
            assert(n[a] == o[a] && n[b] == o[b - 1]);
            assert(o[j].1 >= o[b - 1].1);
        } else if a == j {
            assert(n[b] == o[b - 1]);
            assert(o[j].1 >= o[b - 1].1);
        } else {
            assert(n[a] == o[a - 1] && n[b] == o[b - 1]);
        }
    }
    assert forall|a: int, b: int| 0 <= a < b < n.len() && n[a].1 == n[b].1 implies n[a].0 < n[b].0 by {
        if b < j {
            assert(n[a] == o[a] && n[b] == o[b]);
        } else if b == j {
            assert(n[a] == o[a]);
        } else if a < j {
            assert(n[a] == o[a] && n[b] == o[b - 1]);
        } else if a == j {
            assert(n[b] == o[b - 1]);
            assert(o[j].1 >= o[b - 1].1);
        } else {
            assert(n[a] == o[a - 1] && n[b] == o[b - 1]);
        }
    }
    assert forall|k: int| 0 <= k < n.len() implies #[trigger] n[k].0 < sub.len() + 1 by {
        if k < j {
            assert(n[k] == o[k]);
        } else if k > j {
            assert(n[k] == o[k - 1]);
        }
    }
}

} // verus!
