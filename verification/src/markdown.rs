//! Markdown parser: converts markdown text into a block/inline tree.
use vstd::prelude::*;
use crate::text::{
    chars_of, join, join_chars, lemma_lead_ws, lemma_lines_size, lemma_lines_size_append,
    lemma_trail_ws, lines, lines_size, push_char, slice_chars, split_lines, starts2, starts3,
    starts_with2, starts_with3, string_of, trim, trim_chars, trim_start, trim_start_chars,
};

verus! {

broadcast use vstd::string::group_string_axioms;

/// The abstract form of an inline element.
pub ghost enum InlineModel {
    Text(Seq<char>),
    Bold(Seq<InlineModel>),
    Italic(Seq<InlineModel>),
    BoldItalic(Seq<InlineModel>),
    Code(Seq<char>),
    Link { text: Seq<char>, url: Seq<char> },
    Image { alt: Seq<char>, url: Seq<char> },
}

/// Inline markdown element.
#[derive(Debug, PartialEq)]
pub enum Inline {
    Text(String),
    Bold(Vec<Inline>),
    Italic(Vec<Inline>),
    BoldItalic(Vec<Inline>),
    Code(String),
    Link { text: String, url: String },
    Image { alt: String, url: String },
}

pub open spec fn inline_model(x: Inline) -> InlineModel
    decreases x,
{
    match x {
        Inline::Text(s) => InlineModel::Text(s@),
        Inline::Bold(v) => InlineModel::Bold(inline_models(v@)),
        Inline::Italic(v) => InlineModel::Italic(inline_models(v@)),
        Inline::BoldItalic(v) => InlineModel::BoldItalic(inline_models(v@)),
        Inline::Code(s) => InlineModel::Code(s@),
        Inline::Link { text, url } => InlineModel::Link { text: text@, url: url@ },
        Inline::Image { alt, url } => InlineModel::Image { alt: alt@, url: url@ },
    }
}

pub open spec fn inline_models(s: Seq<Inline>) -> Seq<InlineModel>
    decreases s,
{
    if s.len() == 0 {
        Seq::empty()
    } else {
        inline_models(s.drop_last()).push(inline_model(s.last()))
    }
}

impl View for Inline {
    type V = InlineModel;

    open spec fn view(&self) -> InlineModel {
        inline_model(*self)
    }
}

pub proof fn lemma_inline_models_push(s: Seq<Inline>, x: Inline)
    ensures
        inline_models(s.push(x)) == inline_models(s).push(inline_model(x)),
{
    assert(s.push(x).drop_last() =~= s);
}

pub proof fn lemma_inline_models_index(s: Seq<Inline>)
    ensures
        inline_models(s).len() == s.len(),
        forall|i: int| 0 <= i < s.len() ==> #[trigger] inline_models(s)[i] == inline_model(s[i]),
    decreases s.len(),
{
    if s.len() > 0 {
        lemma_inline_models_index(s.drop_last());
    }
}

// ---------------------------------------------------------------------------
// Inline grammar
// ---------------------------------------------------------------------------

/// Pending plain text turned into a text element, when there is any.
pub open spec fn flush(buf: Seq<char>) -> Seq<InlineModel> {
    if buf.len() > 0 {
        seq![InlineModel::Text(buf)]
    } else {
        Seq::empty()
    }
}

/// First position at or after `j` that holds `c`.
pub open spec fn find_from(s: Seq<char>, j: int, c: char) -> Option<int>
    decreases s.len() - j,
{
    if j >= s.len() {
        None
    } else if s[j] == c {
        Some(j)
    } else {
        find_from(s, j + 1, c)
    }
}

pub proof fn lemma_find_from(s: Seq<char>, j: int, c: char)
    requires
        0 <= j,
    ensures
        match find_from(s, j, c) {
            Some(k) => j <= k < s.len() && s[k] == c && forall|m: int| j <= m < k ==> s[m] != c,
            None => forall|m: int| j <= m < s.len() ==> s[m] != c,
        },
    decreases s.len() - j,
{
    if j < s.len() && s[j] != c {
        lemma_find_from(s, j + 1, c);
    }
}

/// `[text](url)` starting at `start`: the text, the url and the position after `)`.
pub open spec fn link_at(s: Seq<char>, start: int) -> Option<(Seq<char>, Seq<char>, int)> {
    if !(0 <= start < s.len() && s[start] == '[') {
        None
    } else {
        match find_from(s, start + 1, ']') {
            None => None,
            Some(c) => if c + 1 >= s.len() || s[c + 1] != '(' {
                None
            } else {
                match find_from(s, c + 2, ')') {
                    None => None,
                    Some(e) => Some((s.subrange(start + 1, c), s.subrange(c + 2, e), e + 1)),
                }
            },
        }
    }
}

pub proof fn lemma_link_at(s: Seq<char>, start: int)
    ensures
        link_at(s, start) matches Some((t, u, e)) ==> start + 3 < e <= s.len(),
{
    if 0 <= start < s.len() && s[start] == '[' {
        lemma_find_from(s, start + 1, ']');
        if let Some(c) = find_from(s, start + 1, ']') {
            if c + 1 < s.len() {
                lemma_find_from(s, c + 2, ')');
            }
        }
    }
}

/// `` `code` `` starting at `start`: the code and the position after the closing backtick.
pub open spec fn backtick_at(s: Seq<char>, start: int) -> Option<(Seq<char>, int)> {
    match find_from(s, start + 1, '`') {
        None => None,
        Some(j) => Some((s.subrange(start + 1, j), j + 1)),
    }
}

/// Whether `count` copies of `m` stand at position `j`.
pub open spec fn run_of(s: Seq<char>, j: int, m: char, count: nat) -> bool {
    forall|p: int| j <= p < j + count ==> #[trigger] s[p] == m
}

/// The first position `j > start`, at or after `from`, where a closing run of
/// `count` markers stands.
pub open spec fn delim_at(s: Seq<char>, from: int, start: int, m: char, count: nat) -> Option<int>
    decreases s.len() + 1 - from,
{
    if from + count > s.len() {
        None
    } else if from > start && run_of(s, from, m, count) {
        Some(from)
    } else {
        delim_at(s, from + 1, start, m, count)
    }
}

pub proof fn lemma_delim_at(s: Seq<char>, from: int, start: int, m: char, count: nat)
    ensures
        delim_at(s, from, start, m, count) matches Some(j) ==> from <= j && start < j && j + count
            <= s.len() && run_of(s, j, m, count),
    decreases s.len() + 1 - from,
{
    if from + count <= s.len() && !(from > start && run_of(s, from, m, count)) {
        lemma_delim_at(s, from + 1, start, m, count);
    }
}

/// Whether `c` can open emphasis.
pub open spec fn is_marker(c: char) -> bool {
    c == '*' || c == '_'
}

/// The image that starts at `i`, if one does.
pub open spec fn image_at(s: Seq<char>, i: int) -> Option<(Seq<char>, Seq<char>, int)> {
    if s[i] == '!' && i + 1 < s.len() && s[i + 1] == '[' {
        link_at(s, i + 1)
    } else {
        None
    }
}

/// The link that starts at `i`, if one does.
pub open spec fn link_here(s: Seq<char>, i: int) -> Option<(Seq<char>, Seq<char>, int)> {
    if s[i] == '[' {
        link_at(s, i)
    } else {
        None
    }
}

/// The inline code that starts at `i`, if one does.
pub open spec fn code_here(s: Seq<char>, i: int) -> Option<(Seq<char>, int)> {
    if s[i] == '`' {
        backtick_at(s, i)
    } else {
        None
    }
}

/// The closing position of `***…***` (or `___…___`) opened at `i`.
pub open spec fn bold_italic_here(s: Seq<char>, i: int) -> Option<int> {
    if i + 2 < s.len() && s[i] == s[i + 1] && s[i] == s[i + 2] && is_marker(s[i]) {
        delim_at(s, i + 3, i + 3, s[i], 3)
    } else {
        None
    }
}

/// The closing position of `**…**` (or `__…__`) opened at `i`.
pub open spec fn bold_here(s: Seq<char>, i: int) -> Option<int> {
    if i + 1 < s.len() && s[i] == s[i + 1] && is_marker(s[i]) {
        delim_at(s, i + 2, i + 2, s[i], 2)
    } else {
        None
    }
}

/// The closing position of `*…*` (or `_…_`) opened at `i`.
pub open spec fn italic_here(s: Seq<char>, i: int) -> Option<int> {
    if is_marker(s[i]) {
        delim_at(s, i + 1, i + 1, s[i], 1)
    } else {
        None
    }
}

/// The inline elements of `s`.
pub open spec fn parse_inl(s: Seq<char>) -> Seq<InlineModel>
    decreases s.len(), s.len() + 1,
{
    scan(s, 0, Seq::empty())
}

/// The position after the element that starts at position `i`, if one does.
pub open spec fn element_end(s: Seq<char>, i: int) -> Option<int> {
    if i < 0 || i >= s.len() {
        None
    } else if let Some((_, _, end)) = image_at(s, i) {
        Some(end)
    } else if let Some((_, _, end)) = link_here(s, i) {
        Some(end)
    } else if let Some((_, end)) = code_here(s, i) {
        Some(end)
    } else if let Some(j) = bold_italic_here(s, i) {
        Some(j + 3)
    } else if let Some(j) = bold_here(s, i) {
        Some(j + 2)
    } else if let Some(j) = italic_here(s, i) {
        Some(j + 1)
    } else {
        None
    }
}

pub proof fn lemma_element_end(s: Seq<char>, i: int)
    ensures
        element_end(s, i) matches Some(end) ==> 0 <= i < end <= s.len(),
{
    if 0 <= i < s.len() {
        lemma_link_at(s, i + 1);
        lemma_link_at(s, i);
        lemma_find_from(s, i + 1, '`');
        lemma_delim_at(s, i + 3, i + 3, s[i], 3);
        lemma_delim_at(s, i + 2, i + 2, s[i], 2);
        lemma_delim_at(s, i + 1, i + 1, s[i], 1);
    }
}

/// The element that starts at position `i` (meaningful where `element_end`
/// finds one).
pub open spec fn element_value(s: Seq<char>, i: int) -> InlineModel
    decreases s.len(), 0int,
{
    if i < 0 || i >= s.len() {
        InlineModel::Text(Seq::empty())
    } else if let Some((alt, url, _)) = image_at(s, i) {
        InlineModel::Image { alt, url }
    } else if let Some((text, url, _)) = link_here(s, i) {
        InlineModel::Link { text, url }
    } else if let Some((code, _)) = code_here(s, i) {
        InlineModel::Code(code)
    } else if let Some(j) = bold_italic_here(s, i) {
        proof {
            lemma_delim_at(s, i + 3, i + 3, s[i], 3);
        }
        InlineModel::BoldItalic(parse_inl(s.subrange(i + 3, j)))
    } else if let Some(j) = bold_here(s, i) {
        proof {
            lemma_delim_at(s, i + 2, i + 2, s[i], 2);
        }
        InlineModel::Bold(parse_inl(s.subrange(i + 2, j)))
    } else if let Some(j) = italic_here(s, i) {
        proof {
            lemma_delim_at(s, i + 1, i + 1, s[i], 1);
        }
        InlineModel::Italic(parse_inl(s.subrange(i + 1, j)))
    } else {
        InlineModel::Text(Seq::empty())
    }
}

/// The inline elements of `s` from position `i` on, with `buf` as pending text.
pub open spec fn scan(s: Seq<char>, i: int, buf: Seq<char>) -> Seq<InlineModel>
    decreases s.len(), s.len() - i,
{
    if i < 0 || i >= s.len() {
        flush(buf)
    } else if let Some(end) = element_end(s, i) {
        proof {
            lemma_element_end(s, i);
        }
        flush(buf) + seq![element_value(s, i)] + scan(s, end, Seq::empty())
    } else {
        scan(s, i + 1, buf.push(s[i]))
    }
}



/// A character that an inline element needs: an image (`![`) and a link
/// need `[`, code a backtick, emphasis `*` or `_`.
pub open spec fn is_inline_marker(c: char) -> bool {
    c == '[' || c == '`' || c == '*' || c == '_'
}

proof fn lemma_scan_plain(s: Seq<char>, i: int, buf: Seq<char>)
    requires
        0 <= i <= s.len(),
        forall|k: int| 0 <= k < s.len() ==> !is_inline_marker(#[trigger] s[k]),
    ensures
        scan(s, i, buf) == flush(buf + s.subrange(i, s.len() as int)),
    decreases s.len() - i,
{
    if i == s.len() {
        assert(buf + s.subrange(i, s.len() as int) =~= buf);
    } else {
        assert(!is_inline_marker(s[i]));
        if i + 1 < s.len() {
            assert(!is_inline_marker(s[i + 1]));
        }
        assert(element_end(s, i) is None);
        lemma_scan_plain(s, i + 1, buf.push(s[i]));
        assert(buf.push(s[i]) + s.subrange(i + 1, s.len() as int) =~= buf + s.subrange(i, s.len() as int));
    }
}

/// Text without any of `[`, backtick, `*`, `_` is one plain text element, or
/// nothing when empty.
pub proof fn law_plain_text_is_one_text(s: Seq<char>)
    requires
        forall|k: int| 0 <= k < s.len() ==> !is_inline_marker(#[trigger] s[k]),
    ensures
        parse_inl(s) == (if s.len() > 0 { seq![InlineModel::Text(s)] } else { Seq::empty() }),
{
    lemma_scan_plain(s, 0, Seq::empty());
    assert(Seq::<char>::empty() + s.subrange(0, s.len() as int) =~= s);
}

/// Whether a list of inline elements holds no empty text and no two texts
/// side by side.
pub open spec fn texts_well_formed(r: Seq<InlineModel>) -> bool {
    &&& forall|k: int| 0 <= k < r.len() ==> !(#[trigger] r[k] matches InlineModel::Text(t) && t.len() == 0)
    &&& forall|k: int| 0 <= k < r.len() - 1 ==> !(#[trigger] r[k] is Text && r[k + 1] is Text)
}

proof fn lemma_element_not_text(s: Seq<char>, i: int)
    requires
        element_end(s, i) is Some,
    ensures
        element_value(s, i) !is Text,
{
}

proof fn lemma_scan_nonempty(s: Seq<char>, i: int, buf: Seq<char>)
    requires
        0 <= i,
        buf.len() > 0 || i < s.len(),
    ensures
        scan(s, i, buf).len() > 0,
    decreases s.len() - i,
{
    if i < s.len() {
        if let Some(end) = element_end(s, i) {
        } else {
            lemma_scan_nonempty(s, i + 1, buf.push(s[i]));
        }
    }
}

proof fn lemma_scan_well_formed(s: Seq<char>, i: int, buf: Seq<char>)
    requires
        0 <= i,
    ensures
        texts_well_formed(scan(s, i, buf)),
    decreases s.len() - i,
{
    if i < s.len() {
        if let Some(end) = element_end(s, i) {
            lemma_element_end(s, i);
            lemma_element_not_text(s, i);
            lemma_scan_well_formed(s, end, Seq::empty());
            let a = flush(buf);
            let e = element_value(s, i);
            let rest = scan(s, end, Seq::empty());
            let r = a + seq![e] + rest;
            assert forall|k: int| 0 <= k < r.len() implies !(#[trigger] r[k] matches InlineModel::Text(t) && t.len() == 0) by {
                if k >= a.len() + 1 {
                    assert(r[k] == rest[k - a.len() - 1]);
                }
            }
            assert forall|k: int| 0 <= k < r.len() - 1 implies !(#[trigger] r[k] is Text && r[k + 1] is Text) by {
                if k >= a.len() + 1 {
                    assert(r[k] == rest[k - a.len() - 1]);
                    assert(r[k + 1] == rest[k + 1 - a.len() - 1]);
                } else if k == a.len() {
                    assert(r[k] == e);
                } else {
                    assert(r[k + 1] == e);
                }
            }
        } else {
            lemma_scan_well_formed(s, i + 1, buf.push(s[i]));
        }
    }
}

/// Inline parsing gives nothing exactly for empty text, never an empty text
/// element, and never two text elements side by side.
pub proof fn law_inline_parse_shape(s: Seq<char>)
    ensures
        (parse_inl(s).len() == 0) <==> (s.len() == 0),
        texts_well_formed(parse_inl(s)),
{
    if s.len() > 0 {
        lemma_scan_nonempty(s, 0, Seq::empty());
    }
    lemma_scan_well_formed(s, 0, Seq::empty());
}

// ---------------------------------------------------------------------------
// Blocks
// ---------------------------------------------------------------------------

/// The abstract form of a block element.
pub ghost enum BlockModel {
    Heading { level: u8, inlines: Seq<InlineModel> },
    Paragraph { inlines: Seq<InlineModel> },
    CodeBlock { language: Option<Seq<char>>, code: Seq<char> },
    Blockquote { blocks: Seq<BlockModel> },
    UnorderedList { items: Seq<Seq<InlineModel>> },
    OrderedList { items: Seq<Seq<InlineModel>> },
    HorizontalRule,
}

/// Block-level markdown element.
#[derive(Debug, PartialEq)]
pub enum Block {
    Heading { level: u8, inlines: Vec<Inline> },
    Paragraph { inlines: Vec<Inline> },
    CodeBlock { language: Option<String>, code: String },
    Blockquote { blocks: Vec<Block> },
    UnorderedList { items: Vec<Vec<Inline>> },
    OrderedList { items: Vec<Vec<Inline>> },
    HorizontalRule,
}

pub open spec fn item_models(s: Seq<Vec<Inline>>) -> Seq<Seq<InlineModel>> {
    s.map_values(|v: Vec<Inline>| inline_models(v@))
}

pub open spec fn opt_chars(o: Option<String>) -> Option<Seq<char>> {
    match o {
        Some(s) => Some(s@),
        None => None,
    }
}

pub open spec fn block_model(b: Block) -> BlockModel
    decreases b,
{
    match b {
        Block::Heading { level, inlines } => BlockModel::Heading {
            level,
            inlines: inline_models(inlines@),
        },
        Block::Paragraph { inlines } => BlockModel::Paragraph { inlines: inline_models(inlines@) },
        Block::CodeBlock { language, code } => BlockModel::CodeBlock {
            language: opt_chars(language),
            code: code@,
        },
        Block::Blockquote { blocks } => BlockModel::Blockquote { blocks: block_models(blocks@) },
        Block::UnorderedList { items } => BlockModel::UnorderedList { items: item_models(items@) },
        Block::OrderedList { items } => BlockModel::OrderedList { items: item_models(items@) },
        Block::HorizontalRule => BlockModel::HorizontalRule,
    }
}

pub open spec fn block_models(s: Seq<Block>) -> Seq<BlockModel>
    decreases s,
{
    if s.len() == 0 {
        Seq::empty()
    } else {
        block_models(s.drop_last()).push(block_model(s.last()))
    }
}

impl View for Block {
    type V = BlockModel;

    open spec fn view(&self) -> BlockModel {
        block_model(*self)
    }
}

pub proof fn lemma_block_models_push(s: Seq<Block>, x: Block)
    ensures
        block_models(s.push(x)) == block_models(s).push(block_model(x)),
{
    assert(s.push(x).drop_last() =~= s);
}

/// A character that may appear in a horizontal rule.
pub open spec fn rule_char(c: char) -> bool {
    c == '-' || c == '*' || c == '_' || c == ' '
}

/// `---`, `***` or `___`, followed by rule characters only.
pub open spec fn is_hr(t: Seq<char>) -> bool {
    (starts3(t, '-') || starts3(t, '*') || starts3(t, '_')) && forall|k: int|
        0 <= k < t.len() ==> rule_char(#[trigger] t[k])
}

/// Number of leading `#`.
pub open spec fn hashes(t: Seq<char>) -> nat
    decreases t.len(),
{
    if t.len() > 0 && t[0] == '#' {
        1 + hashes(t.drop_first())
    } else {
        0
    }
}

/// The heading on a line: one to six `#` after leading whitespace, then a space.
pub open spec fn heading_of(line: Seq<char>) -> Option<BlockModel> {
    let t = trim_start(line);
    let n = hashes(t);
    if 1 <= n <= 6 && n < t.len() && t[n as int] == ' ' {
        Some(
            BlockModel::Heading {
                level: n as u8,
                inlines: parse_inl(t.subrange(n + 1 as int, t.len() as int)),
            },
        )
    } else {
        None
    }
}

/// `- `, `* ` or `+ ` at the start.
pub open spec fn is_ul(t: Seq<char>) -> bool {
    starts2(t, '-', ' ') || starts2(t, '*', ' ') || starts2(t, '+', ' ')
}

/// First position at or after `from` where `a` is followed by `b`.
pub open spec fn pair_from(s: Seq<char>, from: int, a: char, b: char) -> Option<int>
    decreases s.len() - from,
{
    if from < 0 || from + 1 >= s.len() {
        None
    } else if s[from] == a && s[from + 1] == b {
        Some(from)
    } else {
        pair_from(s, from + 1, a, b)
    }
}

pub open spec fn is_ascii_digit(c: char) -> bool {
    '0' <= c && c <= '9'
}

/// The text after a `<digits>. ` prefix, where the first `. ` is preceded by
/// one or more ASCII digits and nothing else.
pub open spec fn ordered_rest(s: Seq<char>) -> Option<Seq<char>> {
    match pair_from(s, 0, '.', ' ') {
        None => None,
        Some(k) => if k > 0 && forall|m: int| 0 <= m < k ==> is_ascii_digit(#[trigger] s[m]) {
            Some(s.subrange(k + 2, s.len() as int))
        } else {
            None
        },
    }
}

/// `> ` at the start, or `>` alone.
pub open spec fn is_quote(t: Seq<char>) -> bool {
    starts2(t, '>', ' ') || t == seq!['>']
}

/// What a quoted line holds.
pub open spec fn quote_body(t: Seq<char>) -> Seq<char> {
    if starts2(t, '>', ' ') {
        t.subrange(2, t.len() as int)
    } else {
        Seq::empty()
    }
}

/// Whether a line ends a paragraph.
pub open spec fn para_break(line: Seq<char>) -> bool {
    let lt = trim(line);
    lt.len() == 0 || heading_of(line) is Some || starts3(lt, '`') || starts2(lt, '>', ' ') || is_ul(
        lt,
    ) || ordered_rest(lt) is Some || is_hr(lt)
}

/// The bodies of the quoted lines at the front of `ls`.
pub open spec fn quote_run(ls: Seq<Seq<char>>) -> Seq<Seq<char>>
    decreases ls.len(),
{
    if ls.len() > 0 && is_quote(trim(ls[0])) {
        seq![quote_body(trim(ls[0]))] + quote_run(ls.drop_first())
    } else {
        Seq::empty()
    }
}

/// The items of the bullet lines at the front of `ls`.
pub open spec fn ul_run(ls: Seq<Seq<char>>) -> Seq<Seq<InlineModel>>
    decreases ls.len(),
{
    if ls.len() > 0 && is_ul(trim(ls[0])) {
        let t = trim(ls[0]);
        seq![parse_inl(t.subrange(2, t.len() as int))] + ul_run(ls.drop_first())
    } else {
        Seq::empty()
    }
}

/// The items of the numbered lines at the front of `ls`.
pub open spec fn ol_run(ls: Seq<Seq<char>>) -> Seq<Seq<InlineModel>>
    decreases ls.len(),
{
    if ls.len() > 0 && ordered_rest(trim(ls[0])) is Some {
        seq![parse_inl(ordered_rest(trim(ls[0])).unwrap())] + ol_run(ls.drop_first())
    } else {
        Seq::empty()
    }
}

/// Number of lines at the front of `ls` that continue a paragraph.
pub open spec fn para_len(ls: Seq<Seq<char>>) -> nat
    decreases ls.len(),
{
    if ls.len() > 0 && !para_break(ls[0]) {
        1 + para_len(ls.drop_first())
    } else {
        0
    }
}

/// Number of lines at the front of `ls` before a closing fence.
pub open spec fn code_len(ls: Seq<Seq<char>>) -> nat
    decreases ls.len(),
{
    if ls.len() > 0 && !starts3(trim(ls[0]), '`') {
        1 + code_len(ls.drop_first())
    } else {
        0
    }
}

pub proof fn lemma_trim_len(l: Seq<char>)
    ensures
        trim(l).len() <= l.len(),
{
    lemma_lead_ws(l);
    lemma_trail_ws(trim_start(l));
}

pub proof fn lemma_run_lens(ls: Seq<Seq<char>>)
    ensures
        quote_run(ls).len() <= ls.len(),
        ul_run(ls).len() <= ls.len(),
        ol_run(ls).len() <= ls.len(),
        para_len(ls) <= ls.len(),
        code_len(ls) <= ls.len(),
    decreases ls.len(),
{
    if ls.len() > 0 {
        lemma_run_lens(ls.drop_first());
    }
}

pub proof fn lemma_lines_size_lower(ls: Seq<Seq<char>>)
    ensures
        lines_size(ls) >= ls.len(),
    decreases ls.len(),
{
    if ls.len() > 0 {
        lemma_lines_size_lower(ls.drop_last());
    }
}

pub proof fn lemma_lines_size_front(ls: Seq<Seq<char>>)
    requires
        ls.len() > 0,
    ensures
        lines_size(ls) == ls[0].len() + 1 + lines_size(ls.drop_first()),
{
    assert(ls =~= seq![ls[0]] + ls.drop_first());
    lemma_lines_size_append(seq![ls[0]], ls.drop_first());
    assert(seq![ls[0]].drop_last() =~= Seq::<Seq<char>>::empty());
    assert(lines_size(Seq::<Seq<char>>::empty()) == 0);
    assert(lines_size(seq![ls[0]]) == ls[0].len() + 1);
}

pub proof fn lemma_lines_size_skip(ls: Seq<Seq<char>>, k: int)
    requires
        0 <= k <= ls.len(),
    ensures
        lines_size(ls.skip(k)) + k <= lines_size(ls),
{
    assert(ls =~= ls.take(k) + ls.skip(k));
    lemma_lines_size_append(ls.take(k), ls.skip(k));
    lemma_lines_size_lower(ls.take(k));
}

pub proof fn lemma_join_len(ls: Seq<Seq<char>>, sep: char)
    requires
        ls.len() > 0,
    ensures
        join(ls, sep).len() + 1 == lines_size(ls),
    decreases ls.len(),
{
    if ls.len() > 1 {
        lemma_join_len(ls.drop_last(), sep);
        assert(join(ls, sep) == join(ls.drop_last(), sep).push(sep) + ls.last());
    } else {
        assert(ls.drop_last() =~= Seq::<Seq<char>>::empty());
        assert(lines_size(Seq::<Seq<char>>::empty()) == 0);
        assert(join(ls, sep) == ls[0]);
    }
    assert(lines_size(ls) == lines_size(ls.drop_last()) + ls.last().len() + 1);
}

pub proof fn lemma_quote_size(ls: Seq<Seq<char>>)
    ensures
        lines_size(quote_run(ls)) + quote_run(ls).len() <= lines_size(ls),
    decreases ls.len(),
{
    if ls.len() > 0 && is_quote(trim(ls[0])) {
        let b = quote_body(trim(ls[0]));
        let r = quote_run(ls.drop_first());
        lemma_quote_size(ls.drop_first());
        lemma_lines_size_front(ls);
        lemma_trim_len(ls[0]);
        assert((seq![b] + r).drop_first() =~= r);
        lemma_lines_size_front(seq![b] + r);
    } else {
        lemma_lines_size_lower(ls);
    }
}

/// The blocks of markdown text.
pub open spec fn parse_md(s: Seq<char>) -> Seq<BlockModel>
    decreases s.len() + 1, 1int,
{
    proof {
        lemma_lines_size(s);
    }
    blocks_from(lines(s))
}

/// The blocks of a sequence of lines.
pub open spec fn blocks_from(ls: Seq<Seq<char>>) -> Seq<BlockModel>
    decreases lines_size(ls), 0int,
{
    if ls.len() == 0 {
        Seq::empty()
    } else {
        let line = ls[0];
        let t = trim(line);
        let rest = ls.drop_first();
        proof {
            lemma_run_lens(ls);
            lemma_run_lens(rest);
            lemma_lines_size_skip(ls, 1);
        }
        if t.len() == 0 {
            blocks_from(rest)
        } else if is_hr(t) {
            seq![BlockModel::HorizontalRule] + blocks_from(rest)
        } else if let Some(h) = heading_of(line) {
            seq![h] + blocks_from(rest)
        } else if starts3(t, '`') {
            let lang = trim(t.subrange(3, t.len() as int));
            let c = code_len(rest);
            let used = if c < rest.len() { c + 1 } else { c };
            proof {
                assert(rest.skip(used as int) =~= ls.skip(1 + used as int));
                lemma_lines_size_skip(ls, 1 + used as int);
            }
            seq![
                BlockModel::CodeBlock {
                    language: if lang.len() == 0 { None } else { Some(lang) },
                    code: join(rest.take(c as int), '\n'),
                },
            ] + blocks_from(rest.skip(used as int))
        } else if is_quote(t) {
            let q = quote_run(ls);
            proof {
                lemma_quote_size(ls);
                lemma_join_len(q, '\n');
                lemma_lines_size_skip(ls, q.len() as int);
            }
            seq![BlockModel::Blockquote { blocks: parse_md(join(q, '\n')) }] + blocks_from(
                ls.skip(q.len() as int),
            )
        } else if is_ul(t) {
            let items = ul_run(ls);
            proof {
                lemma_lines_size_skip(ls, items.len() as int);
            }
            seq![BlockModel::UnorderedList { items }] + blocks_from(ls.skip(items.len() as int))
        } else if ordered_rest(t) is Some {
            let items = ol_run(ls);
            proof {
                lemma_lines_size_skip(ls, items.len() as int);
            }
            seq![BlockModel::OrderedList { items }] + blocks_from(ls.skip(items.len() as int))
        } else {
            let k = para_len(ls);
            proof {
                lemma_lines_size_skip(ls, k as int);
            }
            seq![BlockModel::Paragraph { inlines: parse_inl(join(ls.take(k as int), ' ')) }]
                + blocks_from(ls.skip(k as int))
        }
    }
}

/// Whether a line is a bullet line with marker `m`: after trimming, `m` and a space.
pub open spec fn bullet_line(l: Seq<char>, m: char) -> bool {
    let t = trim(l);
    t.len() >= 2 && t[0] == m && t[1] == ' '
}

proof fn lemma_ul_run_all(ls: Seq<Seq<char>>, m: char)
    requires
        m == '-' || m == '*' || m == '+',
        forall|k: int| 0 <= k < ls.len() ==> bullet_line(#[trigger] ls[k], m),
    ensures
        ul_run(ls) == Seq::new(ls.len(), |k: int| parse_inl(trim(ls[k]).subrange(2, trim(ls[k]).len() as int))),
    decreases ls.len(),
{
    if ls.len() > 0 {
        assert(bullet_line(ls[0], m));
        assert forall|k: int| 0 <= k < ls.drop_first().len() implies bullet_line(#[trigger] ls.drop_first()[k], m) by {
            assert(ls.drop_first()[k] == ls[k + 1]);
        }
        lemma_ul_run_all(ls.drop_first(), m);
        assert(ul_run(ls) =~= Seq::new(ls.len(), |k: int| parse_inl(trim(ls[k]).subrange(2, trim(ls[k]).len() as int))));
    }
}

/// Consecutive bullet lines (`- `, `* ` or `+ ` after trimming, one marker
/// throughout) make one unordered list, one item per line, each item the
/// inline parse of the text after the marker and its space.
pub proof fn law_bullet_lines_make_one_list(ls: Seq<Seq<char>>, m: char)
    requires
        ls.len() > 0,
        m == '-' || m == '*' || m == '+',
        forall|k: int| 0 <= k < ls.len() ==> bullet_line(#[trigger] ls[k], m),
    ensures
        blocks_from(ls) == seq![
            BlockModel::UnorderedList {
                items: Seq::new(ls.len(), |k: int| parse_inl(trim(ls[k]).subrange(2, trim(ls[k]).len() as int))),
            },
        ],
{
    let line = ls[0];
    let t = trim(line);
    assert(bullet_line(line, m));
    lemma_lead_ws(line);
    lemma_trail_ws(trim_start(line));
    let ts = trim_start(line);
    assert(t[0] == ts[0]);
    assert(!is_hr(t));
    assert(hashes(ts) == 0);
    assert(heading_of(line) is None);
    assert(!starts3(t, '`'));
    assert(!is_quote(t));
    assert(is_ul(t));
    lemma_ul_run_all(ls, m);
    let items = ul_run(ls);
    assert(ls.skip(items.len() as int) =~= Seq::<Seq<char>>::empty());
    assert(blocks_from(Seq::<Seq<char>>::empty()) == Seq::<BlockModel>::empty());
    assert(blocks_from(ls) =~= seq![BlockModel::UnorderedList { items }]);
}

// ---------------------------------------------------------------------------
// Inline parsing
// ---------------------------------------------------------------------------

/// Position of the first `c` at or after `j`.
fn find_char(chars: &Vec<char>, j: usize, c: char) -> (r: Option<usize>)
    ensures
        match r {
            Some(k) => k < chars@.len() && find_from(chars@, j as int, c) == Some(k as int),
            None => find_from(chars@, j as int, c) is None,
        },
{
    let mut k = j;
    while k < chars.len() && chars[k] != c
        invariant
            j <= k,
            find_from(chars@, j as int, c) == find_from(chars@, k as int, c),
        decreases chars@.len() - k,
    {
        k = k + 1;
    }
    if k < chars.len() {
        Some(k)
    } else {
        None
    }
}

/// Parse `[text](url)` with the `[` at `start`: the text, the url and the
/// position after the closing `)`.
pub fn try_link_or_image(chars: &Vec<char>, start: usize) -> (r: Option<(String, String, usize)>)
    requires
        start < chars@.len(),
    ensures
        match r {
            Some((t, u, e)) => link_at(chars@, start as int) == Some((t@, u@, e as int)),
            None => link_at(chars@, start as int) is None,
        },
{
    let n = chars.len();
    if chars[start] != '[' {
        return None;
    }
    let close = match find_char(chars, start + 1, ']') {
        Some(k) => k,
        None => return None,
    };
    proof {
        lemma_find_from(chars@, start + 1, ']');
    }
    let text = string_of(&slice_chars(chars, start + 1, close));
    let j = close + 1;
    if j >= chars.len() || chars[j] != '(' {
        return None;
    }
    let url_start = j + 1;
    let url_end = match find_char(chars, url_start, ')') {
        Some(k) => k,
        None => return None,
    };
    proof {
        lemma_find_from(chars@, url_start as int, ')');
    }
    let url = string_of(&slice_chars(chars, url_start, url_end));
    Some((text, url, url_end + 1))
}

/// Parse inline code with the opening backtick at `start`: the code and the
/// position after the closing backtick.
pub fn try_backtick(chars: &Vec<char>, start: usize) -> (r: Option<(String, usize)>)
    requires
        start < usize::MAX,
    ensures
        match r {
            Some((c, e)) => backtick_at(chars@, start as int) == Some((c@, e as int)),
            None => backtick_at(chars@, start as int) is None,
        },
{
    let n = chars.len();
    match find_char(chars, start + 1, '`') {
        Some(j) => {
            proof {
                lemma_find_from(chars@, start + 1, '`');
            }
            let code = string_of(&slice_chars(chars, start + 1, j));
            Some((code, j + 1))
        },
        None => None,
    }
}

/// Look for a closing run of `count` copies of `marker` after `start`: the
/// text before it and the position after it.
pub fn try_delimited(chars: &Vec<char>, start: usize, marker: char, count: usize) -> (r: Option<(String, usize)>)
    requires
        count > 0 || chars@.len() < usize::MAX,
    ensures
        match r {
            Some((inner, e)) => delim_at(chars@, start as int, start as int, marker, count as nat)
                == Some(e - count) && inner@ == chars@.subrange(start as int, e - count),
            None => delim_at(chars@, start as int, start as int, marker, count as nat) is None,
        },
{
    let mut j = start;
    while j <= chars.len() && count <= chars.len() - j
        invariant
            start <= j,
            count > 0 || chars@.len() < usize::MAX,
            delim_at(chars@, start as int, start as int, marker, count as nat) == delim_at(
                chars@,
                j as int,
                start as int,
                marker,
                count as nat,
            ),
        decreases chars@.len() + 1 - j,
    {
        let mut k: usize = 0;
        let mut all_match = true;
        while k < count
            invariant
                j + count <= chars@.len(),
                chars@.len() <= usize::MAX,
                k <= count,
                all_match == run_of(chars@, j as int, marker, k as nat),
            decreases count - k,
        {
            if chars[j + k] != marker {
                all_match = false;
            }
            k = k + 1;
        }
        if all_match && j > start {
            let inner = string_of(&slice_chars(chars, start, j));
            return Some((inner, j + count));
        }
        j = j + 1;
    }
    None
}

/// Move pending text, if there is any, into the result as a text element.
pub fn flush_text(buf: &mut String, result: &mut Vec<Inline>)
    ensures
        final(buf)@ == Seq::<char>::empty(),
        inline_models(final(result)@) == inline_models(old(result)@) + flush(old(buf)@),
{
    if !buf.as_str().is_empty() {
        let t = buf.clone();
        proof {
            lemma_inline_models_push(result@, Inline::Text(t));
        }
        result.push(Inline::Text(t));
        *buf = String::new();
    } else {
        assert(inline_models(result@) + flush(buf@) =~= inline_models(result@));
    }
}

/// Parse inline markdown elements from a text fragment.
pub fn parse_inlines(input: &str) -> (r: Vec<Inline>)
    ensures
        inline_models(r@) == parse_inl(input@),
{
    let chars = chars_of(input);
    parse_inline_chars(&chars)
}

fn parse_inline_chars(chars: &Vec<char>) -> (r: Vec<Inline>)
    ensures
        inline_models(r@) == parse_inl(chars@),
    decreases chars@.len(), 1int,
{
    let ghost s = chars@;
    let mut result: Vec<Inline> = Vec::new();
    let mut i: usize = 0;
    let mut buf = String::new();
    assert(inline_models(result@) + scan(s, 0, buf@) =~= parse_inl(s));
    while i < chars.len()
        invariant
            s == chars@,
            i <= s.len(),
            inline_models(result@) + scan(s, i as int, buf@) == parse_inl(s),
        decreases s.len() - i,
    {
        let ghost before = inline_models(result@);
        let ghost b = buf@;
        match inline_at(chars, i) {
            Some((x, end)) => {
                proof {
                    lemma_element_end(s, i as int);
                }
                flush_text(&mut buf, &mut result);
                proof {
                    lemma_inline_models_push(result@, x);
                }
                result.push(x);
                assert(inline_models(result@) + scan(s, end as int, buf@) =~= before + scan(
                    s,
                    i as int,
                    b,
                ));
                i = end;
            },
            None => {
                push_char(&mut buf, chars[i]);
                i = i + 1;
            },
        }
    }
    flush_text(&mut buf, &mut result);
    assert(inline_models(result@) =~= inline_models(result@) + Seq::<InlineModel>::empty());
    result
}

/// The element that starts at position `i`, with the position after it.
fn inline_at(chars: &Vec<char>, i: usize) -> (r: Option<(Inline, usize)>)
    requires
        i < chars@.len(),
    ensures
        match r {
            Some((x, e)) => element_end(chars@, i as int) == Some(e as int) && x@ == element_value(
                chars@,
                i as int,
            ),
            None => element_end(chars@, i as int) is None,
        },
    decreases chars@.len(), 0int,
{
    let n = chars.len();
    // Image: ![alt](url)
    if chars[i] == '!' && n - i > 1 && chars[i + 1] == '[' {
        if let Some((alt, url, end)) = try_link_or_image(chars, i + 1) {
            return Some((Inline::Image { alt, url }, end));
        }
    }
    // Link: [text](url)
    if chars[i] == '[' {
        if let Some((text, url, end)) = try_link_or_image(chars, i) {
            return Some((Inline::Link { text, url }, end));
        }
    }
    // Inline code: `...`
    if chars[i] == '`' {
        if let Some((code, end)) = try_backtick(chars, i) {
            return Some((Inline::Code(code), end));
        }
    }
    // Bold-italic: ***...*** or ___...___
    if n - i > 2 && chars[i] == chars[i + 1] && chars[i] == chars[i + 2] && (chars[i] == '*'
        || chars[i] == '_') {
        if let Some((inner, end)) = try_delimited(chars, i + 3, chars[i], 3) {
            proof {
                lemma_delim_at(chars@, i + 3, i + 3, chars@[i as int], 3);
            }
            let inner_chars = chars_of(inner.as_str());
            return Some((Inline::BoldItalic(parse_inline_chars(&inner_chars)), end));
        }
    }
    // Bold: **...** or __...__
    if n - i > 1 && chars[i] == chars[i + 1] && (chars[i] == '*' || chars[i] == '_') {
        if let Some((inner, end)) = try_delimited(chars, i + 2, chars[i], 2) {
            proof {
                lemma_delim_at(chars@, i + 2, i + 2, chars@[i as int], 2);
            }
            let inner_chars = chars_of(inner.as_str());
            return Some((Inline::Bold(parse_inline_chars(&inner_chars)), end));
        }
    }
    // Italic: *...* or _..._
    if chars[i] == '*' || chars[i] == '_' {
        if let Some((inner, end)) = try_delimited(chars, i + 1, chars[i], 1) {
            proof {
                lemma_delim_at(chars@, i + 1, i + 1, chars@[i as int], 1);
            }
            let inner_chars = chars_of(inner.as_str());
            return Some((Inline::Italic(parse_inline_chars(&inner_chars)), end));
        }
    }
    None
}

// ---------------------------------------------------------------------------
// Block parsing
// ---------------------------------------------------------------------------

/// The character sequences of a list of lines.
pub open spec fn line_views(ls: Seq<Vec<char>>) -> Seq<Seq<char>> {
    ls.map_values(|l: Vec<char>| l@)
}

pub open spec fn opt_block(b: Option<Block>) -> Seq<BlockModel> {
    match b {
        Some(x) => seq![x@],
        None => Seq::empty(),
    }
}

/// Whether `s` is a horizontal rule.
pub fn is_horizontal_rule(s: &Vec<char>) -> (r: bool)
    ensures
        r == is_hr(s@),
{
    if !(starts_with3(s, '-') || starts_with3(s, '*') || starts_with3(s, '_')) {
        return false;
    }
    let mut k: usize = 0;
    while k < s.len()
        invariant
            k <= s@.len(),
            forall|m: int| 0 <= m < k ==> rule_char(#[trigger] s@[m]),
        decreases s@.len() - k,
    {
        let c = s[k];
        if !(c == '-' || c == '*' || c == '_' || c == ' ') {
            return false;
        }
        k = k + 1;
    }
    true
}

fn count_hashes(t: &Vec<char>) -> (r: usize)
    ensures
        r == hashes(t@),
        r <= t@.len(),
{
    let mut n: usize = 0;
    assert(t@.subrange(0, t@.len() as int) =~= t@);
    while n < t.len() && t[n] == '#'
        invariant
            n <= t@.len(),
            hashes(t@) == n + hashes(t@.subrange(n as int, t@.len() as int)),
        decreases t@.len() - n,
    {
        let ghost u = t@.subrange(n as int, t@.len() as int);
        assert(u.drop_first() =~= t@.subrange(n + 1, t@.len() as int));
        n = n + 1;
    }
    n
}

/// The heading on a line, if it is one.
pub fn try_heading(line: &Vec<char>) -> (r: Option<Block>)
    ensures
        match r {
            Some(b) => heading_of(line@) == Some(b@),
            None => heading_of(line@) is None,
        },
{
    let trimmed = trim_start_chars(line);
    let level = count_hashes(&trimmed);
    if level >= 1 && level <= 6 && level < trimmed.len() && trimmed[level] == ' ' {
        let text = slice_chars(&trimmed, level + 1, trimmed.len());
        let inlines = parse_inline_chars(&text);
        Some(Block::Heading { level: level as u8, inlines })
    } else {
        None
    }
}

/// The text after a `<digits>. ` prefix.
pub fn strip_ordered_prefix(s: &Vec<char>) -> (r: Option<Vec<char>>)
    ensures
        match r {
            Some(rest) => ordered_rest(s@) == Some(rest@),
            None => ordered_rest(s@) is None,
        },
{
    let n = s.len();
    let mut k: usize = 0;
    while n > 1 && k < n - 1 && !(s[k] == '.' && s[k + 1] == ' ')
        invariant
            n == s@.len(),
            k <= n,
            pair_from(s@, 0, '.', ' ') == pair_from(s@, k as int, '.', ' '),
        decreases n - k,
    {
        k = k + 1;
    }
    if n <= 1 || k >= n - 1 {
        return None;
    }
    if k == 0 {
        return None;
    }
    let mut m: usize = 0;
    assert(pair_from(s@, k as int, '.', ' ') == Some(k as int));
    while m < k
        invariant
            0 < k < n - 1,
            pair_from(s@, 0, '.', ' ') == Some(k as int),
            n == s@.len(),
            m <= k,
            forall|q: int| 0 <= q < m ==> is_ascii_digit(#[trigger] s@[q]),
        decreases k - m,
    {
        if !('0' <= s[m] && s[m] <= '9') {
            assert(!is_ascii_digit(s@[m as int]));
            return None;
        }
        m = m + 1;
    }
    Some(slice_chars(s, k + 2, n))
}

/// Whether `s` starts a numbered list item.
pub fn is_ordered_list_item(s: &Vec<char>) -> (r: bool)
    ensures
        r == ordered_rest(s@) is Some,
{
    strip_ordered_prefix(s).is_some()
}

fn is_bullet(t: &Vec<char>) -> (r: bool)
    ensures
        r == is_ul(t@),
{
    starts_with2(t, '-', ' ') || starts_with2(t, '*', ' ') || starts_with2(t, '+', ' ')
}

fn is_quote_line(t: &Vec<char>) -> (r: bool)
    ensures
        r == is_quote(t@),
{
    let r = starts_with2(t, '>', ' ') || (t.len() == 1 && t[0] == '>');
    proof {
        if t@.len() == 1 && t@[0] == '>' {
            assert(t@ =~= seq!['>']);
        }
    }
    r
}

fn ends_paragraph(line: &Vec<char>) -> (r: bool)
    ensures
        r == para_break(line@),
{
    let lt = trim_chars(line);
    lt.len() == 0 || try_heading(line).is_some() || starts_with3(&lt, '`') || starts_with2(
        &lt,
        '>',
        ' ',
    ) || is_bullet(&lt) || is_ordered_list_item(&lt) || is_horizontal_rule(&lt)
}

proof fn lemma_skip_front(lv: Seq<Seq<char>>, j: int)
    requires
        0 <= j < lv.len(),
    ensures
        lv.skip(j).len() > 0,
        lv.skip(j)[0] == lv[j],
        lv.skip(j).drop_first() == lv.skip(j + 1),
{
    assert(lv.skip(j).drop_first() =~= lv.skip(j + 1));
}

proof fn lemma_line_views(ls: Seq<Vec<char>>)
    ensures
        line_views(ls).len() == ls.len(),
        forall|j: int| 0 <= j < ls.len() ==> #[trigger] line_views(ls)[j] == ls[j]@,
{
}

/// Copies of the lines from `a` to `b`.
fn copy_lines(ls: &Vec<Vec<char>>, a: usize, b: usize) -> (r: Vec<Vec<char>>)
    requires
        a <= b <= ls@.len(),
    ensures
        line_views(r@) == line_views(ls@).subrange(a as int, b as int),
{
    let ghost lv = line_views(ls@);
    let mut r: Vec<Vec<char>> = Vec::new();
    let mut j = a;
    while j < b
        invariant
            a <= j <= b,
            b <= ls@.len(),
            lv == line_views(ls@),
            line_views(r@) == lv.subrange(a as int, j as int),
        decreases b - j,
    {
        let l = slice_chars(&ls[j], 0, ls[j].len());
        proof {
            lemma_line_views(ls@);
            assert(ls@[j as int]@.subrange(0, ls@[j as int]@.len() as int) =~= ls@[j as int]@);
        }
        let ghost before = r@;
        r.push(l);
        assert(line_views(r@) =~= line_views(before).push(l@));
        assert(lv.subrange(a as int, j + 1) =~= lv.subrange(a as int, j as int).push(lv[j as int]));
        j = j + 1;
    }
    r
}

/// The bullet items from line `i` on, and the line after them.
fn bullet_items(ls: &Vec<Vec<char>>, i: usize) -> (r: (Vec<Vec<Inline>>, usize))
    requires
        i <= ls@.len(),
    ensures
        item_models(r.0@) == ul_run(line_views(ls@).skip(i as int)),
        r.1 == i + r.0@.len(),
        r.1 <= ls@.len(),
{
    let ghost lv = line_views(ls@);
    let mut items: Vec<Vec<Inline>> = Vec::new();
    let mut j = i;
    assert(item_models(items@) + ul_run(lv.skip(j as int)) =~= ul_run(lv.skip(i as int)));
    while j < ls.len()
        invariant
            i <= j <= ls@.len(),
            lv == line_views(ls@),
            j == i + items@.len(),
            item_models(items@) + ul_run(lv.skip(j as int)) == ul_run(lv.skip(i as int)),
        ensures
            i <= j <= ls@.len(),
            j == i + items@.len(),
            item_models(items@) + ul_run(lv.skip(j as int)) == ul_run(lv.skip(i as int)),
            j == ls@.len() || !is_ul(trim(lv[j as int])),
        decreases ls@.len() - j,
    {
        let l = trim_chars(&ls[j]);
        proof {
            lemma_line_views(ls@);
            lemma_skip_front(lv, j as int);
        }
        if !is_bullet(&l) {
            break;
        }
        let item = parse_inline_chars(&slice_chars(&l, 2, l.len()));
        let ghost before = items@;
        items.push(item);
        assert(item_models(items@) =~= item_models(before).push(inline_models(item@)));
        assert(item_models(items@) + ul_run(lv.skip(j + 1)) =~= item_models(before) + ul_run(
            lv.skip(j as int),
        ));
        j = j + 1;
    }
    assert(ul_run(lv.skip(j as int)) =~= Seq::<Seq<InlineModel>>::empty());
    assert(item_models(items@) =~= item_models(items@) + Seq::<Seq<InlineModel>>::empty());
    (items, j)
}

/// The numbered items from line `i` on, and the line after them.
fn numbered_items(ls: &Vec<Vec<char>>, i: usize) -> (r: (Vec<Vec<Inline>>, usize))
    requires
        i <= ls@.len(),
    ensures
        item_models(r.0@) == ol_run(line_views(ls@).skip(i as int)),
        r.1 == i + r.0@.len(),
        r.1 <= ls@.len(),
{
    let ghost lv = line_views(ls@);
    let mut items: Vec<Vec<Inline>> = Vec::new();
    let mut j = i;
    assert(item_models(items@) + ol_run(lv.skip(j as int)) =~= ol_run(lv.skip(i as int)));
    while j < ls.len()
        invariant
            i <= j <= ls@.len(),
            lv == line_views(ls@),
            j == i + items@.len(),
            item_models(items@) + ol_run(lv.skip(j as int)) == ol_run(lv.skip(i as int)),
        ensures
            i <= j <= ls@.len(),
            j == i + items@.len(),
            item_models(items@) + ol_run(lv.skip(j as int)) == ol_run(lv.skip(i as int)),
            j == ls@.len() || ordered_rest(trim(lv[j as int])) is None,
        decreases ls@.len() - j,
    {
        let l = trim_chars(&ls[j]);
        proof {
            lemma_line_views(ls@);
            lemma_skip_front(lv, j as int);
        }
        let rest = match strip_ordered_prefix(&l) {
            Some(rest) => rest,
            None => break,
        };
        let item = parse_inline_chars(&rest);
        let ghost before = items@;
        items.push(item);
        assert(item_models(items@) =~= item_models(before).push(inline_models(item@)));
        assert(item_models(items@) + ol_run(lv.skip(j + 1)) =~= item_models(before) + ol_run(
            lv.skip(j as int),
        ));
        j = j + 1;
    }
    assert(ol_run(lv.skip(j as int)) =~= Seq::<Seq<InlineModel>>::empty());
    assert(item_models(items@) =~= item_models(items@) + Seq::<Seq<InlineModel>>::empty());
    (items, j)
}

/// The bodies of the quoted lines from line `i` on, and the line after them.
fn quoted_lines(ls: &Vec<Vec<char>>, i: usize) -> (r: (Vec<Vec<char>>, usize))
    requires
        i <= ls@.len(),
    ensures
        line_views(r.0@) == quote_run(line_views(ls@).skip(i as int)),
        r.1 == i + r.0@.len(),
        r.1 <= ls@.len(),
{
    let ghost lv = line_views(ls@);
    let mut bodies: Vec<Vec<char>> = Vec::new();
    let mut j = i;
    assert(line_views(bodies@) + quote_run(lv.skip(j as int)) =~= quote_run(lv.skip(i as int)));
    while j < ls.len()
        invariant
            i <= j <= ls@.len(),
            lv == line_views(ls@),
            j == i + bodies@.len(),
            line_views(bodies@) + quote_run(lv.skip(j as int)) == quote_run(lv.skip(i as int)),
        ensures
            i <= j <= ls@.len(),
            j == i + bodies@.len(),
            line_views(bodies@) + quote_run(lv.skip(j as int)) == quote_run(lv.skip(i as int)),
            j == ls@.len() || !is_quote(trim(lv[j as int])),
        decreases ls@.len() - j,
    {
        let l = trim_chars(&ls[j]);
        proof {
            lemma_line_views(ls@);
            lemma_skip_front(lv, j as int);
        }
        let body = if starts_with2(&l, '>', ' ') {
            slice_chars(&l, 2, l.len())
        } else if l.len() == 1 && l[0] == '>' {
            assert(l@ =~= seq!['>']);
            Vec::new()
        } else {
            break;
        };
        let ghost before = bodies@;
        bodies.push(body);
        assert(line_views(bodies@) =~= line_views(before).push(body@));
        assert(line_views(bodies@) + quote_run(lv.skip(j + 1)) =~= line_views(before) + quote_run(
            lv.skip(j as int),
        ));
        j = j + 1;
    }
    assert(quote_run(lv.skip(j as int)) =~= Seq::<Seq<char>>::empty());
    assert(line_views(bodies@) =~= line_views(bodies@) + Seq::<Seq<char>>::empty());
    (bodies, j)
}

/// The code block whose opening fence `t` (trimmed) is line `i`, and the line after it.
fn code_block(ls: &Vec<Vec<char>>, i: usize, t: &Vec<char>) -> (r: (Block, usize))
    requires
        i < ls@.len(),
        t@ == trim(ls@[i as int]@),
        starts3(t@, '`'),
    ensures
        ({
            let rest = line_views(ls@).skip(i + 1);
            let lang = trim(t@.subrange(3, t@.len() as int));
            let c = code_len(rest);
            let used = if c < rest.len() { c + 1 } else { c };
            &&& r.0@ == (BlockModel::CodeBlock {
                language: if lang.len() == 0 { None } else { Some(lang) },
                code: join(rest.take(c as int), '\n'),
            })
            &&& r.1 == i + 1 + used
        }),
{
    let ghost lv = line_views(ls@);
    let n = ls.len();
    let lang = trim_chars(&slice_chars(t, 3, t.len()));
    let language = if lang.len() == 0 {
        None
    } else {
        Some(string_of(&lang))
    };
    let mut j = i + 1;
    assert(lv.skip(i + 1) =~= lv.skip(j as int));
    while j < ls.len()
        invariant
            i < j <= ls@.len(),
            lv == line_views(ls@),
            code_len(lv.skip(i + 1)) == (j - i - 1) + code_len(lv.skip(j as int)),
        ensures
            i < j <= ls@.len(),
            code_len(lv.skip(i + 1)) == (j - i - 1) + code_len(lv.skip(j as int)),
            j == ls@.len() || starts3(trim(lv[j as int]), '`'),
        decreases ls@.len() - j,
    {
        let l = trim_chars(&ls[j]);
        proof {
            lemma_line_views(ls@);
            lemma_skip_front(lv, j as int);
        }
        if starts_with3(&l, '`') {
            break;
        }
        j = j + 1;
    }
    let code_lines = copy_lines(ls, i + 1, j);
    let code = string_of(&join_chars(&code_lines, '\n'));
    proof {
        lemma_line_views(ls@);
        let rest = lv.skip(i + 1);
        assert(rest.take(j - i - 1) =~= lv.subrange(i + 1, j as int));
        assert(line_views(code_lines@) =~= code_lines@.map_values(|l: Vec<char>| l@));
    }
    let next = if j < ls.len() {
        j + 1
    } else {
        j
    };
    (Block::CodeBlock { language, code }, next)
}

/// The paragraph text that starts at line `i`, and the line after it.
fn paragraph_text(ls: &Vec<Vec<char>>, i: usize) -> (r: (Vec<char>, usize))
    requires
        i <= ls@.len(),
    ensures
        ({
            let k = para_len(line_views(ls@).skip(i as int));
            &&& r.0@ == join(line_views(ls@).skip(i as int).take(k as int), ' ')
            &&& r.1 == i + k
        }),
{
    let ghost lv = line_views(ls@);
    let mut j = i;
    while j < ls.len()
        invariant
            i <= j <= ls@.len(),
            lv == line_views(ls@),
            para_len(lv.skip(i as int)) == (j - i) + para_len(lv.skip(j as int)),
        ensures
            i <= j <= ls@.len(),
            para_len(lv.skip(i as int)) == (j - i) + para_len(lv.skip(j as int)),
            j == ls@.len() || para_break(lv[j as int]),
        decreases ls@.len() - j,
    {
        proof {
            lemma_line_views(ls@);
            lemma_skip_front(lv, j as int);
        }
        if ends_paragraph(&ls[j]) {
            break;
        }
        j = j + 1;
    }
    let para_lines = copy_lines(ls, i, j);
    let text = join_chars(&para_lines, ' ');
    proof {
        assert(lv.skip(i as int).take(j - i) =~= lv.subrange(i as int, j as int));
        assert(line_views(para_lines@) =~= para_lines@.map_values(|l: Vec<char>| l@));
    }
    (text, j)
}

/// The block that starts at line `i`, if the line is not blank, and the line
/// after it.
fn next_block(ls: &Vec<Vec<char>>, i: usize) -> (r: (Option<Block>, usize))
    requires
        i < ls@.len(),
    ensures
        i < r.1 <= ls@.len(),
        opt_block(r.0) + blocks_from(line_views(ls@).skip(r.1 as int)) == blocks_from(
            line_views(ls@).skip(i as int),
        ),
    decreases lines_size(line_views(ls@).skip(i as int)), 0int,
{
    let ghost lv = line_views(ls@);
    let ghost sk = lv.skip(i as int);
    let n = ls.len();
    proof {
        lemma_line_views(ls@);
        lemma_skip_front(lv, i as int);
        lemma_run_lens(sk);
        lemma_run_lens(sk.drop_first());
    }
    let line = &ls[i];
    let t = trim_chars(line);
    if t.len() == 0 {
        assert(opt_block(None) + blocks_from(lv.skip(i + 1)) =~= blocks_from(lv.skip(i + 1)));
        return (None, i + 1);
    }
    if is_horizontal_rule(&t) {
        return (Some(Block::HorizontalRule), i + 1);
    }
    if let Some(h) = try_heading(line) {
        return (Some(h), i + 1);
    }
    if starts_with3(&t, '`') {
        let (b, next) = code_block(ls, i, &t);
        proof {
            let rest = sk.drop_first();
            let c = code_len(rest);
            let used = if c < rest.len() { c + 1 } else { c };
            assert(rest.skip(used as int) =~= lv.skip(next as int));
        }
        return (Some(b), next);
    }
    if is_quote_line(&t) {
        let (bodies, next) = quoted_lines(ls, i);
        let joined = join_chars(&bodies, '\n');
        proof {
            assert(line_views(bodies@) =~= bodies@.map_values(|l: Vec<char>| l@));
            lemma_quote_size(sk);
            lemma_join_len(line_views(bodies@), '\n');
            assert(sk.skip(bodies@.len() as int) =~= lv.skip(next as int));
        }
        let inner = parse_markdown_chars(&joined);
        return (Some(Block::Blockquote { blocks: inner }), next);
    }
    if is_bullet(&t) {
        let (items, next) = bullet_items(ls, i);
        assert(sk.skip(items@.len() as int) =~= lv.skip(next as int));
        return (Some(Block::UnorderedList { items }), next);
    }
    if is_ordered_list_item(&t) {
        let (items, next) = numbered_items(ls, i);
        assert(sk.skip(items@.len() as int) =~= lv.skip(next as int));
        return (Some(Block::OrderedList { items }), next);
    }
    let (text, next) = paragraph_text(ls, i);
    let inlines = parse_inline_chars(&text);
    proof {
        assert(sk.skip(next - i) =~= lv.skip(next as int));
    }
    (Some(Block::Paragraph { inlines }), next)
}

/// Parse markdown text into a list of blocks.
pub fn parse_markdown(input: &str) -> (r: Vec<Block>)
    ensures
        block_models(r@) == parse_md(input@),
{
    let chars = chars_of(input);
    parse_markdown_chars(&chars)
}

fn parse_markdown_chars(cs: &Vec<char>) -> (r: Vec<Block>)
    ensures
        block_models(r@) == parse_md(cs@),
    decreases cs@.len() + 1, 1int,
{
    let ls = split_lines(cs);
    let ghost lv = line_views(ls@);
    proof {
        assert(lv =~= ls@.map_values(|l: Vec<char>| l@));
        lemma_lines_size(cs@);
        assert(lv.skip(0) =~= lv);
    }
    let mut blocks: Vec<Block> = Vec::new();
    let mut i: usize = 0;
    while i < ls.len()
        invariant
            lv == line_views(ls@),
            lv == lines(cs@),
            lines_size(lv) <= cs@.len() + 1,
            i <= ls@.len(),
            block_models(blocks@) + blocks_from(lv.skip(i as int)) == blocks_from(lv),
        decreases ls@.len() - i,
    {
        proof {
            lemma_lines_size_skip(lv, i as int);
        }
        let ghost before = block_models(blocks@);
        let (b, next) = next_block(&ls, i);
        match b {
            Some(x) => {
                proof {
                    lemma_block_models_push(blocks@, x);
                }
                blocks.push(x);
            },
            None => {},
        }
        assert(block_models(blocks@) + blocks_from(lv.skip(next as int)) =~= before + (opt_block(
            b,
        ) + blocks_from(lv.skip(next as int))));
        i = next;
    }
    assert(lv.skip(i as int) =~= Seq::<Seq<char>>::empty());
    assert(block_models(blocks@) =~= block_models(blocks@) + Seq::<BlockModel>::empty());
    blocks
}

} // verus!
