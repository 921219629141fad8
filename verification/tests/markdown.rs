use meteorite::markdown::{parse_inlines, parse_markdown, Block, Inline};

#[test]
fn heading_levels() {
    let blocks = parse_markdown("# H1\n## H2\n### H3");
    assert_eq!(blocks.len(), 3);
    match &blocks[0] {
        Block::Heading { level, .. } => assert_eq!(*level, 1),
        _ => panic!("expected heading"),
    }
}

#[test]
fn code_block() {
    let blocks = parse_markdown("```rust\nfn main() {}\n```");
    assert_eq!(blocks.len(), 1);
    match &blocks[0] {
        Block::CodeBlock { language, code } => {
            assert_eq!(language.as_deref(), Some("rust"));
            assert_eq!(code, "fn main() {}");
        }
        _ => panic!("expected code block"),
    }
}

#[test]
fn bold_italic_inline() {
    let inlines = parse_inlines("hello **bold** and *italic*");
    assert_eq!(inlines.len(), 4);
    assert!(matches!(&inlines[1], Inline::Bold(..)));
    assert!(matches!(&inlines[3], Inline::Italic(..)));
}

#[test]
fn inline_code() {
    let inlines = parse_inlines("use `foo::bar` here");
    assert_eq!(inlines.len(), 3);
    assert!(matches!(&inlines[1], Inline::Code(s) if s == "foo::bar"));
}

#[test]
fn link() {
    let inlines = parse_inlines("see [docs](https://example.com) ok");
    assert!(matches!(&inlines[1], Inline::Link { text, url } if text == "docs" && url == "https://example.com"));
}

#[test]
fn image() {
    let inlines = parse_inlines("![alt](img.png)");
    assert!(matches!(&inlines[0], Inline::Image { alt, url } if alt == "alt" && url == "img.png"));
}

#[test]
fn unordered_list() {
    let blocks = parse_markdown("- one\n- two\n- three");
    assert_eq!(blocks.len(), 1);
    match &blocks[0] {
        Block::UnorderedList { items } => assert_eq!(items.len(), 3),
        _ => panic!("expected list"),
    }
}

#[test]
fn ordered_list() {
    let blocks = parse_markdown("1. first\n2. second");
    assert_eq!(blocks.len(), 1);
    match &blocks[0] {
        Block::OrderedList { items } => assert_eq!(items.len(), 2),
        _ => panic!("expected ordered list"),
    }
}

#[test]
fn blockquote() {
    let blocks = parse_markdown("> quoted text");
    assert_eq!(blocks.len(), 1);
    assert!(matches!(&blocks[0], Block::Blockquote { .. }));
}

#[test]
fn horizontal_rule() {
    let blocks = parse_markdown("---");
    assert_eq!(blocks.len(), 1);
    assert!(matches!(&blocks[0], Block::HorizontalRule));
}

#[test]
fn paragraph() {
    let blocks = parse_markdown("hello world");
    assert_eq!(blocks.len(), 1);
    assert!(matches!(&blocks[0], Block::Paragraph { .. }));
}

#[test]
fn bold_italic_nests_inner_elements() {
    let inlines = parse_inlines("***a `b`***");
    assert_eq!(
        inlines,
        vec![Inline::BoldItalic(vec![
            Inline::Text("a ".to_string()),
            Inline::Code("b".to_string())
        ])]
    );
}

#[test]
fn unclosed_markers_stay_text() {
    let inlines = parse_inlines("a *b [c](d");
    assert_eq!(inlines, vec![Inline::Text("a *b [c](d".to_string())]);
    assert_eq!(parse_inlines(""), Vec::<Inline>::new());
    assert_eq!(parse_inlines("**"), vec![Inline::Text("**".to_string())]);
}

#[test]
fn paragraph_joins_lines_until_a_list() {
    let blocks = parse_markdown("one\n  two\n- item\n\n#### four");
    assert_eq!(
        blocks,
        vec![
            Block::Paragraph { inlines: vec![Inline::Text("one   two".to_string())] },
            Block::UnorderedList { items: vec![vec![Inline::Text("item".to_string())]] },
            Block::Heading { level: 4, inlines: vec![Inline::Text("four".to_string())] },
        ]
    );
}

#[test]
fn heading_needs_space_and_at_most_six_marks() {
    let blocks = parse_markdown("#nospace\n####### seven");
    assert_eq!(
        blocks,
        vec![Block::Paragraph {
            inlines: vec![Inline::Text("#nospace ####### seven".to_string())]
        }]
    );
}

#[test]
fn unterminated_code_block_takes_the_rest() {
    let blocks = parse_markdown("```\n  a\nb");
    assert_eq!(
        blocks,
        vec![Block::CodeBlock { language: None, code: "  a\nb".to_string() }]
    );
}

#[test]
fn nested_blockquote_parses_inner_blocks() {
    let blocks = parse_markdown("> # Title\n>\n> - x\nafter");
    assert_eq!(
        blocks,
        vec![
            Block::Blockquote {
                blocks: vec![
                    Block::Heading { level: 1, inlines: vec![Inline::Text("Title".to_string())] },
                    Block::UnorderedList { items: vec![vec![Inline::Text("x".to_string())]] },
                ]
            },
            Block::Paragraph { inlines: vec![Inline::Text("after".to_string())] },
        ]
    );
}

#[test]
fn ordered_prefix_requires_digits() {
    let blocks = parse_markdown("1a. no\n12. yes");
    assert_eq!(
        blocks,
        vec![
            Block::Paragraph { inlines: vec![Inline::Text("1a. no".to_string())] },
            Block::OrderedList { items: vec![vec![Inline::Text("yes".to_string())]] },
        ]
    );
}

#[test]
fn rule_of_mixed_marks() {
    let blocks = parse_markdown("  --- -\n***\n*** x");
    assert_eq!(blocks.len(), 3);
    assert_eq!(blocks[0], Block::HorizontalRule);
    assert_eq!(blocks[1], Block::HorizontalRule);
    assert_eq!(
        blocks[2],
        Block::Paragraph {
            inlines: vec![
                Inline::Italic(vec![Inline::Text("*".to_string())]),
                Inline::Text(" x".to_string())
            ]
        }
    );
}

#[test]
fn inline_shape_laws_on_examples() {
    assert!(parse_inlines("").is_empty());
    assert_eq!(parse_inlines("wow! great"), vec![Inline::Text("wow! great".to_string())]);
    for text in ["a *b* c", "**x**y", "`c`", "*unclosed", "![i](u)!"] {
        let r = parse_inlines(text);
        assert!(!r.is_empty());
        for (k, e) in r.iter().enumerate() {
            if let Inline::Text(t) = e {
                assert!(!t.is_empty());
                if let Some(Inline::Text(_)) = r.get(k + 1) {
                    panic!("two texts side by side in {text:?}");
                }
            }
        }
    }
}
