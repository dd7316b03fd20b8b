use peisar::ast::{Block, Document, EmphasisLevel, Inline, TableCellAlignment, TaskState};
use peisar::config::ParseOptions;
use peisar::parser::inline::parse_inline;
use peisar::parser::{parse, parse_with};

fn first_block(doc: &Document) -> &Block {
    &doc.children[0]
}

#[test]
fn parses_heading() {
    let doc = parse("# Hello *World*");
    match first_block(&doc) {
        Block::Heading {
            level, children, ..
        } => {
            assert_eq!(*level, 1);
            assert_eq!(children.len(), 2);
            assert!(matches!(&children[0], Inline::Text { value, .. } if value == "Hello "));
            match &children[1] {
                Inline::Emphasis {
                    level: EmphasisLevel::Italic,
                    children,
                    ..
                } => {
                    assert_eq!(children.len(), 1);
                    assert!(
                        matches!(&children[0], Inline::Text { value, .. } if value == "World")
                    );
                }
                other => panic!("expected emphasis, got {other:?}"),
            }
        }
        other => panic!("expected heading, got {other:?}"),
    }
}

#[test]
fn parses_code_block_with_lang() {
    let doc = parse("```rust\nfn hi() {}\n```");
    match first_block(&doc) {
        Block::CodeBlock { lang, code, .. } => {
            assert_eq!(lang.as_deref(), Some("rust"));
            assert_eq!(code, "fn hi() {}");
        }
        other => panic!("expected code block, got {other:?}"),
    }
}

#[test]
fn parses_thematic_break() {
    for input in ["---", "***", "___", "  - - -  "] {
        let doc = parse(input);
        assert!(
            matches!(first_block(&doc), Block::ThematicBreak { .. }),
            "input: {input}"
        );
    }
}

#[test]
fn parses_unordered_list() {
    let doc = parse("- a\n- b\n- c");
    match first_block(&doc) {
        Block::List { ordered, items, .. } => {
            assert!(!*ordered);
            assert_eq!(items.len(), 3);
        }
        other => panic!("expected list, got {other:?}"),
    }
}

#[test]
fn parses_ordered_list() {
    let doc = parse("1. first\n2. second");
    match first_block(&doc) {
        Block::List { ordered, items, .. } => {
            assert!(*ordered);
            assert_eq!(items.len(), 2);
        }
        other => panic!("expected list, got {other:?}"),
    }
}

#[test]
fn parses_block_quote() {
    let doc = parse("> hello\n> world");
    match first_block(&doc) {
        Block::BlockQuote { children, .. } => {
            assert_eq!(children.len(), 1);
        }
        other => panic!("expected block quote, got {other:?}"),
    }
}

#[test]
fn parses_link() {
    let tokens = parse_inline("[text](https://x.com)");
    assert_eq!(tokens.len(), 1);
    match &tokens[0] {
        Inline::Link {
            text,
            url,
            title,
            autolink,
            ..
        } => {
            assert_eq!(url, "https://x.com");
            assert!(!autolink);
            assert!(title.is_none());
            assert_eq!(text.len(), 1);
            assert!(matches!(&text[0], Inline::Text { value, .. } if value == "text"));
        }
        other => panic!("expected link, got {other:?}"),
    }
}

#[test]
fn parses_link_with_title() {
    let tokens = parse_inline(r#"[t](https://x.com "Title")"#);
    match &tokens[0] {
        Inline::Link { title, .. } => assert_eq!(title.as_deref(), Some("Title")),
        other => panic!("expected link, got {other:?}"),
    }
}

#[test]
fn parses_image() {
    let tokens = parse_inline("![alt](img.png)");
    match &tokens[0] {
        Inline::Image { alt, url, .. } => {
            assert_eq!(alt, "alt");
            assert_eq!(url, "img.png");
        }
        other => panic!("expected image, got {other:?}"),
    }
}

#[test]
fn parses_bold_and_italic() {
    let tokens = parse_inline("**bold** and *italic*");
    assert!(tokens.iter().any(|t| matches!(
        t,
        Inline::Emphasis {
            level: EmphasisLevel::Bold,
            ..
        }
    )));
    assert!(tokens.iter().any(|t| matches!(
        t,
        Inline::Emphasis {
            level: EmphasisLevel::Italic,
            ..
        }
    )));
}

#[test]
fn parses_inline_code() {
    let tokens = parse_inline("`x = 1`");
    assert_eq!(tokens.len(), 1);
    assert!(matches!(&tokens[0], Inline::Code { code, .. } if code == "x = 1"));
}

#[test]
fn gfm_strikethrough() {
    let tokens = parse_inline("~~deleted~~");
    assert!(
        tokens
            .iter()
            .any(|t| matches!(t, Inline::Strikethrough { .. }))
    );
}

#[test]
fn gfm_table() {
    let md = "| A | B |\n|---|---|\n| 1 | 2 |\n";
    let doc = parse(md);
    match first_block(&doc) {
        Block::Table { table, .. } => {
            assert_eq!(table.header.cells.len(), 2);
            assert_eq!(table.rows.len(), 1);
            assert_eq!(table.rows[0].cells.len(), 2);
        }
        other => panic!("expected table, got {other:?}"),
    }
}

#[test]
fn gfm_table_alignment() {
    let md = "| A | B | C |\n|:---|:---:|---:|\n| 1 | 2 | 3 |\n";
    let doc = parse(md);
    match first_block(&doc) {
        Block::Table { table, .. } => {
            assert_eq!(table.alignments.len(), 3);
            assert!(matches!(table.alignments[0], TableCellAlignment::Left));
            assert!(matches!(table.alignments[1], TableCellAlignment::Center));
            assert!(matches!(table.alignments[2], TableCellAlignment::Right));
        }
        other => panic!("expected table, got {other:?}"),
    }
}

#[test]
fn gfm_task_list() {
    let md = "- [x] done\n- [ ] todo\n";
    let doc = parse(md);
    match first_block(&doc) {
        Block::List { items, .. } => {
            assert_eq!(items.len(), 2);
            assert!(matches!(items[0].task, Some(TaskState::Checked)));
            assert!(matches!(items[1].task, Some(TaskState::Unchecked)));
        }
        other => panic!("expected list, got {other:?}"),
    }
}

#[test]
fn gfm_autolink() {
    let tokens = parse_inline("Visit https://example.com today");
    let found = tokens.iter().any(|t| {
        matches!(
            t,
            Inline::Link { url, autolink: true, .. } if url == "https://example.com"
        )
    });
    assert!(found, "expected autolink, got {tokens:?}");
}

#[test]
fn kramdown_heading_id() {
    let md = "# Title\n{:#my-id}";
    let doc = parse(md);
    match first_block(&doc) {
        Block::Heading {
            attrs, children, ..
        } => {
            // children should not contain the {:...} text
            assert!(attrs.as_ref().unwrap().id.as_deref() == Some("my-id"));
            // heading text should be "Title"
            assert!(matches!(&children[0], Inline::Text { value, .. } if value == "Title"));
        }
        other => panic!("expected heading, got {other:?}"),
    }
}

#[test]
fn kramdown_heading_classes() {
    let md = "# Title\n{:.big .red}";
    let doc = parse(md);
    match first_block(&doc) {
        Block::Heading { attrs, .. } => {
            let a = attrs.as_ref().unwrap();
            assert_eq!(a.classes, vec!["big", "red"]);
        }
        other => panic!("expected heading, got {other:?}"),
    }
}

#[test]
fn kramdown_heading_kv() {
    let md = "# Title\n{:data-toggle=\"modal\"}";
    let doc = parse(md);
    match first_block(&doc) {
        Block::Heading { attrs, .. } => {
            let a = attrs.as_ref().unwrap();
            assert_eq!(a.attributes, vec![("data-toggle".into(), "modal".into())]);
        }
        other => panic!("expected heading, got {other:?}"),
    }
}

#[test]
fn kramdown_trailing_block_attrs() {
    // After a code block, a {...} line applies to it
    let md = "```\ncode\n```\n{#code-id}\n";
    let doc = parse(md);
    match first_block(&doc) {
        Block::CodeBlock { attrs, .. } => {
            assert_eq!(attrs.as_ref().unwrap().id.as_deref(), Some("code-id"));
        }
        other => panic!("expected code block, got {other:?}"),
    }
}

#[test]
fn kramdown_disabled() {
    let opts = ParseOptions {
        kramdown: false,
        gfm: true,
    };
    let doc = parse_with("# Title\n{:#my-id}", &opts);
    match first_block(&doc) {
        Block::Heading { attrs, .. } => {
            // kramdown disabled → the {:...} line is just a paragraph
            assert!(attrs.is_none());
        }
        other => panic!("expected heading, got {other:?}"),
    }
    // The {:...} line should appear as a separate paragraph
    assert_eq!(doc.children.len(), 2);
    match &doc.children[1] {
        Block::Paragraph { children, .. } => {
            assert!(
                matches!(&children[0], Inline::Text { value, .. } if value.contains("{:#my-id}"))
            );
        }
        other => panic!("expected paragraph, got {other:?}"),
    }
}
