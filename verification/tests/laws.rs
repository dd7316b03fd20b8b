use peisar::ast::{Block, Inline, KramdownAttributes};
use peisar::config::ParseOptions;
use peisar::html;
use peisar::parser::gfm::{parse_delimiter_alignments, split_table_row};
use peisar::parser::{parse, parse_with};
use peisar::plugins::alert::AlertKind;

#[test]
fn escaped_text_has_no_markup() {
    let h = html::render_document(&parse("1 < 2 > 0 'c' \"d\" & e"), Some(true));
    assert_eq!(h, "<p>1 &lt; 2 &gt; 0 &#39;c&#39; &quot;d&quot; &amp; e</p>\n");
}

#[test]
fn plain_text_is_not_changed_by_escaping() {
    let h = html::render_document(&parse("plain words"), Some(true));
    assert_eq!(h, "<p>plain words</p>\n");
}

#[test]
fn full_document_holds_the_fragment() {
    let doc = parse("# Hi\n\ntext");
    let frag = html::render_document(&doc, Some(true));
    let full = html::render_document(&doc, Some(false));
    assert_eq!(frag, "<h1>Hi</h1>\n<p>text</p>\n");
    assert!(full.starts_with("<!DOCTYPE html>\n<html>\n<head>\n"));
    assert!(full.ends_with(&format!("{}</body>\n</html>\n", frag)));
    assert_eq!(
        full,
        format!(
            "<!DOCTYPE html>\n<html>\n<head>\n<meta charset=\"utf-8\">\n<meta name=\"viewport\" content=\"width=device-width, initial-scale=1.0\">\n</head>\n<body>\n{}</body>\n</html>\n",
            frag
        )
    );
}

#[test]
fn default_render_is_a_fragment() {
    let doc = parse("# Hi");
    assert_eq!(html::render_document(&doc, None), html::render_document(&doc, Some(true)));
}

#[test]
fn label_marker_names_its_kind() {
    for k in [
        AlertKind::Note,
        AlertKind::Tip,
        AlertKind::Important,
        AlertKind::Warning,
        AlertKind::Caution,
    ] {
        let marker = format!("[!{}]", k.label());
        assert_eq!(AlertKind::from_marker(&marker), Some(k));
        assert_eq!(AlertKind::from_marker(&marker.to_lowercase()), Some(k));
        assert_eq!(AlertKind::from_marker(&format!("\t{} \n", marker)), Some(k));
        assert_eq!(
            AlertKind::from_marker(&format!(" [!{}]\n", k.label().to_ascii_lowercase())),
            Some(k)
        );
        for bad in [
            format!("[!{}", k.label()),
            format!("[{}]", k.label()),
            format!("[! {}]", k.label()),
            format!("[!{}S]", k.label()),
            format!("x[!{}]", k.label()),
            format!("[!{}] x", k.label()),
        ] {
            assert_eq!(AlertKind::from_marker(&bad), None);
        }
    }
}

#[test]
fn badge_is_a_styled_paragraph_with_the_label() {
    for k in [
        AlertKind::Note,
        AlertKind::Tip,
        AlertKind::Important,
        AlertKind::Warning,
        AlertKind::Caution,
    ] {
        let b = k.badge_html();
        assert!(b.starts_with("<p style=\""));
        assert!(b.contains(&format!("background-color: {};", k.color())));
        assert!(b.ends_with(&format!("\">{}</p>", k.label())));
    }
    let c = AlertKind::Caution.badge_html();
    assert!(c.contains("background-color: #cf222e;"));
    assert!(c.ends_with(">CAUTION</p>"));
}

#[test]
fn bare_urls_need_gfm() {
    let md = "see https://a.example and <https://b.example>";
    let on = parse(md);
    let off = parse_with(md, &ParseOptions { gfm: false, kramdown: true });
    let links = |d: &peisar::ast::Document| -> Vec<String> {
        let mut v = Vec::new();
        for b in &d.children {
            if let Block::Paragraph { children, .. } = b {
                for i in children {
                    if let Inline::Link { url, autolink: true, .. } = i {
                        v.push(url.clone());
                    }
                }
            }
        }
        v
    };
    assert_eq!(links(&on), vec!["https://a.example".to_string(), "https://b.example".to_string()]);
    assert_eq!(links(&off), vec!["https://b.example".to_string()]);
    assert_eq!(
        html::render_document(&off, None),
        "<p>see https://a.example and <a href=\"https://b.example\">https://b.example</a></p>\n"
    );
}

#[test]
fn one_alignment_per_cell() {
    for line in ["|:--|--:|:-:|---|", " --- | :--- ", "|-|"] {
        assert_eq!(
            parse_delimiter_alignments(line).len(),
            split_table_row(line).len()
        );
    }
}

#[test]
fn empty_attributes_render_to_nothing() {
    let a = KramdownAttributes::default();
    assert!(a.is_empty());
    assert_eq!(a.to_html_attr_string(), "");
}

#[test]
fn attribute_string_order() {
    let a = KramdownAttributes {
        id: Some("x".to_string()),
        classes: vec!["a".to_string(), "b".to_string()],
        attributes: vec![
            ("k".to_string(), "v\"w".to_string()),
            ("flag".to_string(), String::new()),
        ],
    };
    assert!(!a.is_empty());
    assert_eq!(a.to_html_attr_string(), "id=\"x\" class=\"a b\" k=\"v&quot;w\" flag");
}

fn inline_has_strike(i: &Inline) -> bool {
    match i {
        Inline::Strikethrough { .. } => true,
        Inline::Emphasis { children, .. } => children.iter().any(inline_has_strike),
        Inline::Link { text, .. } => text.iter().any(inline_has_strike),
        _ => false,
    }
}

fn block_is_plain(b: &Block) -> bool {
    let (attrs, nested_ok) = match b {
        Block::Heading { attrs, children, .. } | Block::Paragraph { attrs, children, .. } => {
            (attrs.is_some(), !children.iter().any(inline_has_strike))
        }
        Block::CodeBlock { attrs, .. } | Block::ThematicBreak { attrs, .. } => (attrs.is_some(), true),
        Block::BlockQuote { attrs, children, .. } => {
            (attrs.is_some(), children.iter().all(block_is_plain))
        }
        Block::List { attrs, items, .. } => (
            attrs.is_some(),
            items
                .iter()
                .all(|it| it.task.is_none() && it.children.iter().all(block_is_plain)),
        ),
        Block::Table { .. } => return false,
        Block::HtmlBlock { .. } => (false, true),
    };
    !attrs && nested_ok
}

#[test]
fn extensions_off_give_plain_blocks() {
    let md = "# T\n{:#id}\n\n| A | B |\n|---|---|\n| 1 | 2 |\n\npara *~~s~~*\n{: .c}\n\n> ## Q\n> {:.q}\n>\n> | x | y |\n> |---|---|\n\n- [x] item\n  {:#i}";
    let on = parse(md);
    assert!(on.children.iter().any(|b| matches!(b, Block::Table { .. })));
    assert!(!on.children.iter().all(block_is_plain));
    let off = parse_with(md, &ParseOptions { gfm: false, kramdown: false });
    assert!(off.children.iter().all(block_is_plain));
}

#[test]
fn parse_is_parse_with_defaults() {
    let md = "# A {#x}\n\n- [x] t\n\n~~s~~ https://a.b";
    let a = html::render_document(&parse(md), None);
    let b = html::render_document(&parse_with(md, &ParseOptions::default()), None);
    assert_eq!(a, b);
}
