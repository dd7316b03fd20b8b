use peisar::ast::{
    Block, Document, EmphasisLevel, Inline, KramdownAttributes, ListItem, Table, TableCell,
    TableCellAlignment, TableRow,
};
use peisar::html::{self, AstToHtml};
use peisar::parser::parse;
use peisar::visitor::{visit_document, visit_inline, AstNodeVisitor, NodeCounter};

#[test]
fn visitor_counts_nodes() {
    let doc = parse("# Title\n\nparagraph with **bold**.\n\n- a\n- b");
    let mut counter = NodeCounter::default();
    visit_document(&mut counter, &doc);
    assert_eq!(counter.headings, 1);
    assert_eq!(counter.paragraphs, 3);
    assert_eq!(counter.emphasis, 1);
    assert_eq!(counter.lists, 1);
    assert_eq!(counter.list_items, 2);
}

#[test]
fn visitor_counts_gfm() {
    let doc = parse("| A | B |\n|---|---|\n| 1 | 2 |\n\n~~strike~~");
    let mut counter = NodeCounter::default();
    visit_document(&mut counter, &doc);
    assert_eq!(counter.tables, 1);
    assert_eq!(counter.strikethroughs, 1);
}

#[derive(Default)]
struct LinkCollector {
    urls: Vec<String>,
    heading_count: usize,
}

// Each hook of a node with children returns whether the walk goes on into
// the children; the hooks of no interest do nothing.
impl AstNodeVisitor for LinkCollector {
    fn visit_heading(
        &mut self,
        _level: u8,
        _children: &[Inline],
        _attrs: Option<&KramdownAttributes>,
    ) -> bool {
        self.heading_count += 1;
        true
    }

    fn visit_link(&mut self, _text: &[Inline], url: &str, _title: Option<&str>) -> bool {
        self.urls.push(url.to_string());
        true
    }

    fn visit_document_enter(&mut self, _doc: &Document) {}
    fn visit_document_exit(&mut self, _doc: &Document) {}
    fn visit_paragraph(&mut self, _children: &[Inline], _attrs: Option<&KramdownAttributes>) -> bool {
        true
    }
    fn visit_code_block(&mut self, _lang: Option<&str>, _code: &str, _attrs: Option<&KramdownAttributes>) {}
    fn visit_block_quote(&mut self, _children: &[Block], _attrs: Option<&KramdownAttributes>) -> bool {
        true
    }
    fn visit_list(&mut self, _ordered: bool, _items: &[ListItem], _attrs: Option<&KramdownAttributes>) -> bool {
        true
    }
    fn visit_list_item(&mut self, _item: &ListItem) -> bool {
        true
    }
    fn visit_thematic_break(&mut self, _attrs: Option<&KramdownAttributes>) {}
    fn visit_html_block(&mut self, _html: &str) {}
    fn visit_table(&mut self, _table: &Table, _attrs: Option<&KramdownAttributes>) -> bool {
        true
    }
    fn visit_table_row(&mut self, _row: &TableRow, _alignments: &[TableCellAlignment], _header: bool) -> bool {
        true
    }
    fn visit_table_cell(&mut self, _cell: &TableCell) -> bool {
        true
    }
    fn visit_text(&mut self, _text: &str) {}
    fn visit_emphasis(&mut self, _level: EmphasisLevel, _children: &[Inline]) -> bool {
        true
    }
    fn visit_inline_code(&mut self, _code: &str) {}
    fn visit_image(&mut self, _alt: &str, _url: &str, _title: Option<&str>) {}
    fn visit_hard_break(&mut self) {}
    fn visit_soft_break(&mut self) {}
    fn visit_inline_html(&mut self, _html: &str) {}
    fn visit_strikethrough(&mut self, _children: &[Inline]) -> bool {
        true
    }
}

#[test]
fn custom_visitor_collects_links() {
    let md = "# Heading\n\n[one](https://a.com) and [two](https://b.com)\n\n## Sub\n\n![img](pic.png)";
    let doc = parse(md);

    let mut collector = LinkCollector::default();
    visit_document(&mut collector, &doc);

    assert_eq!(collector.heading_count, 2);
    assert_eq!(collector.urls, vec!["https://a.com", "https://b.com"]);
    assert!(!collector.urls.contains(&"pic.png".to_string()));
}

#[test]
fn node_counter_counts_every_kind() {
    let md = "# H\n\n> quote\n\n```\ncode\n```\n\n---\n\n1. one\n\n`x` [l](u) ![i](p.png) *e*";
    let doc = parse(md);
    let mut c = NodeCounter::default();
    visit_document(&mut c, &doc);
    assert_eq!(c.headings, 1);
    assert_eq!(c.block_quotes, 1);
    assert_eq!(c.code_blocks, 1);
    assert_eq!(c.thematic_breaks, 1);
    assert_eq!(c.lists, 1);
    assert_eq!(c.list_items, 1);
    assert_eq!(c.inline_code, 1);
    assert_eq!(c.links, 1);
    assert_eq!(c.images, 1);
    assert_eq!(c.emphasis, 1);
}

#[test]
fn node_counter_default_is_zero() {
    let c = NodeCounter::default();
    assert_eq!(c.headings + c.paragraphs + c.text_nodes + c.tables, 0);
}

#[test]
fn nested_nodes_are_walked() {
    // A link inside emphasis inside a block quote inside a list item.
    let doc = parse("- > *[a](b)*");
    let mut c = NodeCounter::default();
    visit_document(&mut c, &doc);
    assert_eq!(c.list_items, 1);
    assert_eq!(c.block_quotes, 1);
    assert_eq!(c.emphasis, 1);
    assert_eq!(c.links, 1);
    assert_eq!(c.text_nodes, 1);
}

/// Counts text nodes, but does not look inside headings.
#[derive(Default)]
struct BodyText {
    texts: usize,
}

impl AstNodeVisitor for BodyText {
    fn visit_heading(&mut self, _l: u8, _c: &[Inline], _a: Option<&KramdownAttributes>) -> bool {
        false
    }
    fn visit_text(&mut self, _text: &str) {
        self.texts += 1;
    }
    fn visit_document_enter(&mut self, _doc: &Document) {}
    fn visit_document_exit(&mut self, _doc: &Document) {}
    fn visit_paragraph(&mut self, _c: &[Inline], _a: Option<&KramdownAttributes>) -> bool {
        true
    }
    fn visit_code_block(&mut self, _l: Option<&str>, _c: &str, _a: Option<&KramdownAttributes>) {}
    fn visit_block_quote(&mut self, _c: &[Block], _a: Option<&KramdownAttributes>) -> bool {
        true
    }
    fn visit_list(&mut self, _o: bool, _i: &[ListItem], _a: Option<&KramdownAttributes>) -> bool {
        true
    }
    fn visit_list_item(&mut self, _item: &ListItem) -> bool {
        true
    }
    fn visit_thematic_break(&mut self, _a: Option<&KramdownAttributes>) {}
    fn visit_html_block(&mut self, _html: &str) {}
    fn visit_table(&mut self, _t: &Table, _a: Option<&KramdownAttributes>) -> bool {
        true
    }
    fn visit_table_row(&mut self, _r: &TableRow, _al: &[TableCellAlignment], _h: bool) -> bool {
        true
    }
    fn visit_table_cell(&mut self, _cell: &TableCell) -> bool {
        true
    }
    fn visit_emphasis(&mut self, _l: EmphasisLevel, _c: &[Inline]) -> bool {
        true
    }
    fn visit_inline_code(&mut self, _code: &str) {}
    fn visit_link(&mut self, _t: &[Inline], _u: &str, _ti: Option<&str>) -> bool {
        true
    }
    fn visit_image(&mut self, _a: &str, _u: &str, _t: Option<&str>) {}
    fn visit_hard_break(&mut self) {}
    fn visit_soft_break(&mut self) {}
    fn visit_inline_html(&mut self, _html: &str) {}
    fn visit_strikethrough(&mut self, _c: &[Inline]) -> bool {
        true
    }
}

#[test]
fn hook_can_skip_children() {
    let doc = parse("# A *b*\n\nc *d*");
    let mut v = BodyText::default();
    visit_document(&mut v, &doc);
    assert_eq!(v.texts, 2);
}

#[derive(Default)]
struct Bracketed {
    out: String,
}

impl AstNodeVisitor for Bracketed {
    fn visit_emphasis(&mut self, _l: EmphasisLevel, c: &[Inline]) -> bool {
        self.out.push('(');
        for i in c {
            visit_inline(self, i);
        }
        self.out.push(')');
        false
    }
    fn visit_text(&mut self, text: &str) {
        self.out.push_str(text);
    }
    fn visit_heading(&mut self, _l: u8, _c: &[Inline], _a: Option<&KramdownAttributes>) -> bool {
        true
    }
    fn visit_document_enter(&mut self, _doc: &Document) {}
    fn visit_document_exit(&mut self, _doc: &Document) {}
    fn visit_paragraph(&mut self, _c: &[Inline], _a: Option<&KramdownAttributes>) -> bool {
        true
    }
    fn visit_code_block(&mut self, _l: Option<&str>, _c: &str, _a: Option<&KramdownAttributes>) {}
    fn visit_block_quote(&mut self, _c: &[Block], _a: Option<&KramdownAttributes>) -> bool {
        true
    }
    fn visit_list(&mut self, _o: bool, _i: &[ListItem], _a: Option<&KramdownAttributes>) -> bool {
        true
    }
    fn visit_list_item(&mut self, _item: &ListItem) -> bool {
        true
    }
    fn visit_thematic_break(&mut self, _a: Option<&KramdownAttributes>) {}
    fn visit_html_block(&mut self, _html: &str) {}
    fn visit_table(&mut self, _t: &Table, _a: Option<&KramdownAttributes>) -> bool {
        true
    }
    fn visit_table_row(&mut self, _r: &TableRow, _al: &[TableCellAlignment], _h: bool) -> bool {
        true
    }
    fn visit_table_cell(&mut self, _cell: &TableCell) -> bool {
        true
    }
    fn visit_inline_code(&mut self, _code: &str) {}
    fn visit_link(&mut self, _t: &[Inline], _u: &str, _ti: Option<&str>) -> bool {
        true
    }
    fn visit_image(&mut self, _a: &str, _u: &str, _t: Option<&str>) {}
    fn visit_hard_break(&mut self) {}
    fn visit_soft_break(&mut self) {}
    fn visit_inline_html(&mut self, _html: &str) {}
    fn visit_strikethrough(&mut self, _c: &[Inline]) -> bool {
        true
    }
}

#[test]
fn hook_can_wrap_children() {
    let doc = parse("x *y* z **w**");
    let mut v = Bracketed::default();
    visit_document(&mut v, &doc);
    assert_eq!(v.out, "x (y) z (w)");
}

#[test]
fn renderer_is_a_visitor() {
    let doc = parse("# Hi\n\n> q *e*\n\n- a\n\n| A |\n|---|\n| 1 |\n\n---");
    let mut r = AstToHtml::new();
    visit_document(&mut r, &doc);
    assert_eq!(r.finish(), html::render_document(&doc, Some(true)));
    let mut r = AstToHtml::new();
    r.visit_text("a<b");
    r.visit_hard_break();
    r.visit_inline_code("x");
    assert_eq!(r.finish(), "a&lt;b<br />\n<code>x</code>");
}
