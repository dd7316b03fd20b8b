//! Visitor pattern for walking the Markdown AST.
//!
//! Implement [`AstNodeVisitor`] and call [`visit_document`] to traverse
//! the tree.  The walk is done by the free functions of this module, in
//! document order (pre-order): each node's hook is called first, and the
//! hook of a node with children returns whether the walk goes on into
//! them.  A hook that returns `false` may walk the children itself (with
//! the functions of this module) or skip them.
//!
//! What the walk does to a visitor is stated by [`walk_document`] and the
//! `walk_*` spec functions: a visitor whose type declares (in
//! [`AstNodeVisitor::obeys_visit_spec`]) that each hook moves it by
//! [`AstNodeVisitor::visit_step`] and answers by
//! [`AstNodeVisitor::visit_descends`] ends the walk in that state.

use vstd::prelude::*;
use crate::ast::{
    Block, Document, EmphasisLevel, Inline, KramdownAttributes, ListItem, Table, TableCell,
    TableCellAlignment, TableRow,
};
use crate::ast::nodes::{
    SpecAttrs, SpecBlock, SpecDocument, SpecInline, SpecListItem, SpecTable, view_attrs,
    view_block, view_blocks, view_document, view_inline, view_inlines, view_item, view_items,
    view_opt_attrs, view_opt_str, view_row, view_rows, view_table,
};
use crate::parser::block::{lemma_view_blocks, lemma_view_items, view_blocks_seq, view_items_seq};
use crate::parser::inline::{lemma_view_inlines, view_inlines_seq};

verus! {

/// One hook call of a walk, with the views of the arguments handed to it.
pub enum VisitEvent {
    DocumentEnter(SpecDocument),
    DocumentExit(SpecDocument),
    Heading(u8, Seq<SpecInline>, Option<SpecAttrs>),
    Paragraph(Seq<SpecInline>, Option<SpecAttrs>),
    CodeBlock(Option<Seq<char>>, Seq<char>, Option<SpecAttrs>),
    BlockQuote(Seq<SpecBlock>, Option<SpecAttrs>),
    List(bool, Seq<SpecListItem>, Option<SpecAttrs>),
    ListItem(SpecListItem),
    ThematicBreak(Option<SpecAttrs>),
    HtmlBlock(Seq<char>),
    Table(SpecTable, Option<SpecAttrs>),
    TableRow(Seq<Seq<SpecInline>>, Seq<TableCellAlignment>, bool),
    TableCell(Seq<SpecInline>),
    Text(Seq<char>),
    Emphasis(EmphasisLevel, Seq<SpecInline>),
    InlineCode(Seq<char>),
    Link(Seq<SpecInline>, Seq<char>, Option<Seq<char>>),
    Image(Seq<char>, Seq<char>, Option<Seq<char>>),
    HardBreak,
    SoftBreak,
    InlineHtml(Seq<char>),
    Strikethrough(Seq<SpecInline>),
}

/// The view of optional borrowed attributes.
pub open spec fn view_attrs_ref(a: Option<&KramdownAttributes>) -> Option<SpecAttrs> {
    match a {
        Some(x) => Some(view_attrs(*x)),
        None => None,
    }
}

/// The view of an optional borrowed string.
pub open spec fn view_str_ref(o: Option<&str>) -> Option<Seq<char>> {
    match o {
        Some(s) => Some(s@),
        None => None,
    }
}

/// Hooks called while a document is walked.
///
/// Each hook receives `&mut self` and the node's parts.  The hook of a
/// node with children returns whether the walk goes on into them.
///
/// A type that sets [`obeys_visit_spec`](AstNodeVisitor::obeys_visit_spec)
/// promises that each hook moves it to [`visit_step`](AstNodeVisitor::visit_step)
/// of the hook's event; the hooks of a type that does not (the default)
/// promise nothing.
pub trait AstNodeVisitor: Sized {
    /// Whether the hooks follow [`AstNodeVisitor::visit_step`].
    open spec fn obeys_visit_spec() -> bool {
        false
    }

    /// The visitor after the hook of event `e`.
    open spec fn visit_step(self, e: VisitEvent) -> Self {
        self
    }

    /// Whether, after the hook of a node with children, the walk goes on
    /// into those children (the hook may walk them itself instead, or skip
    /// them).
    open spec fn visit_descends(self, e: VisitEvent) -> bool {
        true
    }

    // -- Document --

    /// Called before the document's blocks are walked.
    fn visit_document_enter(&mut self, doc: &Document)
        ensures
            Self::obeys_visit_spec() ==> *final(self) == old(self).visit_step(VisitEvent::DocumentEnter(view_document(*doc))),
    ;

    /// Called after the document's blocks were walked.
    fn visit_document_exit(&mut self, doc: &Document)
        ensures
            Self::obeys_visit_spec() ==> *final(self) == old(self).visit_step(VisitEvent::DocumentExit(view_document(*doc))),
    ;

    // -- Blocks --

    /// A heading; its inline children are walked next.
    fn visit_heading(&mut self, level: u8, children: &[Inline], attrs: Option<&KramdownAttributes>) -> (descend: bool)
        ensures
            Self::obeys_visit_spec() ==> *final(self) == old(self).visit_step(VisitEvent::Heading(level, view_inlines_seq(children@), view_attrs_ref(attrs)))
                && descend == old(self).visit_descends(VisitEvent::Heading(level, view_inlines_seq(children@), view_attrs_ref(attrs))),
    ;

    /// A paragraph; its inline children are walked next.
    fn visit_paragraph(&mut self, children: &[Inline], attrs: Option<&KramdownAttributes>) -> (descend: bool)
        ensures
            Self::obeys_visit_spec() ==> *final(self) == old(self).visit_step(VisitEvent::Paragraph(view_inlines_seq(children@), view_attrs_ref(attrs)))
                && descend == old(self).visit_descends(VisitEvent::Paragraph(view_inlines_seq(children@), view_attrs_ref(attrs))),
    ;

    /// A fenced code block.
    fn visit_code_block(&mut self, lang: Option<&str>, code: &str, attrs: Option<&KramdownAttributes>)
        ensures
            Self::obeys_visit_spec() ==> *final(self) == old(self).visit_step(
                VisitEvent::CodeBlock(view_str_ref(lang), code@, view_attrs_ref(attrs)),
            ),
    ;

    /// A block quote; its blocks are walked next.
    fn visit_block_quote(&mut self, children: &[Block], attrs: Option<&KramdownAttributes>) -> (descend: bool)
        ensures
            Self::obeys_visit_spec() ==> *final(self) == old(self).visit_step(VisitEvent::BlockQuote(view_blocks_seq(children@), view_attrs_ref(attrs)))
                && descend == old(self).visit_descends(VisitEvent::BlockQuote(view_blocks_seq(children@), view_attrs_ref(attrs))),
    ;

    /// A list; its items are walked next.
    fn visit_list(&mut self, ordered: bool, items: &[ListItem], attrs: Option<&KramdownAttributes>) -> (descend: bool)
        ensures
            Self::obeys_visit_spec() ==> *final(self) == old(self).visit_step(VisitEvent::List(ordered, view_items_seq(items@), view_attrs_ref(attrs)))
                && descend == old(self).visit_descends(VisitEvent::List(ordered, view_items_seq(items@), view_attrs_ref(attrs))),
    ;

    /// A list item; its blocks are walked next.
    fn visit_list_item(&mut self, item: &ListItem) -> (descend: bool)
        ensures
            Self::obeys_visit_spec() ==> *final(self) == old(self).visit_step(VisitEvent::ListItem(view_item(*item)))
                && descend == old(self).visit_descends(VisitEvent::ListItem(view_item(*item))),
    ;

    /// A thematic break.
    fn visit_thematic_break(&mut self, attrs: Option<&KramdownAttributes>)
        ensures
            Self::obeys_visit_spec() ==> *final(self) == old(self).visit_step(VisitEvent::ThematicBreak(view_attrs_ref(attrs))),
    ;

    /// A raw HTML block.
    fn visit_html_block(&mut self, html: &str)
        ensures
            Self::obeys_visit_spec() ==> *final(self) == old(self).visit_step(VisitEvent::HtmlBlock(html@)),
    ;

    /// A table; its header row, then its body rows, are walked next.
    fn visit_table(&mut self, table: &Table, attrs: Option<&KramdownAttributes>) -> (descend: bool)
        ensures
            Self::obeys_visit_spec() ==> *final(self) == old(self).visit_step(VisitEvent::Table(view_table(*table), view_attrs_ref(attrs)))
                && descend == old(self).visit_descends(VisitEvent::Table(view_table(*table), view_attrs_ref(attrs))),
    ;

    /// A table row; its cells are walked next.
    fn visit_table_row(&mut self, row: &TableRow, alignments: &[TableCellAlignment], header: bool) -> (descend: bool)
        ensures
            Self::obeys_visit_spec() ==> *final(self) == old(self).visit_step(VisitEvent::TableRow(view_row(*row), alignments@, header))
                && descend == old(self).visit_descends(VisitEvent::TableRow(view_row(*row), alignments@, header)),
    ;

    /// A table cell; its inline children are walked next.
    fn visit_table_cell(&mut self, cell: &TableCell) -> (descend: bool)
        ensures
            Self::obeys_visit_spec() ==> *final(self) == old(self).visit_step(VisitEvent::TableCell(view_inlines(cell.children)))
                && descend == old(self).visit_descends(VisitEvent::TableCell(view_inlines(cell.children))),
    ;

    // -- Inlines --

    /// A text run.
    fn visit_text(&mut self, text: &str)
        ensures
            Self::obeys_visit_spec() ==> *final(self) == old(self).visit_step(VisitEvent::Text(text@)),
    ;

    /// Emphasis; its inline children are walked next.
    fn visit_emphasis(&mut self, level: EmphasisLevel, children: &[Inline]) -> (descend: bool)
        ensures
            Self::obeys_visit_spec() ==> *final(self) == old(self).visit_step(VisitEvent::Emphasis(level, view_inlines_seq(children@)))
                && descend == old(self).visit_descends(VisitEvent::Emphasis(level, view_inlines_seq(children@))),
    ;

    /// Inline code.
    fn visit_inline_code(&mut self, code: &str)
        ensures
            Self::obeys_visit_spec() ==> *final(self) == old(self).visit_step(VisitEvent::InlineCode(code@)),
    ;

    /// A link; its text is walked next.
    fn visit_link(&mut self, text: &[Inline], url: &str, title: Option<&str>) -> (descend: bool)
        ensures
            Self::obeys_visit_spec() ==> *final(self) == old(self).visit_step(VisitEvent::Link(view_inlines_seq(text@), url@, view_str_ref(title)))
                && descend == old(self).visit_descends(VisitEvent::Link(view_inlines_seq(text@), url@, view_str_ref(title))),
    ;

    /// An image.
    fn visit_image(&mut self, alt: &str, url: &str, title: Option<&str>)
        ensures
            Self::obeys_visit_spec() ==> *final(self) == old(self).visit_step(
                VisitEvent::Image(alt@, url@, view_str_ref(title)),
            ),
    ;

    /// A hard line break.
    fn visit_hard_break(&mut self)
        ensures
            Self::obeys_visit_spec() ==> *final(self) == old(self).visit_step(VisitEvent::HardBreak),
    ;

    /// A soft line break.
    fn visit_soft_break(&mut self)
        ensures
            Self::obeys_visit_spec() ==> *final(self) == old(self).visit_step(VisitEvent::SoftBreak),
    ;

    /// Raw inline HTML.
    fn visit_inline_html(&mut self, html: &str)
        ensures
            Self::obeys_visit_spec() ==> *final(self) == old(self).visit_step(VisitEvent::InlineHtml(html@)),
    ;

    /// Strikethrough; its inline children are walked next.
    fn visit_strikethrough(&mut self, children: &[Inline]) -> (descend: bool)
        ensures
            Self::obeys_visit_spec() ==> *final(self) == old(self).visit_step(VisitEvent::Strikethrough(view_inlines_seq(children@)))
                && descend == old(self).visit_descends(VisitEvent::Strikethrough(view_inlines_seq(children@))),
    ;
}

// ---------------------------------------------------------------------------
// What a walk does
// ---------------------------------------------------------------------------

/// The visitor after walking an inline node: its hook, then, where the
/// hook lets the walk descend, its children.
pub open spec fn walk_inline<V: AstNodeVisitor>(v: V, i: SpecInline) -> V
    decreases i,
{
    match i {
        SpecInline::Text { value, .. } => v.visit_step(VisitEvent::Text(value)),
        SpecInline::Emphasis { level, children, .. } => {
            let e = VisitEvent::Emphasis(level, children);
            if v.visit_descends(e) { walk_inlines(v.visit_step(e), children) } else { v.visit_step(e) }
        },
        SpecInline::Code { code, .. } => v.visit_step(VisitEvent::InlineCode(code)),
        SpecInline::Link { text, url, title, .. } => {
            let e = VisitEvent::Link(text, url, title);
            if v.visit_descends(e) { walk_inlines(v.visit_step(e), text) } else { v.visit_step(e) }
        },
        SpecInline::Image { alt, url, title, .. } => v.visit_step(VisitEvent::Image(alt, url, title)),
        SpecInline::HardBreak { .. } => v.visit_step(VisitEvent::HardBreak),
        SpecInline::SoftBreak { .. } => v.visit_step(VisitEvent::SoftBreak),
        SpecInline::HtmlInline { html, .. } => v.visit_step(VisitEvent::InlineHtml(html)),
        SpecInline::Strikethrough { children, .. } => {
            let e = VisitEvent::Strikethrough(children);
            if v.visit_descends(e) { walk_inlines(v.visit_step(e), children) } else { v.visit_step(e) }
        },
    }
}

/// The visitor after walking inline nodes, one after the other.
pub open spec fn walk_inlines<V: AstNodeVisitor>(v: V, s: Seq<SpecInline>) -> V
    decreases s,
{
    if s.len() == 0 {
        v
    } else {
        walk_inline(walk_inlines(v, s.drop_last()), s.last())
    }
}

/// The visitor after walking table cells: each cell's hook, then (where
/// it lets the walk descend) its inline content.
pub open spec fn walk_cells<V: AstNodeVisitor>(v: V, cells: Seq<Seq<SpecInline>>) -> V
    decreases cells.len(),
{
    if cells.len() == 0 {
        v
    } else {
        let u = walk_cells(v, cells.drop_last());
        let e = VisitEvent::TableCell(cells.last());
        if u.visit_descends(e) { walk_inlines(u.visit_step(e), cells.last()) } else { u.visit_step(e) }
    }
}

/// The visitor after walking a table row: the row's hook, then (where it
/// lets the walk descend) its cells.
pub open spec fn walk_row<V: AstNodeVisitor>(v: V, row: Seq<Seq<SpecInline>>, aligns: Seq<TableCellAlignment>, header: bool) -> V {
    let e = VisitEvent::TableRow(row, aligns, header);
    if v.visit_descends(e) { walk_cells(v.visit_step(e), row) } else { v.visit_step(e) }
}

/// The visitor after walking the body rows of a table.
pub open spec fn walk_rows<V: AstNodeVisitor>(v: V, rows: Seq<Seq<Seq<SpecInline>>>, aligns: Seq<TableCellAlignment>) -> V
    decreases rows.len(),
{
    if rows.len() == 0 {
        v
    } else {
        walk_row(walk_rows(v, rows.drop_last(), aligns), rows.last(), aligns, false)
    }
}

/// The visitor after walking a block: its hook, then, where the hook lets
/// the walk descend, its children.
pub open spec fn walk_block<V: AstNodeVisitor>(v: V, b: SpecBlock) -> V
    decreases b,
{
    match b {
        SpecBlock::Heading { level, children, attrs, .. } => {
            let e = VisitEvent::Heading(level, children, attrs);
            if v.visit_descends(e) { walk_inlines(v.visit_step(e), children) } else { v.visit_step(e) }
        },
        SpecBlock::Paragraph { children, attrs, .. } => {
            let e = VisitEvent::Paragraph(children, attrs);
            if v.visit_descends(e) { walk_inlines(v.visit_step(e), children) } else { v.visit_step(e) }
        },
        SpecBlock::CodeBlock { lang, code, attrs, .. } => v.visit_step(VisitEvent::CodeBlock(lang, code, attrs)),
        SpecBlock::BlockQuote { children, attrs, .. } => {
            let e = VisitEvent::BlockQuote(children, attrs);
            if v.visit_descends(e) { walk_blocks(v.visit_step(e), children) } else { v.visit_step(e) }
        },
        SpecBlock::List { ordered, items, attrs, .. } => {
            let e = VisitEvent::List(ordered, items, attrs);
            if v.visit_descends(e) { walk_items(v.visit_step(e), items) } else { v.visit_step(e) }
        },
        SpecBlock::ThematicBreak { attrs, .. } => v.visit_step(VisitEvent::ThematicBreak(attrs)),
        SpecBlock::HtmlBlock { html, .. } => v.visit_step(VisitEvent::HtmlBlock(html)),
        SpecBlock::Table { table, attrs, .. } => {
            let e = VisitEvent::Table(table, attrs);
            if v.visit_descends(e) {
                walk_rows(walk_row(v.visit_step(e), table.header, table.alignments, true), table.rows, table.alignments)
            } else {
                v.visit_step(e)
            }
        },
    }
}

/// The visitor after walking blocks, one after the other.
pub open spec fn walk_blocks<V: AstNodeVisitor>(v: V, s: Seq<SpecBlock>) -> V
    decreases s,
{
    if s.len() == 0 {
        v
    } else {
        walk_block(walk_blocks(v, s.drop_last()), s.last())
    }
}

/// The visitor after walking a list item: its hook, then (where it lets
/// the walk descend) its blocks.
pub open spec fn walk_item<V: AstNodeVisitor>(v: V, it: SpecListItem) -> V
    decreases it,
{
    let e = VisitEvent::ListItem(it);
    if v.visit_descends(e) { walk_blocks(v.visit_step(e), it.children) } else { v.visit_step(e) }
}

/// The visitor after walking list items, one after the other.
pub open spec fn walk_items<V: AstNodeVisitor>(v: V, s: Seq<SpecListItem>) -> V
    decreases s,
{
    if s.len() == 0 {
        v
    } else {
        walk_item(walk_items(v, s.drop_last()), s.last())
    }
}

/// The visitor after walking a document: entering it, its blocks, leaving
/// it.
pub open spec fn walk_document<V: AstNodeVisitor>(v: V, d: SpecDocument) -> V {
    walk_blocks(v.visit_step(VisitEvent::DocumentEnter(d)), d.children).visit_step(VisitEvent::DocumentExit(d))
}

// ---------------------------------------------------------------------------
// The nodes of a document, in document order
// ---------------------------------------------------------------------------

/// The events of an inline node and of every node inside it, in document
/// order (the node first, then its children).
pub open spec fn inline_events(i: SpecInline) -> Seq<VisitEvent>
    decreases i,
{
    match i {
        SpecInline::Text { value, .. } => seq![VisitEvent::Text(value)],
        SpecInline::Emphasis { level, children, .. } => seq![VisitEvent::Emphasis(level, children)] + inlines_events(children),
        SpecInline::Code { code, .. } => seq![VisitEvent::InlineCode(code)],
        SpecInline::Link { text, url, title, .. } => seq![VisitEvent::Link(text, url, title)] + inlines_events(text),
        SpecInline::Image { alt, url, title, .. } => seq![VisitEvent::Image(alt, url, title)],
        SpecInline::HardBreak { .. } => seq![VisitEvent::HardBreak],
        SpecInline::SoftBreak { .. } => seq![VisitEvent::SoftBreak],
        SpecInline::HtmlInline { html, .. } => seq![VisitEvent::InlineHtml(html)],
        SpecInline::Strikethrough { children, .. } => seq![VisitEvent::Strikethrough(children)] + inlines_events(children),
    }
}

/// The events of the nodes of `s` and of every node inside them, in order.
pub open spec fn inlines_events(s: Seq<SpecInline>) -> Seq<VisitEvent>
    decreases s,
{
    if s.len() == 0 {
        Seq::empty()
    } else {
        inlines_events(s.drop_last()) + inline_events(s.last())
    }
}

/// The events of table cells and of the inline nodes inside them.
pub open spec fn cells_events(cells: Seq<Seq<SpecInline>>) -> Seq<VisitEvent>
    decreases cells.len(),
{
    if cells.len() == 0 {
        Seq::empty()
    } else {
        cells_events(cells.drop_last()) + seq![VisitEvent::TableCell(cells.last())] + inlines_events(cells.last())
    }
}

/// The events of a table row, of its cells and of their inline nodes.
pub open spec fn row_events(row: Seq<Seq<SpecInline>>, aligns: Seq<TableCellAlignment>, header: bool) -> Seq<VisitEvent> {
    seq![VisitEvent::TableRow(row, aligns, header)] + cells_events(row)
}

/// The events of the body rows of a table and of everything in them.
pub open spec fn rows_events(rows: Seq<Seq<Seq<SpecInline>>>, aligns: Seq<TableCellAlignment>) -> Seq<VisitEvent>
    decreases rows.len(),
{
    if rows.len() == 0 {
        Seq::empty()
    } else {
        rows_events(rows.drop_last(), aligns) + row_events(rows.last(), aligns, false)
    }
}

/// The events of a block and of every node inside it, in document order: a
/// table's header row comes before its body rows.
pub open spec fn block_events(b: SpecBlock) -> Seq<VisitEvent>
    decreases b,
{
    match b {
        SpecBlock::Heading { level, children, attrs, .. } => seq![VisitEvent::Heading(level, children, attrs)] + inlines_events(children),
        SpecBlock::Paragraph { children, attrs, .. } => seq![VisitEvent::Paragraph(children, attrs)] + inlines_events(children),
        SpecBlock::CodeBlock { lang, code, attrs, .. } => seq![VisitEvent::CodeBlock(lang, code, attrs)],
        SpecBlock::BlockQuote { children, attrs, .. } => seq![VisitEvent::BlockQuote(children, attrs)] + blocks_events(children),
        SpecBlock::List { ordered, items, attrs, .. } => seq![VisitEvent::List(ordered, items, attrs)] + items_events(items),
        SpecBlock::ThematicBreak { attrs, .. } => seq![VisitEvent::ThematicBreak(attrs)],
        SpecBlock::HtmlBlock { html, .. } => seq![VisitEvent::HtmlBlock(html)],
        SpecBlock::Table { table, attrs, .. } => seq![VisitEvent::Table(table, attrs)]
            + row_events(table.header, table.alignments, true) + rows_events(table.rows, table.alignments),
    }
}

/// The events of blocks and of every node inside them, in order.
pub open spec fn blocks_events(s: Seq<SpecBlock>) -> Seq<VisitEvent>
    decreases s,
{
    if s.len() == 0 {
        Seq::empty()
    } else {
        blocks_events(s.drop_last()) + block_events(s.last())
    }
}

/// The events of a list item and of every node inside it.
pub open spec fn item_events(it: SpecListItem) -> Seq<VisitEvent>
    decreases it,
{
    seq![VisitEvent::ListItem(it)] + blocks_events(it.children)
}

/// The events of list items and of every node inside them, in order.
pub open spec fn items_events(s: Seq<SpecListItem>) -> Seq<VisitEvent>
    decreases s,
{
    if s.len() == 0 {
        Seq::empty()
    } else {
        items_events(s.drop_last()) + item_events(s.last())
    }
}

/// The events of every node of a document, in document order, between
/// entering and leaving it.
pub open spec fn document_events(d: SpecDocument) -> Seq<VisitEvent> {
    seq![VisitEvent::DocumentEnter(d)] + blocks_events(d.children) + seq![VisitEvent::DocumentExit(d)]
}

/// A visitor after the hooks of `s`, one after the other.
pub open spec fn run_events<V: AstNodeVisitor>(v: V, s: Seq<VisitEvent>) -> V
    decreases s.len(),
{
    if s.len() == 0 {
        v
    } else {
        run_events(v, s.drop_last()).visit_step(s.last())
    }
}

proof fn lemma_run_events_append<V: AstNodeVisitor>(v: V, a: Seq<VisitEvent>, b: Seq<VisitEvent>)
    ensures
        run_events(v, a + b) == run_events(run_events(v, a), b),
    decreases b.len(),
{
    if b.len() == 0 {
        assert(a + b =~= a);
    } else {
        assert((a + b).drop_last() =~= a + b.drop_last());
        lemma_run_events_append(v, a, b.drop_last());
    }
}

proof fn lemma_run_events_one<V: AstNodeVisitor>(v: V, e: VisitEvent)
    ensures
        run_events(v, seq![e]) == v.visit_step(e),
{
    let s = seq![e];
    assert(s.drop_last() =~= Seq::<VisitEvent>::empty());
    assert(run_events(v, s.drop_last()) == v);
    assert(s.last() == e);
}

/// Whether every hook of `V` lets the walk descend into the children.
pub open spec fn always_descends<V: AstNodeVisitor>() -> bool {
    forall|u: V, e: VisitEvent| #[trigger] u.visit_descends(e)
}

proof fn lemma_head<V: AstNodeVisitor>(v: V, e: VisitEvent, rest: Seq<VisitEvent>)
    ensures
        run_events(v, seq![e] + rest) == run_events(v.visit_step(e), rest),
{
    lemma_run_events_append(v, seq![e], rest);
    lemma_run_events_one(v, e);
}

proof fn lemma_walk_inline_events<V: AstNodeVisitor>(v: V, i: SpecInline)
    requires
        always_descends::<V>(),
    ensures
        walk_inline(v, i) == run_events(v, inline_events(i)),
    decreases i,
{
    match i {
        SpecInline::Emphasis { level, children, .. } => {
            let e = VisitEvent::Emphasis(level, children);
            assert(v.visit_descends(e));
            lemma_head(v, e, inlines_events(children));
            lemma_walk_inlines_events(v.visit_step(e), children);
        },
        SpecInline::Link { text, url, title, .. } => {
            let e = VisitEvent::Link(text, url, title);
            assert(v.visit_descends(e));
            lemma_head(v, e, inlines_events(text));
            lemma_walk_inlines_events(v.visit_step(e), text);
        },
        SpecInline::Strikethrough { children, .. } => {
            let e = VisitEvent::Strikethrough(children);
            assert(v.visit_descends(e));
            lemma_head(v, e, inlines_events(children));
            lemma_walk_inlines_events(v.visit_step(e), children);
        },
        SpecInline::Text { value, .. } => lemma_run_events_one(v, VisitEvent::Text(value)),
        SpecInline::Code { code, .. } => lemma_run_events_one(v, VisitEvent::InlineCode(code)),
        SpecInline::Image { alt, url, title, .. } => lemma_run_events_one(v, VisitEvent::Image(alt, url, title)),
        SpecInline::HardBreak { .. } => lemma_run_events_one(v, VisitEvent::HardBreak),
        SpecInline::SoftBreak { .. } => lemma_run_events_one(v, VisitEvent::SoftBreak),
        SpecInline::HtmlInline { html, .. } => lemma_run_events_one(v, VisitEvent::InlineHtml(html)),
    }
}

proof fn lemma_walk_inlines_events<V: AstNodeVisitor>(v: V, s: Seq<SpecInline>)
    requires
        always_descends::<V>(),
    ensures
        walk_inlines(v, s) == run_events(v, inlines_events(s)),
    decreases s,
{
    if s.len() > 0 {
        assert(decreases_to!(s => s.last()));
        lemma_walk_inlines_events(v, s.drop_last());
        lemma_run_events_append(v, inlines_events(s.drop_last()), inline_events(s.last()));
        lemma_walk_inline_events(walk_inlines(v, s.drop_last()), s.last());
    }
}

proof fn lemma_walk_cells_events<V: AstNodeVisitor>(v: V, cells: Seq<Seq<SpecInline>>)
    requires
        always_descends::<V>(),
    ensures
        walk_cells(v, cells) == run_events(v, cells_events(cells)),
    decreases cells.len(),
{
    if cells.len() > 0 {
        let c = cells.last();
        let e = VisitEvent::TableCell(c);
        lemma_walk_cells_events(v, cells.drop_last());
        let u = walk_cells(v, cells.drop_last());
        assert(u.visit_descends(e));
        lemma_run_events_append(v, cells_events(cells.drop_last()), seq![e] + inlines_events(c));
        assert(cells_events(cells) =~= cells_events(cells.drop_last()) + (seq![e] + inlines_events(c)));
        lemma_head(u, e, inlines_events(c));
        lemma_walk_inlines_events(u.visit_step(e), c);
    }
}

proof fn lemma_walk_row_events<V: AstNodeVisitor>(v: V, row: Seq<Seq<SpecInline>>, aligns: Seq<TableCellAlignment>, header: bool)
    requires
        always_descends::<V>(),
    ensures
        walk_row(v, row, aligns, header) == run_events(v, row_events(row, aligns, header)),
{
    let e = VisitEvent::TableRow(row, aligns, header);
    assert(v.visit_descends(e));
    lemma_head(v, e, cells_events(row));
    lemma_walk_cells_events(v.visit_step(e), row);
}

proof fn lemma_walk_rows_events<V: AstNodeVisitor>(v: V, rows: Seq<Seq<Seq<SpecInline>>>, aligns: Seq<TableCellAlignment>)
    requires
        always_descends::<V>(),
    ensures
        walk_rows(v, rows, aligns) == run_events(v, rows_events(rows, aligns)),
    decreases rows.len(),
{
    if rows.len() > 0 {
        lemma_walk_rows_events(v, rows.drop_last(), aligns);
        lemma_run_events_append(v, rows_events(rows.drop_last(), aligns), row_events(rows.last(), aligns, false));
        lemma_walk_row_events(walk_rows(v, rows.drop_last(), aligns), rows.last(), aligns, false);
    }
}

proof fn lemma_walk_block_events<V: AstNodeVisitor>(v: V, b: SpecBlock)
    requires
        always_descends::<V>(),
    ensures
        walk_block(v, b) == run_events(v, block_events(b)),
    decreases b,
{
    match b {
        SpecBlock::Heading { level, children, attrs, .. } => {
            let e = VisitEvent::Heading(level, children, attrs);
            assert(v.visit_descends(e));
            lemma_head(v, e, inlines_events(children));
            lemma_walk_inlines_events(v.visit_step(e), children);
        },
        SpecBlock::Paragraph { children, attrs, .. } => {
            let e = VisitEvent::Paragraph(children, attrs);
            assert(v.visit_descends(e));
            lemma_head(v, e, inlines_events(children));
            lemma_walk_inlines_events(v.visit_step(e), children);
        },
        SpecBlock::CodeBlock { lang, code, attrs, .. } => lemma_run_events_one(v, VisitEvent::CodeBlock(lang, code, attrs)),
        SpecBlock::BlockQuote { children, attrs, .. } => {
            let e = VisitEvent::BlockQuote(children, attrs);
            assert(v.visit_descends(e));
            lemma_head(v, e, blocks_events(children));
            lemma_walk_blocks_events(v.visit_step(e), children);
        },
        SpecBlock::List { ordered, items, attrs, .. } => {
            let e = VisitEvent::List(ordered, items, attrs);
            assert(v.visit_descends(e));
            lemma_head(v, e, items_events(items));
            lemma_walk_items_events(v.visit_step(e), items);
        },
        SpecBlock::ThematicBreak { attrs, .. } => lemma_run_events_one(v, VisitEvent::ThematicBreak(attrs)),
        SpecBlock::HtmlBlock { html, .. } => lemma_run_events_one(v, VisitEvent::HtmlBlock(html)),
        SpecBlock::Table { table, attrs, .. } => {
            let e = VisitEvent::Table(table, attrs);
            assert(v.visit_descends(e));
            let h = row_events(table.header, table.alignments, true);
            let r = rows_events(table.rows, table.alignments);
            assert(block_events(b) =~= seq![e] + (h + r));
            lemma_head(v, e, h + r);
            lemma_run_events_append(v.visit_step(e), h, r);
            lemma_walk_row_events(v.visit_step(e), table.header, table.alignments, true);
            lemma_walk_rows_events(walk_row(v.visit_step(e), table.header, table.alignments, true), table.rows, table.alignments);
        },
    }
}

proof fn lemma_walk_blocks_events<V: AstNodeVisitor>(v: V, s: Seq<SpecBlock>)
    requires
        always_descends::<V>(),
    ensures
        walk_blocks(v, s) == run_events(v, blocks_events(s)),
    decreases s,
{
    if s.len() > 0 {
        assert(decreases_to!(s => s.last()));
        lemma_walk_blocks_events(v, s.drop_last());
        lemma_run_events_append(v, blocks_events(s.drop_last()), block_events(s.last()));
        lemma_walk_block_events(walk_blocks(v, s.drop_last()), s.last());
    }
}

proof fn lemma_walk_item_events<V: AstNodeVisitor>(v: V, it: SpecListItem)
    requires
        always_descends::<V>(),
    ensures
        walk_item(v, it) == run_events(v, item_events(it)),
    decreases it,
{
    let e = VisitEvent::ListItem(it);
    assert(v.visit_descends(e));
    lemma_head(v, e, blocks_events(it.children));
    lemma_walk_blocks_events(v.visit_step(e), it.children);
}

proof fn lemma_walk_items_events<V: AstNodeVisitor>(v: V, s: Seq<SpecListItem>)
    requires
        always_descends::<V>(),
    ensures
        walk_items(v, s) == run_events(v, items_events(s)),
    decreases s,
{
    if s.len() > 0 {
        assert(decreases_to!(s => s.last()));
        lemma_walk_items_events(v, s.drop_last());
        lemma_run_events_append(v, items_events(s.drop_last()), item_events(s.last()));
        lemma_walk_item_events(walk_items(v, s.drop_last()), s.last());
    }
}

/// A walk reaches every node of the document, in document order: for a
/// visitor whose hooks always let the walk descend, walking a document
/// moves it through the hook of every node, each once (a table's header
/// row, then each body row, with their cells and inline nodes; each list
/// item with its blocks; each nested inline node), exactly as applying
/// those hooks one after the other in document order does.
pub proof fn lemma_walk_reaches_every_node<V: AstNodeVisitor>(v: V, d: SpecDocument)
    requires
        always_descends::<V>(),
    ensures
        walk_document(v, d) == run_events(v, document_events(d)),
{
    let enter = VisitEvent::DocumentEnter(d);
    let exit = VisitEvent::DocumentExit(d);
    let mid = blocks_events(d.children);
    lemma_head(v, enter, mid + seq![exit]);
    assert(document_events(d) =~= seq![enter] + (mid + seq![exit]));
    lemma_run_events_append(v.visit_step(enter), mid, seq![exit]);
    lemma_run_events_one(run_events(v.visit_step(enter), mid), exit);
    lemma_walk_blocks_events(v.visit_step(enter), d.children);
}

proof fn lemma_seq_step<A>(s: Seq<A>, k: int)
    requires
        0 <= k < s.len(),
    ensures
        s.subrange(0, k + 1).drop_last() == s.subrange(0, k),
        s.subrange(0, k + 1).last() == s[k],
{
    assert(s.subrange(0, k + 1).drop_last() =~= s.subrange(0, k));
}

fn opt_str(o: &Option<String>) -> (r: Option<&str>)
    ensures
        view_str_ref(r) == view_opt_str(*o),
{
    match o {
        Some(s) => Some(s.as_str()),
        None => None,
    }
}

fn opt_attrs(a: &Option<KramdownAttributes>) -> (r: Option<&KramdownAttributes>)
    ensures
        view_attrs_ref(r) == view_opt_attrs(*a),
{
    match a {
        Some(x) => Some(x),
        None => None,
    }
}

// ---------------------------------------------------------------------------
// The walk
// ---------------------------------------------------------------------------

/// Walk `doc` with `visitor`: the document's enter hook, every block in
/// document order, then its exit hook.
pub fn visit_document<V: AstNodeVisitor>(visitor: &mut V, doc: &Document)
    ensures
        V::obeys_visit_spec() ==> *final(visitor) == walk_document(*old(visitor), view_document(*doc)),
{
    visitor.visit_document_enter(doc);
    visit_blocks(visitor, &doc.children);
    visitor.visit_document_exit(doc);
}

/// Walk a sequence of blocks in order.
pub fn visit_blocks<V: AstNodeVisitor>(visitor: &mut V, blocks: &Vec<Block>)
    ensures
        V::obeys_visit_spec() ==> *final(visitor) == walk_blocks(*old(visitor), view_blocks(*blocks)),
    decreases blocks,
{
    let ghost v0 = *visitor;
    let ghost s = view_blocks(*blocks);
    proof {
        assert(s.subrange(0, 0) =~= Seq::<SpecBlock>::empty());
    }
    let mut k: usize = 0;
    while k < blocks.len()
        invariant
            s == view_blocks(*blocks),
            s.len() == blocks@.len(),
            k <= blocks@.len(),
            V::obeys_visit_spec() ==> *visitor == walk_blocks(v0, s.subrange(0, k as int)),
        decreases blocks@.len() - k,
    {
        assert(s[k as int] == view_block(blocks@[k as int]));
        visit_block(visitor, &blocks[k]);
        proof {
            lemma_seq_step(s, k as int);
        }
        k = k + 1;
    }
    assert(s.subrange(0, blocks@.len() as int) =~= s);
}

/// Walk one block: its hook, then (where the hook lets it) its children.
pub fn visit_block<V: AstNodeVisitor>(visitor: &mut V, block: &Block)
    ensures
        V::obeys_visit_spec() ==> *final(visitor) == walk_block(*old(visitor), view_block(*block)),
    decreases block,
{
    match block {
        Block::Heading { level, children, attrs, .. } => {
            proof { lemma_view_inlines(*children); }
            if visitor.visit_heading(*level, children.as_slice(), opt_attrs(attrs)) {
                visit_inlines(visitor, children);
            }
        },
        Block::Paragraph { children, attrs, .. } => {
            proof { lemma_view_inlines(*children); }
            if visitor.visit_paragraph(children.as_slice(), opt_attrs(attrs)) {
                visit_inlines(visitor, children);
            }
        },
        Block::CodeBlock { lang, code, attrs, .. } => {
            visitor.visit_code_block(opt_str(lang), code.as_str(), opt_attrs(attrs));
        },
        Block::BlockQuote { children, attrs, .. } => {
            proof { lemma_view_blocks(*children); }
            if visitor.visit_block_quote(children.as_slice(), opt_attrs(attrs)) {
                visit_blocks(visitor, children);
            }
        },
        Block::List { ordered, items, attrs, .. } => {
            proof { lemma_view_items(*items); }
            if visitor.visit_list(*ordered, items.as_slice(), opt_attrs(attrs)) {
                visit_list_items(visitor, items);
            }
        },
        Block::ThematicBreak { attrs, .. } => {
            visitor.visit_thematic_break(opt_attrs(attrs));
        },
        Block::HtmlBlock { html, .. } => {
            visitor.visit_html_block(html.as_str());
        },
        Block::Table { table, attrs, .. } => {
            if visitor.visit_table(table, opt_attrs(attrs)) {
                visit_table_row(visitor, &table.header, &table.alignments, true);
                let ghost v2 = *visitor;
                let ghost rows = view_rows(table.rows@);
                proof {
                    assert(rows.subrange(0, 0) =~= Seq::<Seq<Seq<SpecInline>>>::empty());
                }
                let mut k: usize = 0;
                while k < table.rows.len()
                    invariant
                        rows == view_rows(table.rows@),
                        rows.len() == table.rows@.len(),
                        k <= table.rows@.len(),
                        V::obeys_visit_spec() ==> *visitor == walk_rows(v2, rows.subrange(0, k as int), table.alignments@),
                    decreases table.rows@.len() - k,
                {
                    visit_table_row(visitor, &table.rows[k], &table.alignments, false);
                    proof {
                        lemma_seq_step(rows, k as int);
                    }
                    k = k + 1;
                }
                proof {
                    assert(rows.subrange(0, table.rows@.len() as int) =~= rows);
                }
            }
        },
    }
}

/// Walk the items of a list in order.
fn visit_list_items<V: AstNodeVisitor>(visitor: &mut V, items: &Vec<ListItem>)
    ensures
        V::obeys_visit_spec() ==> *final(visitor) == walk_items(*old(visitor), view_items(*items)),
    decreases items,
{
    let ghost v0 = *visitor;
    let ghost s = view_items(*items);
    proof {
        assert(s.subrange(0, 0) =~= Seq::<SpecListItem>::empty());
    }
    let mut k: usize = 0;
    while k < items.len()
        invariant
            s == view_items(*items),
            s.len() == items@.len(),
            k <= items@.len(),
            V::obeys_visit_spec() ==> *visitor == walk_items(v0, s.subrange(0, k as int)),
        decreases items@.len() - k,
    {
        assert(s[k as int] == view_item(items@[k as int]));
        visit_list_item(visitor, &items[k]);
        proof {
            lemma_seq_step(s, k as int);
        }
        k = k + 1;
    }
    assert(s.subrange(0, items@.len() as int) =~= s);
}

/// Walk one list item: its hook, then (where the hook lets it) its blocks.
fn visit_list_item<V: AstNodeVisitor>(visitor: &mut V, item: &ListItem)
    ensures
        V::obeys_visit_spec() ==> *final(visitor) == walk_item(*old(visitor), view_item(*item)),
    decreases item,
{
    if visitor.visit_list_item(item) {
        visit_blocks(visitor, &item.children);
    }
}

/// Walk one table row: its hook, then (where the hook lets it) each cell's
/// hook and, where that lets it, the cell's inline content.
fn visit_table_row<V: AstNodeVisitor>(
    visitor: &mut V,
    row: &TableRow,
    alignments: &Vec<TableCellAlignment>,
    header: bool,
)
    ensures
        V::obeys_visit_spec() ==> *final(visitor) == walk_row(*old(visitor), view_row(*row), alignments@, header),
{
    let ghost r = view_row(*row);
    if visitor.visit_table_row(row, alignments.as_slice(), header) {
        let ghost v1 = *visitor;
        proof {
            assert(r.subrange(0, 0) =~= Seq::<Seq<SpecInline>>::empty());
        }
        let mut k: usize = 0;
        while k < row.cells.len()
            invariant
                r == view_row(*row),
                r.len() == row.cells@.len(),
                k <= row.cells@.len(),
                V::obeys_visit_spec() ==> *visitor == walk_cells(v1, r.subrange(0, k as int)),
            decreases row.cells@.len() - k,
        {
            assert(r[k as int] == view_inlines(row.cells@[k as int].children));
            if visitor.visit_table_cell(&row.cells[k]) {
                visit_inlines(visitor, &row.cells[k].children);
            }
            proof {
                lemma_seq_step(r, k as int);
            }
            k = k + 1;
        }
        proof {
            assert(r.subrange(0, row.cells@.len() as int) =~= r);
        }
    }
}

/// Walk a sequence of inline nodes in order.
pub fn visit_inlines<V: AstNodeVisitor>(visitor: &mut V, inlines: &Vec<Inline>)
    ensures
        V::obeys_visit_spec() ==> *final(visitor) == walk_inlines(*old(visitor), view_inlines(*inlines)),
    decreases inlines,
{
    let ghost v0 = *visitor;
    let ghost s = view_inlines(*inlines);
    proof {
        assert(s.subrange(0, 0) =~= Seq::<SpecInline>::empty());
    }
    let mut k: usize = 0;
    while k < inlines.len()
        invariant
            s == view_inlines(*inlines),
            s.len() == inlines@.len(),
            k <= inlines@.len(),
            V::obeys_visit_spec() ==> *visitor == walk_inlines(v0, s.subrange(0, k as int)),
        decreases inlines@.len() - k,
    {
        assert(s[k as int] == view_inline(inlines@[k as int]));
        visit_inline(visitor, &inlines[k]);
        proof {
            lemma_seq_step(s, k as int);
        }
        k = k + 1;
    }
    assert(s.subrange(0, inlines@.len() as int) =~= s);
}

/// Walk one inline node: its hook, then (where the hook lets it) its
/// children.
pub fn visit_inline<V: AstNodeVisitor>(visitor: &mut V, inline: &Inline)
    ensures
        V::obeys_visit_spec() ==> *final(visitor) == walk_inline(*old(visitor), view_inline(*inline)),
    decreases inline,
{
    match inline {
        Inline::Text { value, .. } => visitor.visit_text(value.as_str()),
        Inline::Emphasis { level, children, .. } => {
            proof { lemma_view_inlines(*children); }
            if visitor.visit_emphasis(*level, children.as_slice()) {
                visit_inlines(visitor, children);
            }
        },
        Inline::Code { code, .. } => visitor.visit_inline_code(code.as_str()),
        Inline::Link { text, url, title, .. } => {
            proof { lemma_view_inlines(*text); }
            if visitor.visit_link(text.as_slice(), url.as_str(), opt_str(title)) {
                visit_inlines(visitor, text);
            }
        },
        Inline::Image { alt, url, title, .. } => {
            visitor.visit_image(alt.as_str(), url.as_str(), opt_str(title));
        },
        Inline::HardBreak { .. } => visitor.visit_hard_break(),
        Inline::SoftBreak { .. } => visitor.visit_soft_break(),
        Inline::HtmlInline { html, .. } => visitor.visit_inline_html(html.as_str()),
        Inline::Strikethrough { children, .. } => {
            proof { lemma_view_inlines(*children); }
            if visitor.visit_strikethrough(children.as_slice()) {
                visit_inlines(visitor, children);
            }
        },
    }
}

// ---------------------------------------------------------------------------
// Example visitors
// ---------------------------------------------------------------------------

/// `n + 1`, or `n` when that would not fit in a `usize`.
pub open spec fn sat_inc(n: usize) -> usize {
    if n < usize::MAX {
        (n + 1) as usize
    } else {
        n
    }
}

fn inc(n: usize) -> (r: usize)
    ensures
        r == sat_inc(n),
{
    if n < usize::MAX {
        n + 1
    } else {
        n
    }
}

/// A visitor that counts various node types. Useful for testing and stats.
#[derive(Debug)]
pub struct NodeCounter {
    pub headings: usize,
    pub paragraphs: usize,
    pub code_blocks: usize,
    pub block_quotes: usize,
    pub lists: usize,
    pub list_items: usize,
    pub thematic_breaks: usize,
    pub links: usize,
    pub images: usize,
    pub emphasis: usize,
    pub text_nodes: usize,
    pub inline_code: usize,
    pub tables: usize,
    pub strikethroughs: usize,
}

impl Default for NodeCounter {
    /// All counts zero.
    fn default() -> (c: Self)
        ensures
            c.headings == 0,
            c.paragraphs == 0,
            c.code_blocks == 0,
            c.block_quotes == 0,
            c.lists == 0,
            c.list_items == 0,
            c.thematic_breaks == 0,
            c.links == 0,
            c.images == 0,
            c.emphasis == 0,
            c.text_nodes == 0,
            c.inline_code == 0,
            c.tables == 0,
            c.strikethroughs == 0,
    {
        NodeCounter {
            headings: 0,
            paragraphs: 0,
            code_blocks: 0,
            block_quotes: 0,
            lists: 0,
            list_items: 0,
            thematic_breaks: 0,
            links: 0,
            images: 0,
            emphasis: 0,
            text_nodes: 0,
            inline_code: 0,
            tables: 0,
            strikethroughs: 0,
        }
    }
}

/// Each hook of [`NodeCounter`] adds one to its own count and leaves the
/// others as they are.
impl AstNodeVisitor for NodeCounter {
    open spec fn obeys_visit_spec() -> bool {
        true
    }

    open spec fn visit_step(self, e: VisitEvent) -> NodeCounter {
        match e {
            VisitEvent::Heading(..) => NodeCounter { headings: sat_inc(self.headings), ..self },
            VisitEvent::Paragraph(..) => NodeCounter { paragraphs: sat_inc(self.paragraphs), ..self },
            VisitEvent::CodeBlock(..) => NodeCounter { code_blocks: sat_inc(self.code_blocks), ..self },
            VisitEvent::BlockQuote(..) => NodeCounter { block_quotes: sat_inc(self.block_quotes), ..self },
            VisitEvent::List(..) => NodeCounter { lists: sat_inc(self.lists), ..self },
            VisitEvent::ListItem(..) => NodeCounter { list_items: sat_inc(self.list_items), ..self },
            VisitEvent::ThematicBreak(..) => NodeCounter { thematic_breaks: sat_inc(self.thematic_breaks), ..self },
            VisitEvent::Text(..) => NodeCounter { text_nodes: sat_inc(self.text_nodes), ..self },
            VisitEvent::Emphasis(..) => NodeCounter { emphasis: sat_inc(self.emphasis), ..self },
            VisitEvent::InlineCode(..) => NodeCounter { inline_code: sat_inc(self.inline_code), ..self },
            VisitEvent::Link(..) => NodeCounter { links: sat_inc(self.links), ..self },
            VisitEvent::Image(..) => NodeCounter { images: sat_inc(self.images), ..self },
            VisitEvent::Table(..) => NodeCounter { tables: sat_inc(self.tables), ..self },
            VisitEvent::Strikethrough(..) => NodeCounter { strikethroughs: sat_inc(self.strikethroughs), ..self },
            _ => self,
        }
    }

    fn visit_document_enter(&mut self, doc: &Document) {
    }

    fn visit_document_exit(&mut self, doc: &Document) {
    }

    fn visit_html_block(&mut self, html: &str) {
    }

    fn visit_table_row(&mut self, row: &TableRow, alignments: &[TableCellAlignment], header: bool) -> (descend: bool)
        ensures
            descend,
    {
        true
    }

    fn visit_table_cell(&mut self, cell: &TableCell) -> (descend: bool)
        ensures
            descend,
    {
        true
    }

    fn visit_hard_break(&mut self) {
    }

    fn visit_soft_break(&mut self) {
    }

    fn visit_inline_html(&mut self, html: &str) {
    }

    fn visit_heading(&mut self, level: u8, children: &[Inline], attrs: Option<&KramdownAttributes>) -> (descend: bool)
        ensures
            *final(self) == (NodeCounter { headings: sat_inc(old(self).headings), ..*old(self) }),
            descend,
    {
        self.headings = inc(self.headings);
        true
    }

    fn visit_paragraph(&mut self, children: &[Inline], attrs: Option<&KramdownAttributes>) -> (descend: bool)
        ensures
            *final(self) == (NodeCounter { paragraphs: sat_inc(old(self).paragraphs), ..*old(self) }),
            descend,
    {
        self.paragraphs = inc(self.paragraphs);
        true
    }

    fn visit_code_block(&mut self, lang: Option<&str>, code: &str, attrs: Option<&KramdownAttributes>)
        ensures
            *final(self) == (NodeCounter { code_blocks: sat_inc(old(self).code_blocks), ..*old(self) }),
    {
        self.code_blocks = inc(self.code_blocks);
    }

    fn visit_block_quote(&mut self, children: &[Block], attrs: Option<&KramdownAttributes>) -> (descend: bool)
        ensures
            *final(self) == (NodeCounter { block_quotes: sat_inc(old(self).block_quotes), ..*old(self) }),
            descend,
    {
        self.block_quotes = inc(self.block_quotes);
        true
    }

    fn visit_list(&mut self, ordered: bool, items: &[ListItem], attrs: Option<&KramdownAttributes>) -> (descend: bool)
        ensures
            *final(self) == (NodeCounter { lists: sat_inc(old(self).lists), ..*old(self) }),
            descend,
    {
        self.lists = inc(self.lists);
        true
    }

    fn visit_list_item(&mut self, item: &ListItem) -> (descend: bool)
        ensures
            *final(self) == (NodeCounter { list_items: sat_inc(old(self).list_items), ..*old(self) }),
            descend,
    {
        self.list_items = inc(self.list_items);
        true
    }

    fn visit_thematic_break(&mut self, attrs: Option<&KramdownAttributes>)
        ensures
            *final(self) == (NodeCounter { thematic_breaks: sat_inc(old(self).thematic_breaks), ..*old(self) }),
    {
        self.thematic_breaks = inc(self.thematic_breaks);
    }

    fn visit_text(&mut self, text: &str)
        ensures
            *final(self) == (NodeCounter { text_nodes: sat_inc(old(self).text_nodes), ..*old(self) }),
    {
        self.text_nodes = inc(self.text_nodes);
    }

    fn visit_emphasis(&mut self, level: EmphasisLevel, children: &[Inline]) -> (descend: bool)
        ensures
            *final(self) == (NodeCounter { emphasis: sat_inc(old(self).emphasis), ..*old(self) }),
            descend,
    {
        self.emphasis = inc(self.emphasis);
        true
    }

    fn visit_inline_code(&mut self, code: &str)
        ensures
            *final(self) == (NodeCounter { inline_code: sat_inc(old(self).inline_code), ..*old(self) }),
    {
        self.inline_code = inc(self.inline_code);
    }

    fn visit_link(&mut self, text: &[Inline], url: &str, title: Option<&str>) -> (descend: bool)
        ensures
            *final(self) == (NodeCounter { links: sat_inc(old(self).links), ..*old(self) }),
            descend,
    {
        self.links = inc(self.links);
        true
    }

    fn visit_image(&mut self, alt: &str, url: &str, title: Option<&str>)
        ensures
            *final(self) == (NodeCounter { images: sat_inc(old(self).images), ..*old(self) }),
    {
        self.images = inc(self.images);
    }

    fn visit_table(&mut self, table: &Table, attrs: Option<&KramdownAttributes>) -> (descend: bool)
        ensures
            *final(self) == (NodeCounter { tables: sat_inc(old(self).tables), ..*old(self) }),
            descend,
    {
        self.tables = inc(self.tables);
        true
    }

    fn visit_strikethrough(&mut self, children: &[Inline]) -> (descend: bool)
        ensures
            *final(self) == (NodeCounter { strikethroughs: sat_inc(old(self).strikethroughs), ..*old(self) }),
            descend,
    {
        self.strikethroughs = inc(self.strikethroughs);
        true
    }
}

} // verus!
