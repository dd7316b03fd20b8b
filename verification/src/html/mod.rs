//! AST → HTML renderer.
//!
//! [`AstToHtml`] builds an HTML string from a [`Document`].  Call
//! [`render_document`] for the full pipeline.  What the renderer emits for
//! each node is stated by the `render_*` spec functions of this module.
//!
//! Rendering is controlled by [`crate::config::RenderOptions`] which
//! determines whether the output is a full HTML document or just a
//! fragment.

use vstd::prelude::*;
use crate::ast::{Block, Document, Inline, KramdownAttributes, ListItem, Table, TableCellAlignment, TaskState, EmphasisLevel};
use crate::ast::nodes::{SpecAttrs, SpecBlock, SpecInline, SpecListItem, SpecTable, SpecDocument, attr_string, view_attrs, view_block, view_blocks, view_inline, view_inlines, view_item, view_items, view_opt_attrs, view_document, view_row, view_table};
use crate::config::RenderOptions;
use crate::ast::span::Span;
use crate::parser::block::{view_blocks_seq, view_items_seq};
use crate::parser::inline::view_inlines_seq;
use crate::visitor::{AstNodeVisitor, view_attrs_ref, view_str_ref};
use crate::plugin_factory::{PluginContext, PluginPipeline};
use crate::parser::gfm::{spec_alignments, table_cells};
use crate::text::{trim, escape, push_escaped, push_str, push_all, str_chars, string_from_chars};

verus! {

// ---------------------------------------------------------------------------
// What is emitted
// ---------------------------------------------------------------------------

/// The attributes of an opening tag: a space and the attribute string,
/// unless there are none.
pub open spec fn attrs_html(a: Option<SpecAttrs>) -> Seq<char> {
    match a {
        Some(a) => if a.is_empty() { Seq::empty() } else { seq![' '] + attr_string(a) },
        None => Seq::empty(),
    }
}

pub open spec fn digits() -> Seq<char> {
    seq!['0', '1', '2', '3', '4', '5', '6', '7', '8', '9']
}

/// The decimal notation of `n`.
pub open spec fn u8_dec(n: u8) -> Seq<char> {
    if n < 10 {
        seq![digits()[n as int]]
    } else if n < 100 {
        seq![digits()[(n / 10) as int], digits()[(n % 10) as int]]
    } else {
        seq![digits()[(n / 100) as int], digits()[((n / 10) % 10) as int], digits()[(n % 10) as int]]
    }
}

pub open spec fn opt_title(title: Option<Seq<char>>) -> Seq<char> {
    match title {
        Some(t) => "\" title=\""@ + escape(t),
        None => Seq::empty(),
    }
}

/// The HTML of an inline node.
pub open spec fn render_inline(i: SpecInline) -> Seq<char>
    decreases i,
{
    match i {
        SpecInline::Text { value, .. } => escape(value),
        SpecInline::Emphasis { level, children, .. } => match level {
            EmphasisLevel::Italic => "<em>"@ + render_inlines(children) + "</em>"@,
            EmphasisLevel::Bold => "<strong>"@ + render_inlines(children) + "</strong>"@,
        },
        SpecInline::Code { code, .. } => "<code>"@ + escape(code) + "</code>"@,
        SpecInline::Link { text, url, title, .. } => "<a href=\""@ + escape(url) + opt_title(title)
            + "\">"@ + render_inlines(text) + "</a>"@,
        SpecInline::Image { alt, url, title, .. } => "<img src=\""@ + escape(url) + "\" alt=\""@
            + escape(alt) + opt_title(title) + "\" />"@,
        SpecInline::HardBreak { .. } => "<br />\n"@,
        SpecInline::SoftBreak { .. } => "\n"@,
        SpecInline::HtmlInline { html, .. } => html,
        SpecInline::Strikethrough { children, .. } => "<del>"@ + render_inlines(children) + "</del>"@,
    }
}

/// The HTML of inline nodes, one after the other.
pub open spec fn render_inlines(s: Seq<SpecInline>) -> Seq<char>
    decreases s,
{
    if s.len() == 0 {
        Seq::empty()
    } else {
        render_inlines(s.subrange(0, s.len() - 1)) + render_inline(s[s.len() - 1])
    }
}

/// The `style` attribute of a table cell.
pub open spec fn align_style(a: TableCellAlignment) -> Seq<char> {
    match a {
        TableCellAlignment::Left => " style=\"text-align: left\""@,
        TableCellAlignment::Center => " style=\"text-align: center\""@,
        TableCellAlignment::Right => " style=\"text-align: right\""@,
        TableCellAlignment::Default => Seq::empty(),
    }
}

/// The alignment of column `i` (the default where the delimiter row has
/// no cell for it).
pub open spec fn align_at(aligns: Seq<TableCellAlignment>, i: int) -> TableCellAlignment {
    if 0 <= i < aligns.len() { aligns[i] } else { TableCellAlignment::Default }
}

/// The first `n` cells of a row, as `<th>` (header) or `<td>` elements.
pub open spec fn render_cells(cells: Seq<Seq<SpecInline>>, aligns: Seq<TableCellAlignment>, header: bool, n: int) -> Seq<char>
    decreases n,
{
    if n <= 0 {
        Seq::empty()
    } else {
        render_cells(cells, aligns, header, n - 1) + (if header { "<th"@ } else { "<td"@ })
            + align_style(align_at(aligns, n - 1)) + ">"@ + render_inlines(cells[n - 1])
            + (if header { "</th>\n"@ } else { "</td>\n"@ })
    }
}

/// The first `n` body rows of a table.
pub open spec fn render_rows(rows: Seq<Seq<Seq<SpecInline>>>, aligns: Seq<TableCellAlignment>, n: int) -> Seq<char>
    decreases n,
{
    if n <= 0 {
        Seq::empty()
    } else {
        render_rows(rows, aligns, n - 1) + "<tr>\n"@ + render_cells(rows[n - 1], aligns, false, rows[n - 1].len() as int)
            + "</tr>\n"@
    }
}

/// The HTML of a table.
pub open spec fn render_table(t: SpecTable, attrs: Option<SpecAttrs>) -> Seq<char> {
    "<table"@ + attrs_html(attrs) + ">\n"@ + "<thead>\n<tr>\n"@
        + render_cells(t.header, t.alignments, true, t.header.len() as int) + "</tr>\n</thead>\n"@
        + "<tbody>\n"@ + render_rows(t.rows, t.alignments, t.rows.len() as int) + "</tbody>\n"@
        + "</table>\n"@
}

/// The HTML of a block.
pub open spec fn render_block(b: SpecBlock) -> Seq<char>
    decreases b,
{
    match b {
        SpecBlock::Heading { level, children, attrs, .. } => "<h"@ + u8_dec(level) + attrs_html(attrs) + ">"@
            + render_inlines(children) + "</h"@ + u8_dec(level) + ">\n"@,
        SpecBlock::Paragraph { children, attrs, .. } => "<p"@ + attrs_html(attrs) + ">"@ + render_inlines(children)
            + "</p>\n"@,
        SpecBlock::CodeBlock { lang, code, attrs, .. } => "<pre><code"@ + (match lang {
            Some(l) => " class=\"language-"@ + l + "\""@,
            None => Seq::empty(),
        }) + attrs_html(attrs) + ">"@ + escape(code) + "</code></pre>\n"@,
        SpecBlock::BlockQuote { children, attrs, .. } => "<blockquote"@ + attrs_html(attrs) + ">\n"@
            + render_blocks(children) + "</blockquote>\n"@,
        SpecBlock::List { ordered, items, attrs, .. } => (if ordered { "<ol"@ } else { "<ul"@ }) + attrs_html(attrs)
            + ">\n"@ + render_items(items) + (if ordered { "</ol>\n"@ } else { "</ul>\n"@ }),
        SpecBlock::ThematicBreak { attrs, .. } => "<hr"@ + attrs_html(attrs) + " />\n"@,
        SpecBlock::HtmlBlock { html, .. } => html + "\n"@,
        SpecBlock::Table { table, attrs, .. } => render_table(table, attrs),
    }
}

/// The HTML of blocks, one after the other.
pub open spec fn render_blocks(s: Seq<SpecBlock>) -> Seq<char>
    decreases s,
{
    if s.len() == 0 {
        Seq::empty()
    } else {
        render_blocks(s.subrange(0, s.len() - 1)) + render_block(s[s.len() - 1])
    }
}

/// The checkbox of a task list item.
pub open spec fn task_box(task: Option<TaskState>) -> Seq<char> {
    match task {
        Some(TaskState::Checked) => "<input type=\"checkbox\" checked disabled /> "@,
        Some(TaskState::Unchecked) => "<input type=\"checkbox\" disabled /> "@,
        None => Seq::empty(),
    }
}

/// The HTML of a list item: an item that holds a single paragraph shows
/// the paragraph's content without `<p>`.
pub open spec fn render_item(it: SpecListItem) -> Seq<char>
    decreases it,
{
    "<li>"@ + task_box(it.task) + (if it.children.len() == 1 && it.children[0] is Paragraph {
        render_inlines(it.children[0]->Paragraph_children)
    } else {
        render_blocks(it.children)
    }) + "</li>\n"@
}

/// The HTML of list items, one after the other.
pub open spec fn render_items(s: Seq<SpecListItem>) -> Seq<char>
    decreases s,
{
    if s.len() == 0 {
        Seq::empty()
    } else {
        render_items(s.subrange(0, s.len() - 1)) + render_item(s[s.len() - 1])
    }
}

/// What precedes the blocks: nothing for a fragment; for a full document
/// the doctype, the head (charset, viewport, title, style as the options
/// say), and the opening `<body>` (with the body class).
pub open spec fn render_head(o: RenderOptions) -> Seq<char> {
    if o.fragment {
        Seq::empty()
    } else {
        "<!DOCTYPE html>\n<html>\n<head>\n"@ + head_meta(o) + head_title(o) + head_style(o) + "</head>\n<body"@
            + body_class(o) + ">\n"@
    }
}

/// The `<meta>` elements of the head.
pub open spec fn head_meta(o: RenderOptions) -> Seq<char> {
    (if o.charset { "<meta charset=\"utf-8\">\n"@ } else { Seq::empty() })
        + (if o.viewport { "<meta name=\"viewport\" content=\"width=device-width, initial-scale=1.0\">\n"@ } else { Seq::empty() })
}

/// The `<title>` element of the head.
pub open spec fn head_title(o: RenderOptions) -> Seq<char> {
    match o.title {
        Some(t) => "<title>"@ + t@ + "</title>\n"@,
        None => Seq::empty(),
    }
}

/// The `<style>` element of the head.
pub open spec fn head_style(o: RenderOptions) -> Seq<char> {
    match o.style {
        Some(s) => "<style>\n"@ + s@ + "\n</style>\n"@,
        None => Seq::empty(),
    }
}

/// The `class` attribute of `<body>`.
pub open spec fn body_class(o: RenderOptions) -> Seq<char> {
    match o.body_class {
        Some(c) => " class=\""@ + c@ + "\""@,
        None => Seq::empty(),
    }
}

/// What follows the blocks: nothing for a fragment, the closing `</body>`
/// and `</html>` for a full document.
pub open spec fn render_tail(o: RenderOptions) -> Seq<char> {
    if o.fragment { Seq::empty() } else { "</body>\n</html>\n"@ }
}

/// The HTML of a document.
pub open spec fn spec_render(doc: SpecDocument, o: RenderOptions) -> Seq<char> {
    render_head(o) + render_blocks(doc.children) + render_tail(o)
}


// ---------------------------------------------------------------------------
// Emitting
// ---------------------------------------------------------------------------

/// The style of a table cell names the side that its column's delimiter
/// cell marks with colons: a colon at the start only (`:--`) gives
/// `text-align: left`, at the end only (`--:`) `text-align: right`, at
/// both ends `text-align: center`, and no colon gives no style.  This holds
/// of each cell of a delimiter row, in order.
pub proof fn lemma_cell_style_follows_colons(line: Seq<char>)
    ensures
        spec_alignments(line).len() == table_cells(line).len(),
        forall|k: int| 0 <= k < table_cells(line).len() ==> {
            let t = trim(#[trigger] table_cells(line)[k]);
            let left = t.len() > 0 && t[0] == ':';
            let right = t.len() > 0 && t[t.len() - 1] == ':';
            align_style(spec_alignments(line)[k]) == if left && right {
                " style=\"text-align: center\""@
            } else if left {
                " style=\"text-align: left\""@
            } else if right {
                " style=\"text-align: right\""@
            } else {
                Seq::<char>::empty()
            }
        },
{
}

/// A full document holds the fragment: with `fragment` set the output is
/// the blocks' HTML alone, and without it the same HTML stands between a
/// head that opens with the doctype and the closing `</body></html>`.
pub proof fn lemma_document_holds_fragment(d: SpecDocument, full: RenderOptions, frag: RenderOptions)
    requires
        !full.fragment,
        frag.fragment,
    ensures
        spec_render(d, frag) == render_blocks(d.children),
        spec_render(d, full) == render_head(full) + spec_render(d, frag) + "</body>\n</html>\n"@,
        "<!DOCTYPE html>\n<html>\n<head>\n"@.is_prefix_of(render_head(full)),
{
    assert(spec_render(d, frag) =~= render_blocks(d.children));
    let lit = "<!DOCTYPE html>\n<html>\n<head>\n"@;
    let h = render_head(full);
    assert(h.subrange(0, lit.len() as int) =~= lit);
}

proof fn lemma_render_inlines_step(s: Seq<SpecInline>, k: int)
    requires
        0 <= k < s.len(),
    ensures
        render_inlines(s.subrange(0, k + 1)) == render_inlines(s.subrange(0, k)) + render_inline(s[k]),
{
    assert(s.subrange(0, k + 1).subrange(0, k) =~= s.subrange(0, k));
}

proof fn lemma_render_blocks_step(s: Seq<SpecBlock>, k: int)
    requires
        0 <= k < s.len(),
    ensures
        render_blocks(s.subrange(0, k + 1)) == render_blocks(s.subrange(0, k)) + render_block(s[k]),
{
    assert(s.subrange(0, k + 1).subrange(0, k) =~= s.subrange(0, k));
}

proof fn lemma_render_items_step(s: Seq<SpecListItem>, k: int)
    requires
        0 <= k < s.len(),
    ensures
        render_items(s.subrange(0, k + 1)) == render_items(s.subrange(0, k)) + render_item(s[k]),
{
    assert(s.subrange(0, k + 1).subrange(0, k) =~= s.subrange(0, k));
}

/// Append the attributes of an opening tag.
fn push_attrs(out: &mut Vec<char>, attrs: &Option<KramdownAttributes>)
    ensures
        final(out)@ == old(out)@ + attrs_html(view_opt_attrs(*attrs)),
{
    match attrs {
        Some(a) => {
            if !a.is_empty() {
                out.push(' ');
                let s = a.attr_string_chars();
                push_all(out, &s);
            } else {
                assert(out@ =~= old(out)@ + Seq::<char>::empty());
            }
        },
        None => {
            assert(out@ =~= old(out)@ + Seq::<char>::empty());
        },
    }
}

fn push_u8(out: &mut Vec<char>, n: u8)
    ensures
        final(out)@ == old(out)@ + u8_dec(n),
{
    let d = vec!['0', '1', '2', '3', '4', '5', '6', '7', '8', '9'];
    assert(d@ =~= digits());
    if n < 10 {
        out.push(d[n as usize]);
    } else if n < 100 {
        out.push(d[(n / 10) as usize]);
        out.push(d[(n % 10) as usize]);
    } else {
        out.push(d[(n / 100) as usize]);
        out.push(d[((n / 10) % 10) as usize]);
        out.push(d[(n % 10) as usize]);
    }
    assert(out@ =~= old(out)@ + u8_dec(n));
}

fn push_string(out: &mut Vec<char>, s: &String)
    ensures
        final(out)@ == old(out)@ + s@,
{
    push_str(out, s.as_str());
}

fn push_escaped_string(out: &mut Vec<char>, s: &String)
    ensures
        final(out)@ == old(out)@ + escape(s@),
{
    push_escaped(out, &str_chars(s.as_str()));
}

fn push_opt_title(out: &mut Vec<char>, title: &Option<String>)
    ensures
        final(out)@ == old(out)@ + opt_title(crate::ast::nodes::view_opt_str(*title)),
{
    match title {
        Some(t) => {
            push_str(out, "\" title=\"");
            push_escaped_string(out, t);
            assert(out@ =~= old(out)@ + ("\" title=\""@ + escape(t@)));
        },
        None => {
            assert(out@ =~= old(out)@ + Seq::<char>::empty());
        },
    }
}

fn render_inline_into(out: &mut Vec<char>, i: &Inline)
    ensures
        final(out)@ == old(out)@ + render_inline(view_inline(*i)),
    decreases i,
{
    let ghost o = out@;
    match i {
        Inline::Text { value, .. } => {
            push_escaped_string(out, value);
        },
        Inline::Emphasis { level, children, .. } => {
            match level {
                EmphasisLevel::Italic => {
                    push_str(out, "<em>");
                    render_inlines_into(out, children);
                    push_str(out, "</em>");
                    assert(out@ =~= o + ("<em>"@ + render_inlines(view_inlines(*children)) + "</em>"@));
                },
                EmphasisLevel::Bold => {
                    push_str(out, "<strong>");
                    render_inlines_into(out, children);
                    push_str(out, "</strong>");
                    assert(out@ =~= o + ("<strong>"@ + render_inlines(view_inlines(*children)) + "</strong>"@));
                },
            }
        },
        Inline::Code { code, .. } => {
            push_str(out, "<code>");
            push_escaped_string(out, code);
            push_str(out, "</code>");
            assert(out@ =~= o + ("<code>"@ + escape(code@) + "</code>"@));
        },
        Inline::Link { text, url, title, .. } => {
            push_str(out, "<a href=\"");
            push_escaped_string(out, url);
            push_opt_title(out, title);
            push_str(out, "\">");
            render_inlines_into(out, text);
            push_str(out, "</a>");
            assert(out@ =~= o + ("<a href=\""@ + escape(url@) + opt_title(crate::ast::nodes::view_opt_str(*title))
                + "\">"@ + render_inlines(view_inlines(*text)) + "</a>"@));
        },
        Inline::Image { alt, url, title, .. } => {
            push_str(out, "<img src=\"");
            push_escaped_string(out, url);
            push_str(out, "\" alt=\"");
            push_escaped_string(out, alt);
            push_opt_title(out, title);
            push_str(out, "\" />");
            assert(out@ =~= o + ("<img src=\""@ + escape(url@) + "\" alt=\""@ + escape(alt@)
                + opt_title(crate::ast::nodes::view_opt_str(*title)) + "\" />"@));
        },
        Inline::HardBreak { .. } => {
            push_str(out, "<br />\n");
        },
        Inline::SoftBreak { .. } => {
            push_str(out, "\n");
        },
        Inline::HtmlInline { html, .. } => {
            push_string(out, html);
        },
        Inline::Strikethrough { children, .. } => {
            push_str(out, "<del>");
            render_inlines_into(out, children);
            push_str(out, "</del>");
            assert(out@ =~= o + ("<del>"@ + render_inlines(view_inlines(*children)) + "</del>"@));
        },
    }
}

fn render_inlines_into(out: &mut Vec<char>, v: &Vec<Inline>)
    ensures
        final(out)@ == old(out)@ + render_inlines(view_inlines(*v)),
    decreases v,
{
    let ghost o = out@;
    let ghost s = view_inlines(*v);
    let mut k: usize = 0;
    assert(s.subrange(0, 0) =~= Seq::<SpecInline>::empty());
    assert(o + render_inlines(s.subrange(0, 0)) =~= o);
    while k < v.len()
        invariant
            s == view_inlines(*v),
            s.len() == v@.len(),
            k <= v@.len(),
            out@ == o + render_inlines(s.subrange(0, k as int)),
        decreases v@.len() - k,
    {
        proof {
            lemma_render_inlines_step(s, k as int);
        }
        assert(s[k as int] == view_inline(v@[k as int]));
        render_inline_into(out, &v[k]);
        k = k + 1;
        assert(out@ =~= o + render_inlines(s.subrange(0, k as int)));
    }
    assert(s.subrange(0, v@.len() as int) =~= s);
}


fn push_align_style(out: &mut Vec<char>, a: TableCellAlignment)
    ensures
        final(out)@ == old(out)@ + align_style(a),
{
    match a {
        TableCellAlignment::Left => push_str(out, " style=\"text-align: left\""),
        TableCellAlignment::Center => push_str(out, " style=\"text-align: center\""),
        TableCellAlignment::Right => push_str(out, " style=\"text-align: right\""),
        TableCellAlignment::Default => {
            assert(out@ =~= old(out)@ + Seq::<char>::empty());
        },
    }
}

#[verifier::rlimit(40)]
fn render_cells_into(out: &mut Vec<char>, row: &crate::ast::TableRow, aligns: &[TableCellAlignment], header: bool)
    ensures
        final(out)@ == old(out)@ + render_cells(view_row(*row), aligns@, header, view_row(*row).len() as int),
{
    let ghost o = out@;
    let ghost cells = view_row(*row);
    let mut k: usize = 0;
    assert(o + render_cells(cells, aligns@, header, 0) =~= o);
    while k < row.cells.len()
        invariant
            cells == view_row(*row),
            cells.len() == row.cells@.len(),
            k <= row.cells@.len(),
            out@ == o + render_cells(cells, aligns@, header, k as int),
        decreases row.cells@.len() - k,
    {
        let ghost before = out@;
        if header {
            push_str(out, "<th");
        } else {
            push_str(out, "<td");
        }
        let a = if k < aligns.len() { aligns[k] } else { TableCellAlignment::Default };
        push_align_style(out, a);
        push_str(out, ">");
        render_inlines_into(out, &row.cells[k].children);
        if header {
            push_str(out, "</th>\n");
        } else {
            push_str(out, "</td>\n");
        }
        assert(cells[k as int] == view_inlines(row.cells@[k as int].children));
        assert(out@ =~= before + ((if header { "<th"@ } else { "<td"@ }) + align_style(align_at(aligns@, k as int))
            + ">"@ + render_inlines(cells[k as int]) + (if header { "</th>\n"@ } else { "</td>\n"@ })));
        k = k + 1;
    }
}

fn render_table_into(out: &mut Vec<char>, t: &Table, attrs: &Option<KramdownAttributes>)
    ensures
        final(out)@ == old(out)@ + render_table(view_table(*t), view_opt_attrs(*attrs)),
{
    let ghost o = out@;
    let ghost st = view_table(*t);
    push_str(out, "<table");
    push_attrs(out, attrs);
    push_str(out, ">\n");
    push_str(out, "<thead>\n<tr>\n");
    render_cells_into(out, &t.header, t.alignments.as_slice(), true);
    push_str(out, "</tr>\n</thead>\n");
    push_str(out, "<tbody>\n");
    let ghost mid = out@;
    let mut k: usize = 0;
    assert(mid + render_rows(st.rows, st.alignments, 0) =~= mid);
    while k < t.rows.len()
        invariant
            st == view_table(*t),
            st.rows.len() == t.rows@.len(),
            k <= t.rows@.len(),
            out@ == mid + render_rows(st.rows, st.alignments, k as int),
        decreases t.rows@.len() - k,
    {
        let ghost before = out@;
        push_str(out, "<tr>\n");
        render_cells_into(out, &t.rows[k], t.alignments.as_slice(), false);
        push_str(out, "</tr>\n");
        assert(st.rows[k as int] == view_row(t.rows@[k as int]));
        assert(out@ =~= before + ("<tr>\n"@ + render_cells(st.rows[k as int], st.alignments, false, st.rows[k as int].len() as int) + "</tr>\n"@));
        k = k + 1;
    }
    push_str(out, "</tbody>\n");
    push_str(out, "</table>\n");
    assert(out@ =~= o + render_table(st, view_opt_attrs(*attrs)));
}

fn render_heading_into(out: &mut Vec<char>, b: &Block)
    requires
        b is Heading,
    ensures
        final(out)@ == old(out)@ + render_block(view_block(*b)),
{
    let ghost o = out@;
    match b {
        Block::Heading { level, children, attrs, .. } => {
            push_str(out, "<h");
            push_u8(out, *level);
            push_attrs(out, attrs);
            push_str(out, ">");
            render_inlines_into(out, children);
            push_str(out, "</h");
            push_u8(out, *level);
            push_str(out, ">\n");
            assert(out@ =~= o + render_block(view_block(*b)));
        },
        _ => {},
    }
}

fn render_paragraph_into(out: &mut Vec<char>, b: &Block)
    requires
        b is Paragraph,
    ensures
        final(out)@ == old(out)@ + render_block(view_block(*b)),
{
    let ghost o = out@;
    match b {
        Block::Paragraph { children, attrs, .. } => {
            push_str(out, "<p");
            push_attrs(out, attrs);
            push_str(out, ">");
            render_inlines_into(out, children);
            push_str(out, "</p>\n");
            assert(out@ =~= o + render_block(view_block(*b)));
        },
        _ => {},
    }
}

fn render_code_into(out: &mut Vec<char>, b: &Block)
    requires
        b is CodeBlock,
    ensures
        final(out)@ == old(out)@ + render_block(view_block(*b)),
{
    let ghost o = out@;
    match b {
        Block::CodeBlock { lang, code, attrs, .. } => {
            push_str(out, "<pre><code");
            let ghost before = out@;
            match lang {
                Some(l) => {
                    push_str(out, " class=\"language-");
                    push_string(out, l);
                    push_str(out, "\"");
                    assert(out@ =~= before + (" class=\"language-"@ + l@ + "\""@));
                },
                None => {
                    assert(out@ =~= before + Seq::<char>::empty());
                },
            }
            push_attrs(out, attrs);
            push_str(out, ">");
            push_escaped_string(out, code);
            push_str(out, "</code></pre>\n");
            assert(out@ =~= o + render_block(view_block(*b)));
        },
        _ => {},
    }
}

fn render_block_into(out: &mut Vec<char>, b: &Block)
    ensures
        final(out)@ == old(out)@ + render_block(view_block(*b)),
    decreases b,
{
    let ghost o = out@;
    match b {
        Block::Heading { .. } => render_heading_into(out, b),
        Block::Paragraph { .. } => render_paragraph_into(out, b),
        Block::CodeBlock { .. } => render_code_into(out, b),
        Block::BlockQuote { children, attrs, .. } => {
            push_str(out, "<blockquote");
            push_attrs(out, attrs);
            push_str(out, ">\n");
            render_blocks_into(out, children);
            push_str(out, "</blockquote>\n");
            assert(out@ =~= o + render_block(view_block(*b)));
        },
        Block::List { ordered, items, attrs, .. } => {
            if *ordered {
                push_str(out, "<ol");
            } else {
                push_str(out, "<ul");
            }
            push_attrs(out, attrs);
            push_str(out, ">\n");
            render_items_into(out, items);
            if *ordered {
                push_str(out, "</ol>\n");
            } else {
                push_str(out, "</ul>\n");
            }
            assert(out@ =~= o + render_block(view_block(*b)));
        },
        Block::ThematicBreak { attrs, .. } => {
            push_str(out, "<hr");
            push_attrs(out, attrs);
            push_str(out, " />\n");
            assert(out@ =~= o + render_block(view_block(*b)));
        },
        Block::HtmlBlock { html, .. } => {
            push_string(out, html);
            push_str(out, "\n");
            assert(out@ =~= o + render_block(view_block(*b)));
        },
        Block::Table { table, attrs, .. } => {
            render_table_into(out, table, attrs);
        },
    }
}

fn render_blocks_into(out: &mut Vec<char>, v: &Vec<Block>)
    ensures
        final(out)@ == old(out)@ + render_blocks(view_blocks(*v)),
    decreases v,
{
    let ghost o = out@;
    let ghost s = view_blocks(*v);
    let mut k: usize = 0;
    assert(o + render_blocks(s.subrange(0, 0)) =~= o);
    while k < v.len()
        invariant
            s == view_blocks(*v),
            s.len() == v@.len(),
            k <= v@.len(),
            out@ == o + render_blocks(s.subrange(0, k as int)),
        decreases v@.len() - k,
    {
        proof {
            lemma_render_blocks_step(s, k as int);
        }
        assert(s[k as int] == view_block(v@[k as int]));
        render_block_into(out, &v[k]);
        k = k + 1;
        assert(out@ =~= o + render_blocks(s.subrange(0, k as int)));
    }
    assert(s.subrange(0, v@.len() as int) =~= s);
}

fn render_item_into(out: &mut Vec<char>, item: &ListItem)
    ensures
        final(out)@ == old(out)@ + render_item(view_item(*item)),
    decreases item,
{
    let ghost o = out@;
    push_str(out, "<li>");
    let ghost before = out@;
    match item.task {
        Some(TaskState::Checked) => push_str(out, "<input type=\"checkbox\" checked disabled /> "),
        Some(TaskState::Unchecked) => push_str(out, "<input type=\"checkbox\" disabled /> "),
        None => {
            assert(out@ =~= before + Seq::<char>::empty());
        },
    }
    let ghost mid = out@;
    let ghost kids = view_blocks(item.children);
    if item.children.len() == 1 {
        assert(kids[0] == view_block(item.children@[0]));
        match &item.children[0] {
            Block::Paragraph { children, .. } => {
                render_inlines_into(out, children);
                push_str(out, "</li>\n");
                assert(out@ =~= o + render_item(view_item(*item)));
                return;
            },
            _ => {},
        }
    }
    render_blocks_into(out, &item.children);
    push_str(out, "</li>\n");
    assert(out@ =~= o + render_item(view_item(*item)));
}

fn render_items_into(out: &mut Vec<char>, v: &Vec<ListItem>)
    ensures
        final(out)@ == old(out)@ + render_items(view_items(*v)),
    decreases v,
{
    let ghost o = out@;
    let ghost s = view_items(*v);
    let mut k: usize = 0;
    assert(o + render_items(s.subrange(0, 0)) =~= o);
    while k < v.len()
        invariant
            s == view_items(*v),
            s.len() == v@.len(),
            k <= v@.len(),
            out@ == o + render_items(s.subrange(0, k as int)),
        decreases v@.len() - k,
    {
        proof {
            lemma_render_items_step(s, k as int);
        }
        assert(s[k as int] == view_item(v@[k as int]));
        render_item_into(out, &v[k]);
        k = k + 1;
        assert(out@ =~= o + render_items(s.subrange(0, k as int)));
    }
    assert(s.subrange(0, v@.len() as int) =~= s);
}

fn push_head_meta(out: &mut Vec<char>, o: &RenderOptions)
    ensures
        final(out)@ == old(out)@ + head_meta(*o),
{
    let ghost a = out@;
    if o.charset {
        push_str(out, "<meta charset=\"utf-8\">\n");
    } else {
        assert(out@ =~= a + Seq::<char>::empty());
    }
    let ghost b = out@;
    if o.viewport {
        push_str(out, "<meta name=\"viewport\" content=\"width=device-width, initial-scale=1.0\">\n");
    } else {
        assert(out@ =~= b + Seq::<char>::empty());
    }
    assert(out@ =~= a + head_meta(*o));
}

fn push_head_title(out: &mut Vec<char>, o: &RenderOptions)
    ensures
        final(out)@ == old(out)@ + head_title(*o),
{
    let ghost c = out@;
    match &o.title {
        Some(t) => {
            push_str(out, "<title>");
            push_string(out, t);
            push_str(out, "</title>\n");
            assert(out@ =~= c + ("<title>"@ + t@ + "</title>\n"@));
        },
        None => {
            assert(out@ =~= c + Seq::<char>::empty());
        },
    }
}

fn push_head_style(out: &mut Vec<char>, o: &RenderOptions)
    ensures
        final(out)@ == old(out)@ + head_style(*o),
{
    let ghost d = out@;
    match &o.style {
        Some(st) => {
            push_str(out, "<style>\n");
            push_string(out, st);
            push_str(out, "\n</style>\n");
            assert(out@ =~= d + ("<style>\n"@ + st@ + "\n</style>\n"@));
        },
        None => {
            assert(out@ =~= d + Seq::<char>::empty());
        },
    }
}

fn push_body_class(out: &mut Vec<char>, o: &RenderOptions)
    ensures
        final(out)@ == old(out)@ + body_class(*o),
{
    let ghost e = out@;
    match &o.body_class {
        Some(cls) => {
            push_str(out, " class=\"");
            push_string(out, cls);
            push_str(out, "\"");
            assert(out@ =~= e + (" class=\""@ + cls@ + "\""@));
        },
        None => {
            assert(out@ =~= e + Seq::<char>::empty());
        },
    }
}

fn render_head_into(out: &mut Vec<char>, o: &RenderOptions)
    ensures
        final(out)@ == old(out)@ + render_head(*o),
{
    let ghost start = out@;
    if !o.fragment {
        push_str(out, "<!DOCTYPE html>\n<html>\n<head>\n");
        push_head_meta(out, o);
        push_head_title(out, o);
        push_head_style(out, o);
        push_str(out, "</head>\n<body");
        push_body_class(out, o);
        push_str(out, ">\n");
        assert(out@ =~= start + render_head(*o));
    } else {
        assert(out@ =~= start + Seq::<char>::empty());
    }
}

fn render_tail_into(out: &mut Vec<char>, o: &RenderOptions)
    ensures
        final(out)@ == old(out)@ + render_tail(*o),
{
    if !o.fragment {
        push_str(out, "</body>\n</html>\n");
    } else {
        assert(out@ =~= old(out)@ + Seq::<char>::empty());
    }
}

/// A renderer that builds an HTML string from the AST.
pub struct AstToHtml {
    out: Vec<char>,
    opts: RenderOptions,
}

impl AstToHtml {
    /// The HTML emitted so far.
    pub closed spec fn output(&self) -> Seq<char> {
        self.out@
    }

    /// The options the renderer follows.
    pub closed spec fn options(&self) -> RenderOptions {
        self.opts
    }

    /// A renderer with the default options and no output yet.
    pub fn new() -> (r: Self)
        ensures
            r.output() == Seq::<char>::empty(),
            r.options() == RenderOptions::with_fragment(true),
    {
        AstToHtml { out: Vec::new(), opts: RenderOptions::default() }
    }

    /// Create a renderer with the given options.
    pub fn with_options(opts: RenderOptions) -> (r: Self)
        ensures
            r.output() == Seq::<char>::empty(),
            r.options() == opts,
    {
        AstToHtml { out: Vec::new(), opts }
    }

    /// Consume the renderer and return the HTML string.
    pub fn finish(self) -> (s: String)
        ensures
            s@ == self.output(),
    {
        string_from_chars(&self.out)
    }

    /// Render the document: append its HTML (see [`spec_render`]).
    pub fn visit_document(&mut self, doc: &Document)
        ensures
            final(self).output() == old(self).output() + spec_render(view_document(*doc), old(self).options()),
            final(self).options() == old(self).options(),
    {
        let ghost o = self.out@;
        render_head_into(&mut self.out, &self.opts);
        render_blocks_into(&mut self.out, &doc.children);
        render_tail_into(&mut self.out, &self.opts);
        assert(self.out@ =~= o + spec_render(view_document(*doc), self.opts));
    }
}

impl Default for AstToHtml {
    fn default() -> (r: Self)
        ensures
            r.output() == Seq::<char>::empty(),
            r.options() == RenderOptions::with_fragment(true),
    {
        Self::new()
    }
}


// ---------------------------------------------------------------------------
// Entry points
// ---------------------------------------------------------------------------

/// Render a [`Document`] into an HTML string using default render options
/// (fragment mode unless `fragment` says otherwise) and no plugins.
pub fn render_document(doc: &Document, fragment: Option<bool>) -> (html: String)
    ensures
        html@ == spec_render(view_document(*doc), RenderOptions::with_fragment(
            match fragment {
                Some(f) => f,
                None => true,
            },
        )),
{
    let opts = match fragment {
        Some(f) => RenderOptions { fragment: f, ..Default::default() },
        None => RenderOptions::default(),
    };
    render_document_with(
        doc,
        &opts,
        &PluginPipeline::new(),
        &PluginContext::new(crate::config::ParseOptions::default()),
    )
}

/// Render a [`Document`] into an HTML string with full options and plugin
/// pipeline.  Runs AST transform plugins, then pre-render plugins, then
/// renders, then runs post-render plugins.  With no plugins the result is
/// the document's HTML ([`spec_render`]).
pub fn render_document_with(
    doc: &Document,
    opts: &RenderOptions,
    pipeline: &PluginPipeline,
    ctx: &PluginContext,
) -> (html: String)
    ensures
        crate::plugin_factory::all_obey(pipeline.plugins()) ==> html@ == crate::plugin_factory::spec_render_with(
            pipeline.plugins(),
            view_document(*doc),
            *opts,
            *ctx,
        ),
        pipeline.len() == 0 ==> html@ == spec_render(view_document(*doc), *opts),
{
    let doc = doc.copy();
    let doc = pipeline.run_transforms(doc, ctx);
    let mut renderer = AstToHtml::with_options(opts.copy());
    pipeline.run_pre_render(&mut renderer, &doc, ctx);
    renderer.visit_document(&doc);
    let mut html = renderer.finish();
    pipeline.run_post_render(&mut html, &doc, ctx);
    html
}


// ---------------------------------------------------------------------------
// The renderer as a visitor
// ---------------------------------------------------------------------------

fn push_attrs_ref(out: &mut Vec<char>, attrs: Option<&KramdownAttributes>)
    ensures
        final(out)@ == old(out)@ + attrs_html(view_attrs_ref(attrs)),
{
    match attrs {
        Some(a) => {
            if !a.is_empty() {
                out.push(' ');
                let s = a.attr_string_chars();
                push_all(out, &s);
            } else {
                assert(out@ =~= old(out)@ + Seq::<char>::empty());
            }
        },
        None => {
            assert(out@ =~= old(out)@ + Seq::<char>::empty());
        },
    }
}

fn push_opt_title_ref(out: &mut Vec<char>, title: Option<&str>)
    ensures
        final(out)@ == old(out)@ + opt_title(view_str_ref(title)),
{
    match title {
        Some(t) => {
            push_str(out, "\" title=\"");
            push_escaped(out, &str_chars(t));
            assert(out@ =~= old(out)@ + ("\" title=\""@ + escape(t@)));
        },
        None => {
            assert(out@ =~= old(out)@ + Seq::<char>::empty());
        },
    }
}

fn render_inline_slice_into(out: &mut Vec<char>, v: &[Inline])
    ensures
        final(out)@ == old(out)@ + render_inlines(view_inlines_seq(v@)),
{
    let ghost o = out@;
    let ghost s = view_inlines_seq(v@);
    let mut k: usize = 0;
    assert(o + render_inlines(s.subrange(0, 0)) =~= o);
    while k < v.len()
        invariant
            s == view_inlines_seq(v@),
            s.len() == v@.len(),
            k <= v@.len(),
            out@ == o + render_inlines(s.subrange(0, k as int)),
        decreases v@.len() - k,
    {
        proof {
            lemma_render_inlines_step(s, k as int);
        }
        render_inline_into(out, &v[k]);
        k = k + 1;
        assert(out@ =~= o + render_inlines(s.subrange(0, k as int)));
    }
    assert(s.subrange(0, v@.len() as int) =~= s);
}

fn render_block_slice_into(out: &mut Vec<char>, v: &[Block])
    ensures
        final(out)@ == old(out)@ + render_blocks(view_blocks_seq(v@)),
{
    let ghost o = out@;
    let ghost s = view_blocks_seq(v@);
    let mut k: usize = 0;
    assert(o + render_blocks(s.subrange(0, 0)) =~= o);
    while k < v.len()
        invariant
            s == view_blocks_seq(v@),
            s.len() == v@.len(),
            k <= v@.len(),
            out@ == o + render_blocks(s.subrange(0, k as int)),
        decreases v@.len() - k,
    {
        proof {
            lemma_render_blocks_step(s, k as int);
        }
        render_block_into(out, &v[k]);
        k = k + 1;
        assert(out@ =~= o + render_blocks(s.subrange(0, k as int)));
    }
    assert(s.subrange(0, v@.len() as int) =~= s);
}

fn render_item_slice_into(out: &mut Vec<char>, v: &[ListItem])
    ensures
        final(out)@ == old(out)@ + render_items(view_items_seq(v@)),
{
    let ghost o = out@;
    let ghost s = view_items_seq(v@);
    let mut k: usize = 0;
    assert(o + render_items(s.subrange(0, 0)) =~= o);
    while k < v.len()
        invariant
            s == view_items_seq(v@),
            s.len() == v@.len(),
            k <= v@.len(),
            out@ == o + render_items(s.subrange(0, k as int)),
        decreases v@.len() - k,
    {
        proof {
            lemma_render_items_step(s, k as int);
        }
        render_item_into(out, &v[k]);
        k = k + 1;
        assert(out@ =~= o + render_items(s.subrange(0, k as int)));
    }
    assert(s.subrange(0, v@.len() as int) =~= s);
}

/// The HTML of a table row on its own: `<tr>`, its cells, `</tr>`.
pub open spec fn render_row(row: Seq<Seq<SpecInline>>, aligns: Seq<TableCellAlignment>, header: bool) -> Seq<char> {
    "<tr>\n"@ + render_cells(row, aligns, header, row.len() as int) + "</tr>\n"@
}

/// The renderer's hooks emit the HTML of their node, children included,
/// and keep the walk from descending: the renderer renders the children
/// itself.  Each hook states what it appends; the renderer does not
/// declare [`AstNodeVisitor::obeys_visit_spec`], as its state is no value
/// that a spec function can build.
impl AstNodeVisitor for AstToHtml {
    fn visit_document_enter(&mut self, doc: &Document)
        ensures
            final(self).output() == old(self).output() + render_head(old(self).options()),
            final(self).options() == old(self).options(),
    {
        render_head_into(&mut self.out, &self.opts);
    }

    fn visit_document_exit(&mut self, doc: &Document)
        ensures
            final(self).output() == old(self).output() + render_tail(old(self).options()),
            final(self).options() == old(self).options(),
    {
        render_tail_into(&mut self.out, &self.opts);
    }

    fn visit_heading(&mut self, level: u8, children: &[Inline], attrs: Option<&KramdownAttributes>) -> (descend: bool)
        ensures
            final(self).output() == old(self).output() + render_block(
                SpecBlock::Heading { level, children: view_inlines_seq(children@), attrs: view_attrs_ref(attrs), position: Span::empty() },
            ),
            final(self).options() == old(self).options(),
            !descend,
    {
        let ghost o = self.out@;
        push_str(&mut self.out, "<h");
        push_u8(&mut self.out, level);
        push_attrs_ref(&mut self.out, attrs);
        push_str(&mut self.out, ">");
        render_inline_slice_into(&mut self.out, children);
        push_str(&mut self.out, "</h");
        push_u8(&mut self.out, level);
        push_str(&mut self.out, ">\n");
        assert(self.out@ =~= o + render_block(
            SpecBlock::Heading { level, children: view_inlines_seq(children@), attrs: view_attrs_ref(attrs), position: Span::empty() },
        ));
        false
    }

    fn visit_paragraph(&mut self, children: &[Inline], attrs: Option<&KramdownAttributes>) -> (descend: bool)
        ensures
            final(self).output() == old(self).output() + render_block(
                SpecBlock::Paragraph { children: view_inlines_seq(children@), attrs: view_attrs_ref(attrs), position: Span::empty() },
            ),
            final(self).options() == old(self).options(),
            !descend,
    {
        let ghost o = self.out@;
        push_str(&mut self.out, "<p");
        push_attrs_ref(&mut self.out, attrs);
        push_str(&mut self.out, ">");
        render_inline_slice_into(&mut self.out, children);
        push_str(&mut self.out, "</p>\n");
        assert(self.out@ =~= o + render_block(
            SpecBlock::Paragraph { children: view_inlines_seq(children@), attrs: view_attrs_ref(attrs), position: Span::empty() },
        ));
        false
    }

    fn visit_code_block(&mut self, lang: Option<&str>, code: &str, attrs: Option<&KramdownAttributes>)
        ensures
            final(self).output() == old(self).output() + render_block(
                SpecBlock::CodeBlock { lang: view_str_ref(lang), code: code@, attrs: view_attrs_ref(attrs), position: Span::empty() },
            ),
            final(self).options() == old(self).options(),
    {
        let ghost o = self.out@;
        push_str(&mut self.out, "<pre><code");
        let ghost before = self.out@;
        match lang {
            Some(l) => {
                push_str(&mut self.out, " class=\"language-");
                push_str(&mut self.out, l);
                push_str(&mut self.out, "\"");
                assert(self.out@ =~= before + (" class=\"language-"@ + l@ + "\""@));
            },
            None => {
                assert(self.out@ =~= before + Seq::<char>::empty());
            },
        }
        push_attrs_ref(&mut self.out, attrs);
        push_str(&mut self.out, ">");
        push_escaped(&mut self.out, &str_chars(code));
        push_str(&mut self.out, "</code></pre>\n");
        assert(self.out@ =~= o + render_block(
            SpecBlock::CodeBlock { lang: view_str_ref(lang), code: code@, attrs: view_attrs_ref(attrs), position: Span::empty() },
        ));
    }

    fn visit_block_quote(&mut self, children: &[Block], attrs: Option<&KramdownAttributes>) -> (descend: bool)
        ensures
            final(self).output() == old(self).output() + render_block(
                SpecBlock::BlockQuote { children: view_blocks_seq(children@), attrs: view_attrs_ref(attrs), position: Span::empty() },
            ),
            final(self).options() == old(self).options(),
            !descend,
    {
        let ghost o = self.out@;
        push_str(&mut self.out, "<blockquote");
        push_attrs_ref(&mut self.out, attrs);
        push_str(&mut self.out, ">\n");
        render_block_slice_into(&mut self.out, children);
        push_str(&mut self.out, "</blockquote>\n");
        assert(self.out@ =~= o + render_block(
            SpecBlock::BlockQuote { children: view_blocks_seq(children@), attrs: view_attrs_ref(attrs), position: Span::empty() },
        ));
        false
    }

    fn visit_list(&mut self, ordered: bool, items: &[ListItem], attrs: Option<&KramdownAttributes>) -> (descend: bool)
        ensures
            final(self).output() == old(self).output() + render_block(
                SpecBlock::List { ordered, items: view_items_seq(items@), attrs: view_attrs_ref(attrs), position: Span::empty() },
            ),
            final(self).options() == old(self).options(),
            !descend,
    {
        let ghost o = self.out@;
        if ordered {
            push_str(&mut self.out, "<ol");
        } else {
            push_str(&mut self.out, "<ul");
        }
        push_attrs_ref(&mut self.out, attrs);
        push_str(&mut self.out, ">\n");
        render_item_slice_into(&mut self.out, items);
        if ordered {
            push_str(&mut self.out, "</ol>\n");
        } else {
            push_str(&mut self.out, "</ul>\n");
        }
        assert(self.out@ =~= o + render_block(
            SpecBlock::List { ordered, items: view_items_seq(items@), attrs: view_attrs_ref(attrs), position: Span::empty() },
        ));
        false
    }

    fn visit_list_item(&mut self, item: &ListItem) -> (descend: bool)
        ensures
            final(self).output() == old(self).output() + render_item(view_item(*item)),
            final(self).options() == old(self).options(),
            !descend,
    {
        render_item_into(&mut self.out, item);
        false
    }

    fn visit_thematic_break(&mut self, attrs: Option<&KramdownAttributes>)
        ensures
            final(self).output() == old(self).output() + render_block(
                SpecBlock::ThematicBreak { attrs: view_attrs_ref(attrs), position: Span::empty() },
            ),
            final(self).options() == old(self).options(),
    {
        let ghost o = self.out@;
        push_str(&mut self.out, "<hr");
        push_attrs_ref(&mut self.out, attrs);
        push_str(&mut self.out, " />\n");
        assert(self.out@ =~= o + render_block(
            SpecBlock::ThematicBreak { attrs: view_attrs_ref(attrs), position: Span::empty() },
        ));
    }

    fn visit_html_block(&mut self, html: &str)
        ensures
            final(self).output() == old(self).output() + html@ + "\n"@,
            final(self).options() == old(self).options(),
    {
        push_str(&mut self.out, html);
        push_str(&mut self.out, "\n");
    }

    fn visit_table(&mut self, table: &Table, attrs: Option<&KramdownAttributes>) -> (descend: bool)
        ensures
            final(self).output() == old(self).output() + render_table(view_table(*table), view_attrs_ref(attrs)),
            final(self).options() == old(self).options(),
            !descend,
    {
        let a: Option<KramdownAttributes> = match attrs {
            Some(x) => Some(crate::ast::nodes::clone_attrs(x)),
            None => None,
        };
        assert(view_opt_attrs(a) == view_attrs_ref(attrs));
        render_table_into(&mut self.out, table, &a);
        false
    }

    fn visit_table_row(&mut self, row: &crate::ast::TableRow, alignments: &[TableCellAlignment], header: bool) -> (descend: bool)
        ensures
            final(self).output() == old(self).output() + render_row(view_row(*row), alignments@, header),
            final(self).options() == old(self).options(),
            !descend,
    {
        let ghost o = self.out@;
        push_str(&mut self.out, "<tr>\n");
        render_cells_into(&mut self.out, row, alignments, header);
        push_str(&mut self.out, "</tr>\n");
        assert(self.out@ =~= o + render_row(view_row(*row), alignments@, header));
        false
    }

    fn visit_table_cell(&mut self, cell: &crate::ast::TableCell) -> (descend: bool)
        ensures
            final(self).output() == old(self).output() + "<td>"@ + render_inlines(view_inlines(cell.children)) + "</td>\n"@,
            final(self).options() == old(self).options(),
            !descend,
    {
        let ghost o = self.out@;
        push_str(&mut self.out, "<td>");
        render_inlines_into(&mut self.out, &cell.children);
        push_str(&mut self.out, "</td>\n");
        false
    }

    fn visit_text(&mut self, text: &str)
        ensures
            final(self).output() == old(self).output() + escape(text@),
            final(self).options() == old(self).options(),
    {
        push_escaped(&mut self.out, &str_chars(text));
    }

    fn visit_emphasis(&mut self, level: EmphasisLevel, children: &[Inline]) -> (descend: bool)
        ensures
            final(self).output() == old(self).output() + render_inline(
                SpecInline::Emphasis { level, children: view_inlines_seq(children@), position: Span::empty() },
            ),
            final(self).options() == old(self).options(),
            !descend,
    {
        let ghost o = self.out@;
        match level {
            EmphasisLevel::Italic => push_str(&mut self.out, "<em>"),
            EmphasisLevel::Bold => push_str(&mut self.out, "<strong>"),
        }
        render_inline_slice_into(&mut self.out, children);
        match level {
            EmphasisLevel::Italic => push_str(&mut self.out, "</em>"),
            EmphasisLevel::Bold => push_str(&mut self.out, "</strong>"),
        }
        assert(self.out@ =~= o + render_inline(
            SpecInline::Emphasis { level, children: view_inlines_seq(children@), position: Span::empty() },
        ));
        false
    }

    fn visit_inline_code(&mut self, code: &str)
        ensures
            final(self).output() == old(self).output() + "<code>"@ + escape(code@) + "</code>"@,
            final(self).options() == old(self).options(),
    {
        push_str(&mut self.out, "<code>");
        push_escaped(&mut self.out, &str_chars(code));
        push_str(&mut self.out, "</code>");
    }

    fn visit_link(&mut self, text: &[Inline], url: &str, title: Option<&str>) -> (descend: bool)
        ensures
            final(self).output() == old(self).output() + render_inline(
                SpecInline::Link { text: view_inlines_seq(text@), url: url@, title: view_str_ref(title), autolink: false, position: Span::empty() },
            ),
            final(self).options() == old(self).options(),
            !descend,
    {
        let ghost o = self.out@;
        push_str(&mut self.out, "<a href=\"");
        push_escaped(&mut self.out, &str_chars(url));
        push_opt_title_ref(&mut self.out, title);
        push_str(&mut self.out, "\">");
        render_inline_slice_into(&mut self.out, text);
        push_str(&mut self.out, "</a>");
        assert(self.out@ =~= o + render_inline(
            SpecInline::Link { text: view_inlines_seq(text@), url: url@, title: view_str_ref(title), autolink: false, position: Span::empty() },
        ));
        false
    }

    fn visit_image(&mut self, alt: &str, url: &str, title: Option<&str>)
        ensures
            final(self).output() == old(self).output() + render_inline(
                SpecInline::Image { alt: alt@, url: url@, title: view_str_ref(title), position: Span::empty() },
            ),
            final(self).options() == old(self).options(),
    {
        let ghost o = self.out@;
        push_str(&mut self.out, "<img src=\"");
        push_escaped(&mut self.out, &str_chars(url));
        push_str(&mut self.out, "\" alt=\"");
        push_escaped(&mut self.out, &str_chars(alt));
        push_opt_title_ref(&mut self.out, title);
        push_str(&mut self.out, "\" />");
        assert(self.out@ =~= o + render_inline(
            SpecInline::Image { alt: alt@, url: url@, title: view_str_ref(title), position: Span::empty() },
        ));
    }

    fn visit_hard_break(&mut self)
        ensures
            final(self).output() == old(self).output() + "<br />\n"@,
            final(self).options() == old(self).options(),
    {
        push_str(&mut self.out, "<br />\n");
    }

    fn visit_soft_break(&mut self)
        ensures
            final(self).output() == old(self).output() + "\n"@,
            final(self).options() == old(self).options(),
    {
        push_str(&mut self.out, "\n");
    }

    fn visit_inline_html(&mut self, html: &str)
        ensures
            final(self).output() == old(self).output() + html@,
            final(self).options() == old(self).options(),
    {
        push_str(&mut self.out, html);
    }

    fn visit_strikethrough(&mut self, children: &[Inline]) -> (descend: bool)
        ensures
            final(self).output() == old(self).output() + render_inline(
                SpecInline::Strikethrough { children: view_inlines_seq(children@), position: Span::empty() },
            ),
            final(self).options() == old(self).options(),
            !descend,
    {
        let ghost o = self.out@;
        push_str(&mut self.out, "<del>");
        render_inline_slice_into(&mut self.out, children);
        push_str(&mut self.out, "</del>");
        assert(self.out@ =~= o + render_inline(
            SpecInline::Strikethrough { children: view_inlines_seq(children@), position: Span::empty() },
        ));
        false
    }
}

} // verus!
