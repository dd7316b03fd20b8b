//! Block-level and inline-level AST nodes, and their views.
//!
//! Every node type has a mathematical counterpart (`Spec*`), in which
//! strings are `Seq<char>` and child lists are `Seq`s of views.  The
//! functions `view_*` map a node to its view; contracts in the parser and
//! the renderer are stated over the views.

use vstd::prelude::*;
use super::span::Span;
use crate::text::{escape, join_sep, push_str, push_escaped, push_all, join_sep_exec, strings_chars, str_chars, string_from_chars};

verus! {

/// `*text*` (italic) or `**text**` (bold).
#[derive(Debug, Clone, Copy, PartialEq, Eq, Structural)]
pub enum EmphasisLevel {
    Italic,
    Bold,
}

/// State of a GFM task list item.
#[derive(Debug, Clone, Copy, PartialEq, Eq, Structural)]
pub enum TaskState {
    Checked,
    Unchecked,
}

/// Column alignment of a GFM table, from its delimiter row.
#[derive(Debug, Clone, Copy, PartialEq, Eq, Structural)]
pub enum TableCellAlignment {
    Default,
    Left,
    Center,
    Right,
}

impl Default for TableCellAlignment {
    fn default() -> (a: Self)
        ensures
            a == TableCellAlignment::Default,
    {
        TableCellAlignment::Default
    }
}

/// Kramdown block attributes: `{: #id .class key="value" }`.
#[derive(Debug, Clone, PartialEq, Eq)]
pub struct KramdownAttributes {
    pub id: Option<String>,
    pub classes: Vec<String>,
    pub attributes: Vec<(String, String)>,
}

/// View of [`KramdownAttributes`].
pub struct SpecAttrs {
    pub id: Option<Seq<char>>,
    pub classes: Seq<Seq<char>>,
    pub attributes: Seq<(Seq<char>, Seq<char>)>,
}

impl SpecAttrs {
    pub open spec fn empty() -> SpecAttrs {
        SpecAttrs { id: None, classes: Seq::empty(), attributes: Seq::empty() }
    }

    pub open spec fn is_empty(self) -> bool {
        self.id is None && self.classes.len() == 0 && self.attributes.len() == 0
    }
}

pub open spec fn view_opt_str(o: Option<String>) -> Option<Seq<char>> {
    match o {
        Some(s) => Some(s@),
        None => None,
    }
}

pub open spec fn view_strs(v: Seq<String>) -> Seq<Seq<char>> {
    Seq::new(v.len(), |k: int| v[k]@)
}

pub open spec fn view_pairs(v: Seq<(String, String)>) -> Seq<(Seq<char>, Seq<char>)> {
    Seq::new(v.len(), |k: int| (v[k].0@, v[k].1@))
}

pub open spec fn view_attrs(a: KramdownAttributes) -> SpecAttrs {
    SpecAttrs { id: view_opt_str(a.id), classes: view_strs(a.classes@), attributes: view_pairs(a.attributes@) }
}

pub open spec fn view_opt_attrs(a: Option<KramdownAttributes>) -> Option<SpecAttrs> {
    match a {
        Some(a) => Some(view_attrs(a)),
        None => None,
    }
}

impl View for KramdownAttributes {
    type V = SpecAttrs;

    open spec fn view(&self) -> SpecAttrs {
        view_attrs(*self)
    }
}

/// One attribute as HTML: `key="value"`, or the bare key when the value
/// is empty.
pub open spec fn attr_pair_html(p: (Seq<char>, Seq<char>)) -> Seq<char> {
    if p.1.len() == 0 {
        p.0
    } else {
        p.0 + "=\""@ + escape(p.1) + "\""@
    }
}

/// The HTML attributes of `a`: `id="…"`, then `class="…"` (the classes
/// separated by spaces), then the other attributes; values escaped.
pub open spec fn attr_parts(a: SpecAttrs) -> Seq<Seq<char>> {
    let idp = match a.id {
        Some(id) => seq!["id=\""@ + escape(id) + "\""@],
        None => Seq::empty(),
    };
    let clp = if a.classes.len() > 0 {
        seq!["class=\""@ + escape(join_sep(a.classes, ' ')) + "\""@]
    } else {
        Seq::empty()
    };
    idp + clp + Seq::new(a.attributes.len(), |k: int| attr_pair_html(a.attributes[k]))
}

/// The HTML attribute string of `a`: its parts separated by spaces.
pub open spec fn attr_string(a: SpecAttrs) -> Seq<char> {
    join_sep(attr_parts(a), ' ')
}

/// Attributes with no id, no class and no other attribute give an empty
/// attribute string.
pub proof fn lemma_empty_attr_string(a: SpecAttrs)
    requires
        a.is_empty(),
    ensures
        attr_string(a) == Seq::<char>::empty(),
{
    assert(attr_parts(a) =~= Seq::<Seq<char>>::empty());
}

impl KramdownAttributes {
    /// No id, no classes and no other attributes.
    pub fn is_empty(&self) -> (b: bool)
        ensures
            b == self@.is_empty(),
    {
        self.id.is_none() && self.classes.len() == 0 && self.attributes.len() == 0
    }

    /// The attributes as an HTML attribute string, e.g.
    /// `id="x" class="a b" data-k="v"`.
    pub fn to_html_attr_string(&self) -> (s: String)
        ensures
            s@ == attr_string(self@),
    {
        string_from_chars(&self.attr_string_chars())
    }

    pub fn attr_string_chars(&self) -> (s: Vec<char>)
        ensures
            s@ == attr_string(self@),
    {
        let ghost a = self@;
        let mut parts: Vec<Vec<char>> = Vec::new();
        let ghost idp = match a.id {
            Some(id) => seq!["id=\""@ + escape(id) + "\""@],
            None => Seq::<Seq<char>>::empty(),
        };
        match &self.id {
            Some(id) => {
                let mut p: Vec<char> = Vec::new();
                push_str(&mut p, "id=\"");
                push_escaped(&mut p, &str_chars(id.as_str()));
                push_str(&mut p, "\"");
                parts.push(p);
            },
            None => {},
        }
        assert(crate::text::view_char_vecs(parts@) =~= idp);
        let ghost clp = if a.classes.len() > 0 {
            seq!["class=\""@ + escape(join_sep(a.classes, ' ')) + "\""@]
        } else {
            Seq::<Seq<char>>::empty()
        };
        if self.classes.len() > 0 {
            let cs = strings_chars(&self.classes);
            assert(crate::text::view_char_vecs(cs@) =~= a.classes);
            let joined = join_sep_exec(&cs, ' ');
            let mut p: Vec<char> = Vec::new();
            push_str(&mut p, "class=\"");
            push_escaped(&mut p, &joined);
            push_str(&mut p, "\"");
            let ghost p0 = parts@;
            parts.push(p);
            assert(crate::text::view_char_vecs(parts@) =~= crate::text::view_char_vecs(p0).push(p@));
        }
        assert(crate::text::view_char_vecs(parts@) =~= idp + clp);
        let mut k: usize = 0;
        while k < self.attributes.len()
            invariant
                a == self@,
                k <= self.attributes@.len(),
                crate::text::view_char_vecs(parts@) == idp + clp + Seq::new(k as nat, |m: int| attr_pair_html(a.attributes[m])),
            decreases self.attributes@.len() - k,
        {
            let (key, val) = &self.attributes[k];
            let mut p = str_chars(key.as_str());
            let vc = str_chars(val.as_str());
            if vc.len() > 0 {
                push_str(&mut p, "=\"");
                push_escaped(&mut p, &vc);
                push_str(&mut p, "\"");
            }
            proof {
                assert(a.attributes[k as int] == (key@, val@));
                if val@.len() == 0 {
                    assert(val@ =~= Seq::<char>::empty());
                }
            }
            let ghost p0 = parts@;
            parts.push(p);
            assert(crate::text::view_char_vecs(parts@) =~= crate::text::view_char_vecs(p0).push(p@));
            k = k + 1;
            assert(crate::text::view_char_vecs(parts@) =~= idp + clp + Seq::new(k as nat, |m: int| attr_pair_html(a.attributes[m])));
        }
        assert(idp + clp + Seq::new(a.attributes.len(), |m: int| attr_pair_html(a.attributes[m])) == attr_parts(a));
        join_sep_exec(&parts, ' ')
    }
}

impl Default for KramdownAttributes {
    fn default() -> (a: Self)
        ensures
            a@ == SpecAttrs::empty(),
    {
        let a = KramdownAttributes { id: None, classes: Vec::new(), attributes: Vec::new() };
        assert(view_strs(a.classes@) =~= Seq::empty());
        assert(view_pairs(a.attributes@) =~= Seq::empty());
        a
    }
}

/// Inline-level nodes.
#[derive(Debug)]
pub enum Inline {
    Text { value: String, position: Span },
    Emphasis { level: EmphasisLevel, children: Vec<Inline>, position: Span },
    Code { code: String, position: Span },
    Link { text: Vec<Inline>, url: String, title: Option<String>, autolink: bool, position: Span },
    Image { alt: String, url: String, title: Option<String>, position: Span },
    HardBreak { position: Span },
    SoftBreak { position: Span },
    HtmlInline { html: String, position: Span },
    Strikethrough { children: Vec<Inline>, position: Span },
}

/// View of [`Inline`].
pub enum SpecInline {
    Text { value: Seq<char>, position: Span },
    Emphasis { level: EmphasisLevel, children: Seq<SpecInline>, position: Span },
    Code { code: Seq<char>, position: Span },
    Link {
        text: Seq<SpecInline>,
        url: Seq<char>,
        title: Option<Seq<char>>,
        autolink: bool,
        position: Span,
    },
    Image { alt: Seq<char>, url: Seq<char>, title: Option<Seq<char>>, position: Span },
    HardBreak { position: Span },
    SoftBreak { position: Span },
    HtmlInline { html: Seq<char>, position: Span },
    Strikethrough { children: Seq<SpecInline>, position: Span },
}

pub open spec fn view_inline(i: Inline) -> SpecInline
    decreases i,
{
    match i {
        Inline::Text { value, position } => SpecInline::Text { value: value@, position },
        Inline::Emphasis { level, children, position } => SpecInline::Emphasis {
            level,
            children: view_inlines(children),
            position,
        },
        Inline::Code { code, position } => SpecInline::Code { code: code@, position },
        Inline::Link { text, url, title, autolink, position } => SpecInline::Link {
            text: view_inlines(text),
            url: url@,
            title: view_opt_str(title),
            autolink,
            position,
        },
        Inline::Image { alt, url, title, position } => SpecInline::Image {
            alt: alt@,
            url: url@,
            title: view_opt_str(title),
            position,
        },
        Inline::HardBreak { position } => SpecInline::HardBreak { position },
        Inline::SoftBreak { position } => SpecInline::SoftBreak { position },
        Inline::HtmlInline { html, position } => SpecInline::HtmlInline { html: html@, position },
        Inline::Strikethrough { children, position } => SpecInline::Strikethrough {
            children: view_inlines(children),
            position,
        },
    }
}

pub open spec fn view_inlines(v: Vec<Inline>) -> Seq<SpecInline>
    decreases v,
{
    Seq::new(
        v@.len(),
        |k: int|
            if 0 <= k < v@.len() {
                view_inline(v@[k])
            } else {
                SpecInline::HardBreak { position: Span::empty() }
            },
    )
}

impl View for Inline {
    type V = SpecInline;

    open spec fn view(&self) -> SpecInline {
        view_inline(*self)
    }
}

/// A table cell: its inline content.
#[derive(Debug)]
pub struct TableCell {
    pub children: Vec<Inline>,
}

/// A table row: its cells.
#[derive(Debug)]
pub struct TableRow {
    pub cells: Vec<TableCell>,
}

/// A GFM table.
#[derive(Debug)]
pub struct Table {
    pub header: TableRow,
    pub rows: Vec<TableRow>,
    pub alignments: Vec<TableCellAlignment>,
}

pub struct SpecTable {
    pub header: Seq<Seq<SpecInline>>,
    pub rows: Seq<Seq<Seq<SpecInline>>>,
    pub alignments: Seq<TableCellAlignment>,
}

pub open spec fn view_row(r: TableRow) -> Seq<Seq<SpecInline>> {
    Seq::new(r.cells@.len(), |k: int| view_inlines(r.cells@[k].children))
}

pub open spec fn view_rows(v: Seq<TableRow>) -> Seq<Seq<Seq<SpecInline>>> {
    Seq::new(v.len(), |k: int| view_row(v[k]))
}

pub open spec fn view_table(t: Table) -> SpecTable {
    SpecTable { header: view_row(t.header), rows: view_rows(t.rows@), alignments: t.alignments@ }
}

/// An item of a list.
#[derive(Debug)]
pub struct ListItem {
    pub task: Option<TaskState>,
    pub children: Vec<Block>,
    pub position: Span,
}

pub struct SpecListItem {
    pub task: Option<TaskState>,
    pub children: Seq<SpecBlock>,
    pub position: Span,
}

/// Block-level nodes.
#[derive(Debug)]
pub enum Block {
    Heading { level: u8, children: Vec<Inline>, attrs: Option<KramdownAttributes>, position: Span },
    Paragraph { children: Vec<Inline>, attrs: Option<KramdownAttributes>, position: Span },
    CodeBlock {
        lang: Option<String>,
        code: String,
        attrs: Option<KramdownAttributes>,
        position: Span,
    },
    BlockQuote { children: Vec<Block>, attrs: Option<KramdownAttributes>, position: Span },
    List { ordered: bool, items: Vec<ListItem>, attrs: Option<KramdownAttributes>, position: Span },
    ThematicBreak { attrs: Option<KramdownAttributes>, position: Span },
    HtmlBlock { html: String, position: Span },
    Table { table: Table, attrs: Option<KramdownAttributes>, position: Span },
}

/// View of [`Block`].
pub enum SpecBlock {
    Heading { level: u8, children: Seq<SpecInline>, attrs: Option<SpecAttrs>, position: Span },
    Paragraph { children: Seq<SpecInline>, attrs: Option<SpecAttrs>, position: Span },
    CodeBlock {
        lang: Option<Seq<char>>,
        code: Seq<char>,
        attrs: Option<SpecAttrs>,
        position: Span,
    },
    BlockQuote { children: Seq<SpecBlock>, attrs: Option<SpecAttrs>, position: Span },
    List { ordered: bool, items: Seq<SpecListItem>, attrs: Option<SpecAttrs>, position: Span },
    ThematicBreak { attrs: Option<SpecAttrs>, position: Span },
    HtmlBlock { html: Seq<char>, position: Span },
    Table { table: SpecTable, attrs: Option<SpecAttrs>, position: Span },
}

/// The attributes of a block (an HTML block has none).
pub open spec fn block_attrs(b: SpecBlock) -> Option<SpecAttrs> {
    match b {
        SpecBlock::Heading { attrs, .. } => attrs,
        SpecBlock::Paragraph { attrs, .. } => attrs,
        SpecBlock::CodeBlock { attrs, .. } => attrs,
        SpecBlock::BlockQuote { attrs, .. } => attrs,
        SpecBlock::List { attrs, .. } => attrs,
        SpecBlock::ThematicBreak { attrs, .. } => attrs,
        SpecBlock::HtmlBlock { .. } => None,
        SpecBlock::Table { attrs, .. } => attrs,
    }
}

pub open spec fn view_block(b: Block) -> SpecBlock
    decreases b,
{
    match b {
        Block::Heading { level, children, attrs, position } => SpecBlock::Heading {
            level,
            children: view_inlines(children),
            attrs: view_opt_attrs(attrs),
            position,
        },
        Block::Paragraph { children, attrs, position } => SpecBlock::Paragraph {
            children: view_inlines(children),
            attrs: view_opt_attrs(attrs),
            position,
        },
        Block::CodeBlock { lang, code, attrs, position } => SpecBlock::CodeBlock {
            lang: view_opt_str(lang),
            code: code@,
            attrs: view_opt_attrs(attrs),
            position,
        },
        Block::BlockQuote { children, attrs, position } => SpecBlock::BlockQuote {
            children: view_blocks(children),
            attrs: view_opt_attrs(attrs),
            position,
        },
        Block::List { ordered, items, attrs, position } => SpecBlock::List {
            ordered,
            items: view_items(items),
            attrs: view_opt_attrs(attrs),
            position,
        },
        Block::ThematicBreak { attrs, position } => SpecBlock::ThematicBreak {
            attrs: view_opt_attrs(attrs),
            position,
        },
        Block::HtmlBlock { html, position } => SpecBlock::HtmlBlock { html: html@, position },
        Block::Table { table, attrs, position } => SpecBlock::Table {
            table: view_table(table),
            attrs: view_opt_attrs(attrs),
            position,
        },
    }
}

pub open spec fn view_blocks(v: Vec<Block>) -> Seq<SpecBlock>
    decreases v,
{
    Seq::new(
        v@.len(),
        |k: int|
            if 0 <= k < v@.len() {
                view_block(v@[k])
            } else {
                SpecBlock::ThematicBreak { attrs: None, position: Span::empty() }
            },
    )
}

pub open spec fn view_item(it: ListItem) -> SpecListItem
    decreases it,
{
    SpecListItem { task: it.task, children: view_blocks(it.children), position: it.position }
}

pub open spec fn view_items(v: Vec<ListItem>) -> Seq<SpecListItem>
    decreases v,
{
    Seq::new(
        v@.len(),
        |k: int|
            if 0 <= k < v@.len() {
                view_item(v@[k])
            } else {
                SpecListItem { task: None, children: Seq::empty(), position: Span::empty() }
            },
    )
}

impl View for Block {
    type V = SpecBlock;

    open spec fn view(&self) -> SpecBlock {
        view_block(*self)
    }
}

/// The root of the AST.
#[derive(Debug)]
pub struct Document {
    pub node_type: &'static str,
    pub children: Vec<Block>,
    pub position: Span,
}

pub struct SpecDocument {
    pub children: Seq<SpecBlock>,
    pub position: Span,
}

pub open spec fn view_document(d: Document) -> SpecDocument {
    SpecDocument { children: view_blocks(d.children), position: d.position }
}

impl View for Document {
    type V = SpecDocument;

    open spec fn view(&self) -> SpecDocument {
        view_document(*self)
    }
}

} // verus!

verus! {

// ---------------------------------------------------------------------------
// Copies
// ---------------------------------------------------------------------------

fn clone_opt_string(o: &Option<String>) -> (r: Option<String>)
    ensures
        view_opt_str(r) == view_opt_str(*o),
{
    match o {
        Some(s) => Some(s.clone()),
        None => None,
    }
}

/// A copy of the attributes.
pub fn clone_attrs(a: &KramdownAttributes) -> (r: KramdownAttributes)
    ensures
        r@ == a@,
{
    let mut classes: Vec<String> = Vec::new();
    let mut k: usize = 0;
    while k < a.classes.len()
        invariant
            k <= a.classes@.len(),
            view_strs(classes@) == view_strs(a.classes@).subrange(0, k as int),
        decreases a.classes@.len() - k,
    {
        let c = a.classes[k].clone();
        let ghost c0 = classes@;
        classes.push(c);
        assert(view_strs(classes@) =~= view_strs(c0).push(c@));
        k = k + 1;
        assert(view_strs(classes@) =~= view_strs(a.classes@).subrange(0, k as int));
    }
    let mut attributes: Vec<(String, String)> = Vec::new();
    let mut k: usize = 0;
    while k < a.attributes.len()
        invariant
            k <= a.attributes@.len(),
            view_pairs(attributes@) == view_pairs(a.attributes@).subrange(0, k as int),
        decreases a.attributes@.len() - k,
    {
        let p = (a.attributes[k].0.clone(), a.attributes[k].1.clone());
        let ghost p0 = attributes@;
        attributes.push(p);
        assert(view_pairs(attributes@) =~= view_pairs(p0).push((p.0@, p.1@)));
        k = k + 1;
        assert(view_pairs(attributes@) =~= view_pairs(a.attributes@).subrange(0, k as int));
    }
    let r = KramdownAttributes { id: clone_opt_string(&a.id), classes, attributes };
    assert(view_strs(r.classes@) =~= view_strs(a.classes@));
    assert(view_pairs(r.attributes@) =~= view_pairs(a.attributes@));
    r
}

fn clone_opt_attrs(a: &Option<KramdownAttributes>) -> (r: Option<KramdownAttributes>)
    ensures
        view_opt_attrs(r) == view_opt_attrs(*a),
{
    match a {
        Some(a) => Some(clone_attrs(a)),
        None => None,
    }
}

/// A copy of an inline node.
pub fn clone_inline(i: &Inline) -> (r: Inline)
    ensures
        view_inline(r) == view_inline(*i),
    decreases i,
{
    match i {
        Inline::Text { value, position } => Inline::Text { value: value.clone(), position: *position },
        Inline::Emphasis { level, children, position } => Inline::Emphasis {
            level: *level,
            children: clone_inlines(children),
            position: *position,
        },
        Inline::Code { code, position } => Inline::Code { code: code.clone(), position: *position },
        Inline::Link { text, url, title, autolink, position } => Inline::Link {
            text: clone_inlines(text),
            url: url.clone(),
            title: clone_opt_string(title),
            autolink: *autolink,
            position: *position,
        },
        Inline::Image { alt, url, title, position } => Inline::Image {
            alt: alt.clone(),
            url: url.clone(),
            title: clone_opt_string(title),
            position: *position,
        },
        Inline::HardBreak { position } => Inline::HardBreak { position: *position },
        Inline::SoftBreak { position } => Inline::SoftBreak { position: *position },
        Inline::HtmlInline { html, position } => Inline::HtmlInline { html: html.clone(), position: *position },
        Inline::Strikethrough { children, position } => Inline::Strikethrough {
            children: clone_inlines(children),
            position: *position,
        },
    }
}

/// A copy of inline nodes.
pub fn clone_inlines(v: &Vec<Inline>) -> (r: Vec<Inline>)
    ensures
        view_inlines(r) == view_inlines(*v),
    decreases v,
{
    let mut r: Vec<Inline> = Vec::new();
    let mut k: usize = 0;
    while k < v.len()
        invariant
            k <= v@.len(),
            r@.len() == k,
            forall|m: int| 0 <= m < k ==> view_inline(#[trigger] r@[m]) == view_inline(v@[m]),
        decreases v@.len() - k,
    {
        r.push(clone_inline(&v[k]));
        k = k + 1;
    }
    assert(view_inlines(r) =~= view_inlines(*v));
    r
}

fn clone_row(row: &TableRow) -> (r: TableRow)
    ensures
        view_row(r) == view_row(*row),
{
    let mut cells: Vec<TableCell> = Vec::new();
    let mut k: usize = 0;
    while k < row.cells.len()
        invariant
            k <= row.cells@.len(),
            cells@.len() == k,
            forall|m: int| 0 <= m < k ==> view_inlines(#[trigger] cells@[m].children) == view_inlines(row.cells@[m].children),
        decreases row.cells@.len() - k,
    {
        cells.push(TableCell { children: clone_inlines(&row.cells[k].children) });
        k = k + 1;
    }
    let r = TableRow { cells };
    assert(view_row(r) =~= view_row(*row));
    r
}

/// A copy of a table.
pub fn clone_table(t: &Table) -> (r: Table)
    ensures
        view_table(r) == view_table(*t),
{
    let mut rows: Vec<TableRow> = Vec::new();
    let mut k: usize = 0;
    while k < t.rows.len()
        invariant
            k <= t.rows@.len(),
            rows@.len() == k,
            forall|m: int| 0 <= m < k ==> view_row(#[trigger] rows@[m]) == view_row(t.rows@[m]),
        decreases t.rows@.len() - k,
    {
        rows.push(clone_row(&t.rows[k]));
        k = k + 1;
    }
    let mut aligns: Vec<TableCellAlignment> = Vec::new();
    let mut k: usize = 0;
    while k < t.alignments.len()
        invariant
            k <= t.alignments@.len(),
            aligns@ == t.alignments@.subrange(0, k as int),
        decreases t.alignments@.len() - k,
    {
        aligns.push(t.alignments[k]);
        k = k + 1;
    }
    assert(aligns@ =~= t.alignments@);
    let r = Table { header: clone_row(&t.header), rows, alignments: aligns };
    assert(view_rows(r.rows@) =~= view_rows(t.rows@));
    r
}

/// A copy of a block.
pub fn clone_block(b: &Block) -> (r: Block)
    ensures
        view_block(r) == view_block(*b),
    decreases b,
{
    match b {
        Block::Heading { level, children, attrs, position } => Block::Heading {
            level: *level,
            children: clone_inlines(children),
            attrs: clone_opt_attrs(attrs),
            position: *position,
        },
        Block::Paragraph { children, attrs, position } => Block::Paragraph {
            children: clone_inlines(children),
            attrs: clone_opt_attrs(attrs),
            position: *position,
        },
        Block::CodeBlock { lang, code, attrs, position } => Block::CodeBlock {
            lang: clone_opt_string(lang),
            code: code.clone(),
            attrs: clone_opt_attrs(attrs),
            position: *position,
        },
        Block::BlockQuote { children, attrs, position } => Block::BlockQuote {
            children: clone_blocks(children),
            attrs: clone_opt_attrs(attrs),
            position: *position,
        },
        Block::List { ordered, items, attrs, position } => Block::List {
            ordered: *ordered,
            items: clone_items(items),
            attrs: clone_opt_attrs(attrs),
            position: *position,
        },
        Block::ThematicBreak { attrs, position } => Block::ThematicBreak {
            attrs: clone_opt_attrs(attrs),
            position: *position,
        },
        Block::HtmlBlock { html, position } => Block::HtmlBlock { html: html.clone(), position: *position },
        Block::Table { table, attrs, position } => Block::Table {
            table: clone_table(table),
            attrs: clone_opt_attrs(attrs),
            position: *position,
        },
    }
}

/// A copy of blocks.
pub fn clone_blocks(v: &Vec<Block>) -> (r: Vec<Block>)
    ensures
        view_blocks(r) == view_blocks(*v),
    decreases v,
{
    let mut r: Vec<Block> = Vec::new();
    let mut k: usize = 0;
    while k < v.len()
        invariant
            k <= v@.len(),
            r@.len() == k,
            forall|m: int| 0 <= m < k ==> view_block(#[trigger] r@[m]) == view_block(v@[m]),
        decreases v@.len() - k,
    {
        r.push(clone_block(&v[k]));
        k = k + 1;
    }
    assert(view_blocks(r) =~= view_blocks(*v));
    r
}

fn clone_item(it: &ListItem) -> (r: ListItem)
    ensures
        view_item(r) == view_item(*it),
    decreases it,
{
    ListItem { task: it.task, children: clone_blocks(&it.children), position: it.position }
}

fn clone_items(v: &Vec<ListItem>) -> (r: Vec<ListItem>)
    ensures
        view_items(r) == view_items(*v),
    decreases v,
{
    let mut r: Vec<ListItem> = Vec::new();
    let mut k: usize = 0;
    while k < v.len()
        invariant
            k <= v@.len(),
            r@.len() == k,
            forall|m: int| 0 <= m < k ==> view_item(#[trigger] r@[m]) == view_item(v@[m]),
        decreases v@.len() - k,
    {
        r.push(clone_item(&v[k]));
        k = k + 1;
    }
    assert(view_items(r) =~= view_items(*v));
    r
}

impl Document {
    /// A copy of the document.
    pub fn copy(&self) -> (r: Document)
        ensures
            view_document(r) == view_document(*self),
            r.node_type == self.node_type,
    {
        Document { node_type: self.node_type, children: clone_blocks(&self.children), position: self.position }
    }
}

} // verus!

verus! {

impl Clone for Inline {
    fn clone(&self) -> (r: Self)
        ensures
            view_inline(r) == view_inline(*self),
    {
        clone_inline(self)
    }
}

impl Clone for Document {
    fn clone(&self) -> (r: Self)
        ensures
            view_document(r) == view_document(*self),
    {
        self.copy()
    }
}

} // verus!

verus! {

impl Clone for Block {
    fn clone(&self) -> (r: Self)
        ensures
            view_block(r) == view_block(*self),
    {
        clone_block(self)
    }
}

impl Clone for ListItem {
    fn clone(&self) -> (r: Self)
        ensures
            view_item(r) == view_item(*self),
    {
        clone_item(self)
    }
}

impl Clone for TableRow {
    fn clone(&self) -> (r: Self)
        ensures
            view_row(r) == view_row(*self),
    {
        clone_row(self)
    }
}

impl Clone for TableCell {
    fn clone(&self) -> (r: Self)
        ensures
            view_inlines(r.children) == view_inlines(self.children),
    {
        TableCell { children: clone_inlines(&self.children) }
    }
}

impl Clone for Table {
    fn clone(&self) -> (r: Self)
        ensures
            view_table(r) == view_table(*self),
    {
        clone_table(self)
    }
}

} // verus!
