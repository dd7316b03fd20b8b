//! Plugin system for extending the parser and AST visitor.
//!
//! A plugin is a struct that implements [`Plugin`].  Plugins can:
//! - Transform the AST after parsing (via [`Plugin::transform_ast`]).
//! - Customize the HTML rendering pipeline (via [`Plugin::pre_render`] and
//!   [`Plugin::post_render`]).
//!
//! A [`PluginPipeline`] runs each of its plugins once, in the order they
//! were added.  Its contracts fold the plugins' spec functions in that
//! order; they bind the plugins whose type declares that its hooks follow
//! them (as the built-in plugins do), and say what an empty pipeline does.

use vstd::prelude::*;
use crate::ast::{Block, Document, KramdownAttributes, ListItem};
use crate::ast::nodes::{SpecAttrs, SpecBlock, SpecDocument, SpecListItem, view_document, view_blocks, view_block, view_item, view_items, view_attrs, clone_attrs};
use crate::config::{ParseOptions, RenderOptions};
use crate::html::AstToHtml;
use crate::text::{push_str, push_all, str_chars, string_from_chars};

verus! {

/// Context passed to plugins during processing.
#[derive(Debug, Clone, Copy)]
pub struct PluginContext {
    /// The parse options that were used.
    pub options: ParseOptions,
}

impl PluginContext {
    pub fn new(options: ParseOptions) -> (c: Self)
        ensures
            c.options == options,
    {
        PluginContext { options }
    }
}

/// Result of running the plugin pipeline — the (possibly modified) document.
pub type PluginResult = Document;

/// Trait that every plugin must implement.
///
/// A plugin implements all four hooks (a hook of no interest does
/// nothing).  A type that sets [`obeys_plugin_spec`](Plugin::obeys_plugin_spec)
/// promises that its hooks do what its spec functions say; the hooks of a
/// type that does not (the default) promise nothing.
pub trait Plugin: Send + Sync {
    /// Whether the hooks follow the spec functions below.
    open spec fn obeys_plugin_spec(&self) -> bool {
        false
    }

    /// The plugin's name.
    open spec fn spec_name(&self) -> Seq<char> {
        "unnamed-plugin"@
    }

    /// The document after [`Plugin::transform_ast`].
    open spec fn spec_transform(&self, d: SpecDocument, ctx: PluginContext) -> SpecDocument {
        d
    }

    /// The renderer's output and options after [`Plugin::pre_render`].
    open spec fn spec_pre_render(&self, r: (Seq<char>, RenderOptions), d: SpecDocument, ctx: PluginContext) -> (Seq<char>, RenderOptions) {
        r
    }

    /// The HTML after [`Plugin::post_render`].
    open spec fn spec_post_render(&self, html: Seq<char>, d: SpecDocument, ctx: PluginContext) -> Seq<char> {
        html
    }

    /// Human-readable name (used for debugging / logging).
    fn name(&self) -> (r: &str)
        ensures
            self.obeys_plugin_spec() ==> r@ == self.spec_name(),
    ;

    /// Transform the AST in-place after parsing.
    fn transform_ast(&self, doc: &mut Document, ctx: &PluginContext)
        ensures
            self.obeys_plugin_spec() ==> view_document(*final(doc)) == self.spec_transform(view_document(*old(doc)), *ctx),
    ;

    /// Hook called before HTML rendering begins.
    fn pre_render(&self, renderer: &mut AstToHtml, doc: &Document, ctx: &PluginContext)
        ensures
            self.obeys_plugin_spec() ==> (final(renderer).output(), final(renderer).options())
                == self.spec_pre_render((old(renderer).output(), old(renderer).options()), view_document(*doc), *ctx),
    ;

    /// Hook called after HTML rendering finishes (before the output string
    /// is returned).
    fn post_render(&self, html: &mut String, doc: &Document, ctx: &PluginContext)
        ensures
            self.obeys_plugin_spec() ==> final(html)@ == self.spec_post_render(old(html)@, view_document(*doc), *ctx),
    ;
}

/// Whether every plugin of `ps` follows its spec functions.
pub open spec fn all_obey(ps: Seq<Box<dyn Plugin>>) -> bool {
    forall|k: int| 0 <= k < ps.len() ==> #[trigger] ps[k].obeys_plugin_spec()
}

/// The document after the transforms of the plugins `ps`, each once, in
/// order.
pub open spec fn transforms_fold(ps: Seq<Box<dyn Plugin>>, d: SpecDocument, ctx: PluginContext) -> SpecDocument
    decreases ps.len(),
{
    if ps.len() == 0 {
        d
    } else {
        ps.last().spec_transform(transforms_fold(ps.drop_last(), d, ctx), ctx)
    }
}

/// The renderer's output and options after the pre-render hooks of `ps`,
/// each once, in order.
pub open spec fn pre_render_fold(ps: Seq<Box<dyn Plugin>>, r: (Seq<char>, RenderOptions), d: SpecDocument, ctx: PluginContext) -> (Seq<char>, RenderOptions)
    decreases ps.len(),
{
    if ps.len() == 0 {
        r
    } else {
        ps.last().spec_pre_render(pre_render_fold(ps.drop_last(), r, d, ctx), d, ctx)
    }
}

/// The HTML after the post-render hooks of `ps`, each once, in order.
pub open spec fn post_render_fold(ps: Seq<Box<dyn Plugin>>, html: Seq<char>, d: SpecDocument, ctx: PluginContext) -> Seq<char>
    decreases ps.len(),
{
    if ps.len() == 0 {
        html
    } else {
        ps.last().spec_post_render(post_render_fold(ps.drop_last(), html, d, ctx), d, ctx)
    }
}

/// What rendering `d` with options `o` through the plugins `ps` gives: the
/// transforms, then the pre-render hooks on a fresh renderer, then the
/// document's HTML (with the options the hooks left), then the post-render
/// hooks.
pub open spec fn spec_render_with(ps: Seq<Box<dyn Plugin>>, d: SpecDocument, o: RenderOptions, ctx: PluginContext) -> Seq<char> {
    let t = transforms_fold(ps, d, ctx);
    let r = pre_render_fold(ps, (Seq::empty(), o), t, ctx);
    post_render_fold(ps, r.0 + crate::html::spec_render(t, r.1), t, ctx)
}

proof fn lemma_prefix_step<A>(s: Seq<A>, k: int)
    requires
        0 <= k < s.len(),
    ensures
        s.subrange(0, k + 1).drop_last() == s.subrange(0, k),
        s.subrange(0, k + 1).last() == s[k],
{
    assert(s.subrange(0, k + 1).drop_last() =~= s.subrange(0, k));
}

/// A pipeline that runs plugins in order.
pub struct PluginPipeline {
    plugins: Vec<Box<dyn Plugin>>,
}

impl PluginPipeline {
    /// The plugins, in the order they were added.
    pub closed spec fn plugins(&self) -> Seq<Box<dyn Plugin>> {
        self.plugins@
    }

    /// The number of plugins added.
    pub open spec fn len(&self) -> nat {
        self.plugins().len()
    }

    /// Create an empty pipeline.
    pub fn new() -> (p: Self)
        ensures
            p.plugins() == Seq::<Box<dyn Plugin>>::empty(),
    {
        PluginPipeline { plugins: Vec::new() }
    }

    /// Add a plugin to the end of the pipeline.  Returns the pipeline, so
    /// that calls chain.
    ///
    /// The contract places the boxed plugin last.  It does not say that the
    /// box's spec functions are those of `P`: the box is made in generic
    /// code, where Verus ties no spec function of a `dyn Plugin` to the
    /// type it came from.
    pub fn add<P: Plugin + 'static>(&mut self, plugin: P) -> (r: &mut Self)
        ensures
            (*r).plugins() == ({
                let p: Box<dyn Plugin> = Box::new(plugin);
                old(self).plugins().push(p)
            }),
            (*r).len() == old(self).len() + 1,
            forall|k: int| 0 <= k < old(self).len() ==> #[trigger] (*r).plugins()[k] == old(self).plugins()[k],
            (*r).plugins()[old(self).len() as int] == ({
                let p: Box<dyn Plugin> = Box::new(plugin);
                p
            }),
            *final(self) == *final(r),
    {
        let ghost before = self.plugins@;
        let b: Box<dyn Plugin> = Box::new(plugin);
        self.plugins.push(b);
        proof {
            vstd::seq::axiom_seq_push_len(before, b);
            vstd::seq::axiom_seq_push_index_same(before, b, before.len() as int);
            assert forall|k: int| 0 <= k < before.len() implies #[trigger] self.plugins@[k] == before[k] by {
                vstd::seq::axiom_seq_push_index_different(before, b, k);
            }
        }
        self
    }

    /// Run all plugins: AST transforms, then return the modified document.
    /// Each plugin transforms once, in the order of adding; an empty
    /// pipeline returns the document unchanged.
    pub fn run_transforms(&self, doc: Document, ctx: &PluginContext) -> (r: Document)
        ensures
            all_obey(self.plugins()) ==> view_document(r) == transforms_fold(self.plugins(), view_document(doc), *ctx),
            self.len() == 0 ==> r == doc,
    {
        let ghost d0 = doc;
        let ghost ps = self.plugins@;
        let mut doc = doc;
        let mut k: usize = 0;
        proof {
            assert(ps.subrange(0, 0) =~= Seq::<Box<dyn Plugin>>::empty());
        }
        while k < self.plugins.len()
            invariant
                ps == self.plugins@,
                k <= ps.len(),
                ps.len() == 0 ==> doc == d0,
                all_obey(ps) ==> view_document(doc) == transforms_fold(ps.subrange(0, k as int), view_document(d0), *ctx),
            decreases ps.len() - k,
        {
            self.plugins[k].transform_ast(&mut doc, ctx);
            proof {
                lemma_prefix_step(ps, k as int);
            }
            k = k + 1;
        }
        assert(ps.subrange(0, ps.len() as int) =~= ps);
        doc
    }

    /// Run pre-render hooks, each once, in the order of adding.  An empty
    /// pipeline leaves the renderer as it is.
    pub fn run_pre_render(&self, renderer: &mut AstToHtml, doc: &Document, ctx: &PluginContext)
        ensures
            all_obey(self.plugins()) ==> (final(renderer).output(), final(renderer).options()) == pre_render_fold(
                self.plugins(),
                (old(renderer).output(), old(renderer).options()),
                view_document(*doc),
                *ctx,
            ),
            self.len() == 0 ==> final(renderer).output() == old(renderer).output()
                && final(renderer).options() == old(renderer).options(),
    {
        let ghost ps = self.plugins@;
        let ghost r0 = (renderer.output(), renderer.options());
        let mut k: usize = 0;
        proof {
            assert(ps.subrange(0, 0) =~= Seq::<Box<dyn Plugin>>::empty());
        }
        while k < self.plugins.len()
            invariant
                ps == self.plugins@,
                k <= ps.len(),
                r0 == (old(renderer).output(), old(renderer).options()),
                ps.len() == 0 ==> renderer.output() == old(renderer).output() && renderer.options() == old(renderer).options(),
                all_obey(ps) ==> (renderer.output(), renderer.options()) == pre_render_fold(ps.subrange(0, k as int), r0, view_document(*doc), *ctx),
            decreases ps.len() - k,
        {
            self.plugins[k].pre_render(renderer, doc, ctx);
            proof {
                lemma_prefix_step(ps, k as int);
            }
            k = k + 1;
        }
        assert(ps.subrange(0, ps.len() as int) =~= ps);
    }

    /// Run post-render hooks, each once, in the order of adding.  An empty
    /// pipeline leaves the HTML as it is.
    pub fn run_post_render(&self, html: &mut String, doc: &Document, ctx: &PluginContext)
        ensures
            all_obey(self.plugins()) ==> final(html)@ == post_render_fold(self.plugins(), old(html)@, view_document(*doc), *ctx),
            self.len() == 0 ==> final(html)@ == old(html)@,
    {
        let ghost ps = self.plugins@;
        let mut k: usize = 0;
        proof {
            assert(ps.subrange(0, 0) =~= Seq::<Box<dyn Plugin>>::empty());
        }
        while k < self.plugins.len()
            invariant
                ps == self.plugins@,
                k <= ps.len(),
                ps.len() == 0 ==> html@ == old(html)@,
                all_obey(ps) ==> html@ == post_render_fold(ps.subrange(0, k as int), old(html)@, view_document(*doc), *ctx),
            decreases ps.len() - k,
        {
            self.plugins[k].post_render(html, doc, ctx);
            proof {
                lemma_prefix_step(ps, k as int);
            }
            k = k + 1;
        }
        assert(ps.subrange(0, ps.len() as int) =~= ps);
    }

    /// Run the full pipeline: AST transforms → render → post-render, each
    /// plugin's hooks once, in the order of adding (what
    /// [`crate::html::render_document_with`] does).
    pub fn run(&self, doc: Document, ctx: &PluginContext, render_opts: &crate::config::RenderOptions) -> (html: String)
        ensures
            all_obey(self.plugins()) ==> html@ == spec_render_with(self.plugins(), view_document(doc), *render_opts, *ctx),
            self.len() == 0 ==> html@ == crate::html::spec_render(view_document(doc), *render_opts),
    {
        crate::html::render_document_with(&doc, render_opts, self, ctx)
    }

    /// The names of the plugins, in order: one for each plugin.
    pub fn plugin_names(&self) -> (names: Vec<&str>)
        ensures
            names@.len() == self.len(),
            forall|k: int| 0 <= k < self.len() && #[trigger] self.plugins()[k].obeys_plugin_spec()
                ==> names@[k]@ == self.plugins()[k].spec_name(),
    {
        let ghost ps = self.plugins@;
        let mut names: Vec<&str> = Vec::new();
        let mut k: usize = 0;
        while k < self.plugins.len()
            invariant
                ps == self.plugins@,
                k <= ps.len(),
                names@.len() == k,
                forall|m: int| 0 <= m < k && #[trigger] ps[m].obeys_plugin_spec() ==> names@[m]@ == ps[m].spec_name(),
            decreases ps.len() - k,
        {
            let n = self.plugins[k].name();
            names.push(n);
            k = k + 1;
        }
        names
    }
}

impl Default for PluginPipeline {
    fn default() -> (p: Self)
        ensures
            p.len() == 0,
    {
        Self::new()
    }
}

// ---------------------------------------------------------------------------
// Built-in plugins
// ---------------------------------------------------------------------------

/// The attributes of a heading with `class` added to its classes.
pub open spec fn add_class(attrs: Option<SpecAttrs>, class: Seq<char>) -> SpecAttrs {
    let a = match attrs {
        Some(a) => a,
        None => SpecAttrs::empty(),
    };
    SpecAttrs { classes: a.classes.push(class), ..a }
}

/// A top-level block after [`HeadingClass`]: a heading gets the class.
pub open spec fn heading_with_class(b: SpecBlock, class: Seq<char>) -> SpecBlock {
    match b {
        SpecBlock::Heading { level, children, attrs, position } => SpecBlock::Heading {
            level,
            children,
            attrs: Some(add_class(attrs, class)),
            position,
        },
        _ => b,
    }
}

/// A block after [`HeadingClass`]: a heading gets the class, and so does
/// every heading inside a block quote or a list item, at any depth; nothing
/// else changes.
pub open spec fn classed_block(b: SpecBlock, class: Seq<char>) -> SpecBlock
    decreases b,
{
    match b {
        SpecBlock::Heading { .. } => heading_with_class(b, class),
        SpecBlock::BlockQuote { children, attrs, position } => SpecBlock::BlockQuote {
            children: classed_blocks(children, class),
            attrs,
            position,
        },
        SpecBlock::List { ordered, items, attrs, position } => SpecBlock::List {
            ordered,
            items: classed_items(items, class),
            attrs,
            position,
        },
        _ => b,
    }
}

/// [`classed_block`] of each block.
pub open spec fn classed_blocks(s: Seq<SpecBlock>, class: Seq<char>) -> Seq<SpecBlock>
    decreases s,
{
    Seq::new(
        s.len(),
        |k: int|
            if 0 <= k < s.len() {
                classed_block(s[k], class)
            } else {
                SpecBlock::ThematicBreak { attrs: None, position: crate::ast::span::Span::empty() }
            },
    )
}

/// A list item after [`HeadingClass`]: its blocks are [`classed_block`]s.
pub open spec fn classed_item(it: SpecListItem, class: Seq<char>) -> SpecListItem
    decreases it,
{
    SpecListItem { task: it.task, children: classed_blocks(it.children, class), position: it.position }
}

/// [`classed_item`] of each item.
pub open spec fn classed_items(s: Seq<SpecListItem>, class: Seq<char>) -> Seq<SpecListItem>
    decreases s,
{
    Seq::new(
        s.len(),
        |k: int|
            if 0 <= k < s.len() {
                classed_item(s[k], class)
            } else {
                SpecListItem { task: None, children: Seq::empty(), position: crate::ast::span::Span::empty() }
            },
    )
}

/// The document after [`HeadingClass`]: every heading, at any depth, gets
/// the class; nothing else changes.
pub open spec fn spec_heading_class(d: SpecDocument, class: Seq<char>) -> SpecDocument {
    SpecDocument { children: classed_blocks(d.children, class), position: d.position }
}

/// A plugin that adds a class to every heading (e.g. `class="anchor"`).
pub struct HeadingClass {
    pub class: String,
}

impl HeadingClass {
    fn add_to(&self, b: Block) -> (r: Block)
        ensures
            view_block(r) == heading_with_class(view_block(b), self.class@),
    {
        match b {
            Block::Heading { level, children, attrs, position } => {
                let existing = match attrs {
                    Some(a) => a,
                    None => KramdownAttributes::default(),
                };
                let ghost ea = existing@;
                let mut classes = existing.classes;
                let c = self.class.clone();
                classes.push(c);
                let na = KramdownAttributes { id: existing.id, classes, attributes: existing.attributes };
                assert(crate::ast::nodes::view_strs(na.classes@) =~= ea.classes.push(self.class@));
                Block::Heading { level, children, attrs: Some(na), position }
            },
            other => other,
        }
    }
}

impl HeadingClass {
    fn class_block(&self, b: Block) -> (r: Block)
        ensures
            view_block(r) == classed_block(view_block(b), self.class@),
        decreases b,
    {
        match b {
            Block::Heading { .. } => self.add_to(b),
            Block::BlockQuote { children, attrs, position } => {
                Block::BlockQuote { children: self.class_blocks(children), attrs, position }
            },
            Block::List { ordered, items, attrs, position } => {
                Block::List { ordered, items: self.class_items(items), attrs, position }
            },
            other => other,
        }
    }

    fn class_blocks(&self, v: Vec<Block>) -> (r: Vec<Block>)
        ensures
            view_blocks(r) == classed_blocks(view_blocks(v), self.class@),
        decreases v,
    {
        let ghost orig = v@;
        let n = v.len();
        let mut rest = v;
        let mut out: Vec<Block> = Vec::new();
        while rest.len() > 0
            invariant
                orig.len() == n,
                orig == v@,
                rest@ == orig.subrange((n - rest@.len()) as int, n as int),
                out@.len() == n - rest@.len(),
                forall|m: int| 0 <= m < out@.len() ==> view_block(#[trigger] out@[m]) == classed_block(view_block(orig[m]), self.class@),
            decreases rest@.len(),
        {
            let ghost k = n - rest@.len();
            let b = rest.remove(0);
            assert(b == orig[k as int]);
            assert(decreases_to!(v => v@[k as int]));
            out.push(self.class_block(b));
            assert(rest@ =~= orig.subrange((n - rest@.len()) as int, n as int));
        }
        assert(view_blocks(out) =~= classed_blocks(view_blocks(v), self.class@));
        out
    }

    fn class_item(&self, it: ListItem) -> (r: ListItem)
        ensures
            view_item(r) == classed_item(view_item(it), self.class@),
        decreases it,
    {
        ListItem { task: it.task, children: self.class_blocks(it.children), position: it.position }
    }

    fn class_items(&self, v: Vec<ListItem>) -> (r: Vec<ListItem>)
        ensures
            view_items(r) == classed_items(view_items(v), self.class@),
        decreases v,
    {
        let ghost orig = v@;
        let n = v.len();
        let mut rest = v;
        let mut out: Vec<ListItem> = Vec::new();
        while rest.len() > 0
            invariant
                orig.len() == n,
                orig == v@,
                rest@ == orig.subrange((n - rest@.len()) as int, n as int),
                out@.len() == n - rest@.len(),
                forall|m: int| 0 <= m < out@.len() ==> view_item(#[trigger] out@[m]) == classed_item(view_item(orig[m]), self.class@),
            decreases rest@.len(),
        {
            let ghost k = n - rest@.len();
            let it = rest.remove(0);
            assert(it == orig[k as int]);
            assert(decreases_to!(v => v@[k as int]));
            out.push(self.class_item(it));
            assert(rest@ =~= orig.subrange((n - rest@.len()) as int, n as int));
        }
        assert(view_items(out) =~= classed_items(view_items(v), self.class@));
        out
    }
}

/// Move the blocks out of `doc`, leaving none.
pub(crate) fn take_children(doc: &mut Document) -> (v: Vec<Block>)
    ensures
        v == old(doc).children,
        final(doc).children@.len() == 0,
        final(doc).position == old(doc).position,
        final(doc).node_type == old(doc).node_type,
{
    let mut v: Vec<Block> = Vec::new();
    std::mem::swap(&mut v, &mut doc.children);
    v
}

impl Plugin for HeadingClass {
    open spec fn obeys_plugin_spec(&self) -> bool {
        true
    }

    open spec fn spec_name(&self) -> Seq<char> {
        "heading-class"@
    }

    open spec fn spec_transform(&self, d: SpecDocument, ctx: PluginContext) -> SpecDocument {
        spec_heading_class(d, self.class@)
    }

    fn pre_render(&self, renderer: &mut AstToHtml, doc: &Document, ctx: &PluginContext) {
    }

    fn post_render(&self, html: &mut String, doc: &Document, ctx: &PluginContext) {
    }

    fn name(&self) -> (r: &str)
        ensures
            r@ == "heading-class"@,
    {
        "heading-class"
    }

    fn transform_ast(&self, doc: &mut Document, ctx: &PluginContext)
        ensures
            view_document(*final(doc)) == spec_heading_class(view_document(*old(doc)), self.class@),
            final(doc).node_type == old(doc).node_type,
    {
        let blocks = take_children(doc);
        doc.children = self.class_blocks(blocks);
    }
}

/// `html` inside `<div class="…">`: what [`WrapDiv`] makes of the output.
pub open spec fn spec_wrap_div(class: Seq<char>, html: Seq<char>) -> Seq<char> {
    "<div class=\""@ + class + "\">\n"@ + html + "</div>\n"@
}

/// Wrap `html` in a `<div>` of the class.
pub fn wrap_in_div(class: &String, html: &mut String)
    ensures
        final(html)@ == spec_wrap_div(class@, old(html)@),
{
    let mut out: Vec<char> = Vec::new();
    push_str(&mut out, "<div class=\"");
    push_str(&mut out, class.as_str());
    push_str(&mut out, "\">\n");
    push_str(&mut out, html.as_str());
    push_str(&mut out, "</div>\n");
    assert(out@ =~= spec_wrap_div(class@, old(html)@));
    *html = string_from_chars(&out);
}

/// A plugin that wraps the document body in a `<div class="markdown-body">`.
/// (Applied as a post-render hook.)
pub struct WrapDiv {
    pub class: String,
}

impl Plugin for WrapDiv {
    open spec fn obeys_plugin_spec(&self) -> bool {
        true
    }

    open spec fn spec_name(&self) -> Seq<char> {
        "wrap-div"@
    }

    open spec fn spec_post_render(&self, html: Seq<char>, d: SpecDocument, ctx: PluginContext) -> Seq<char> {
        spec_wrap_div(self.class@, html)
    }

    fn transform_ast(&self, doc: &mut Document, ctx: &PluginContext) {
    }

    fn pre_render(&self, renderer: &mut AstToHtml, doc: &Document, ctx: &PluginContext) {
    }

    fn name(&self) -> (r: &str)
        ensures
            r@ == "wrap-div"@,
    {
        "wrap-div"
    }

    fn post_render(&self, html: &mut String, doc: &Document, ctx: &PluginContext)
        ensures
            final(html)@ == spec_wrap_div(self.class@, old(html)@),
    {
        wrap_in_div(&self.class, html);
    }
}

} // verus!
