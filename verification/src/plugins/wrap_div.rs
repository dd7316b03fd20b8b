use vstd::prelude::*;
use crate::ast::Document;
use crate::ast::nodes::SpecDocument;
use crate::html::AstToHtml;
use crate::plugin_factory::{Plugin, PluginContext, spec_wrap_div, wrap_in_div};

verus! {

/// A plugin that wraps the document body in a `<div class="markdown-body">`.
/// (Applied as a post-render hook.)
pub struct WrapDiv {
    pub class: String,
}

impl Plugin for WrapDiv {
    open spec fn obeys_plugin_spec(&self) -> bool {
        true
    }

    open spec fn spec_name(&self) -> Seq<char> {
        "wrap-div"@
    }

    open spec fn spec_post_render(&self, html: Seq<char>, d: SpecDocument, ctx: PluginContext) -> Seq<char> {
        spec_wrap_div(self.class@, html)
    }

    fn transform_ast(&self, doc: &mut Document, ctx: &PluginContext) {
    }

    fn pre_render(&self, renderer: &mut AstToHtml, doc: &Document, ctx: &PluginContext) {
    }

    fn name(&self) -> (r: &str)
        ensures
            r@ == "wrap-div"@,
    {
        "wrap-div"
    }

    fn post_render(&self, html: &mut String, doc: &Document, ctx: &PluginContext)
        ensures
            final(html)@ == spec_wrap_div(self.class@, old(html)@),
    {
        wrap_in_div(&self.class, html);
    }
}

} // verus!
