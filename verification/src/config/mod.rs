//! Configuration options for parsing and rendering.
//!
//! Use [`ParseOptions`] to control which Markdown extensions are active,
//! and [`RenderOptions`] to control HTML output format (full document vs.
//! fragment).

use vstd::prelude::*;

verus! {

/// Options that control how Markdown is parsed.
#[derive(Debug, Clone, Copy, PartialEq, Eq, Structural)]
pub struct ParseOptions {
    /// Enable GitHub Flavored Markdown (tables, strikethrough, task lists,
    /// autolinks).  Default: `true`.
    pub gfm: bool,
    /// Enable Kramdown-style block attributes (`{:#id .class key="val"}`).
    /// Default: `true`.
    pub kramdown: bool,
}

impl ParseOptions {
    pub open spec fn spec_default() -> ParseOptions {
        ParseOptions { gfm: true, kramdown: true }
    }
}

impl Default for ParseOptions {
    fn default() -> (o: Self)
        ensures
            o == ParseOptions::spec_default(),
    {
        ParseOptions { gfm: true, kramdown: true }
    }
}

/// Options that control how the AST is rendered to HTML.
#[derive(Debug, Clone, PartialEq, Eq)]
pub struct RenderOptions {
    /// If `true`, emit only the body content (no `<!DOCTYPE>`, `<html>`,
    /// `<head>`, or `<body>` wrapper).  If `false`, emit a full HTML
    /// document.  Default: `true` (fragment).
    pub fragment: bool,
    /// Include a `<meta charset="utf-8">` in the head (only relevant when
    /// `fragment` is `false`).  Default: `true`.
    pub charset: bool,
    /// Include a `<meta name="viewport" content="width=device-width,
    /// initial-scale=1.0">` in the head (only relevant when `fragment` is
    /// `false`).  Default: `true`.
    pub viewport: bool,
    /// Optional `<title>` for the HTML head (only relevant when
    /// `fragment` is `false`).  Default: `None`.
    pub title: Option<String>,
    /// Optional additional CSS classes to add to `<body>` (only relevant
    /// when `fragment` is `false`).  Default: `None`.
    pub body_class: Option<String>,
    /// Optional inline CSS to inject in a `<style>` tag in the head.
    /// Default: `None`.
    pub style: Option<String>,
}

impl RenderOptions {
    /// The default options with the given `fragment` flag.
    pub open spec fn with_fragment(fragment: bool) -> RenderOptions {
        RenderOptions {
            fragment,
            charset: true,
            viewport: true,
            title: None,
            body_class: None,
            style: None,
        }
    }

    /// A copy of the options.
    pub fn copy(&self) -> (r: RenderOptions)
        ensures
            r == *self,
    {
        RenderOptions {
            fragment: self.fragment,
            charset: self.charset,
            viewport: self.viewport,
            title: match &self.title {
                Some(t) => Some(t.clone()),
                None => None,
            },
            body_class: match &self.body_class {
                Some(t) => Some(t.clone()),
                None => None,
            },
            style: match &self.style {
                Some(t) => Some(t.clone()),
                None => None,
            },
        }
    }
}

impl Default for RenderOptions {
    fn default() -> (o: Self)
        ensures
            o == RenderOptions::with_fragment(true),
    {
        RenderOptions {
            fragment: true,
            charset: true,
            viewport: true,
            title: None,
            body_class: None,
            style: None,
        }
    }
}

/// Convenience: the default options with the given `fragment` flag
/// (backward-compatible with the old `render_document(doc, Some(bool))`
/// API).
impl From<bool> for RenderOptions {
    fn from(fragment: bool) -> (o: Self) {
        RenderOptions {
            fragment,
            charset: true,
            viewport: true,
            title: None,
            body_class: None,
            style: None,
        }
    }
}

impl vstd::std_specs::convert::FromSpecImpl<bool> for RenderOptions {
    open spec fn obeys_from_spec() -> bool {
        true
    }

    open spec fn from_spec(fragment: bool) -> RenderOptions {
        RenderOptions::with_fragment(fragment)
    }
}

} // verus!
