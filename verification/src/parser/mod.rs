//! Markdown parser — produces the AST defined in [`crate::ast`].
//!
//! | Module      | Responsibility                                         |
//! |-------------|--------------------------------------------------------|
//! | [`block`]   | Block-level parsing (headings, code, lists, tables …)  |
//! | [`inline`]  | Inline-level parsing (emphasis, links, code, strikethrough …) |
//! | [`kramdown`]| Kramdown `{:#id .class key="val"}` attribute parsing   |
//! | [`gfm`]     | GFM-specific helpers (tables, task lists, autolinks)    |

pub mod block;
pub mod gfm;
pub mod inline;
pub mod kramdown;

use vstd::prelude::*;
use crate::ast::Document;
use crate::ast::nodes::{SpecDocument, view_document};
use crate::ast::span::{Position, Span};
use crate::config::ParseOptions;
use crate::parser::block::{spec_lines, doc_end, spec_parse_blocks, split_lines, parse_blocks, view_lines, plain_trees, lemma_parse_blocks_plain};
use crate::text::str_chars;

verus! {

/// The document that [`parse_with`] returns: the blocks of the lines of the
/// input, spanning from the start of the input to the position after its
/// last line.
pub open spec fn spec_parse_document(input: Seq<char>, o: ParseOptions) -> SpecDocument {
    SpecDocument {
        children: spec_parse_blocks(spec_lines(input), doc_end(input), o),
        position: Span { start: Position::origin(), end: doc_end(input) },
    }
}

/// With Kramdown disabled no block of the document, at any depth, carries
/// attributes; with GFM disabled none of them is a table, no list item is
/// a task, and no heading or paragraph holds strikethrough or a bare-URL
/// autolink (an autolink there is one written in angle brackets).
pub proof fn lemma_extensions_off(input: Seq<char>, o: ParseOptions)
    ensures
        plain_trees(spec_parse_document(input, o).children, o),
{
    lemma_parse_blocks_plain(spec_lines(input), doc_end(input), o);
}

/// Parse a Markdown string into a [`Document`] using default options.
pub fn parse(input: &str) -> (d: Document)
    ensures
        view_document(d) == spec_parse_document(input@, ParseOptions::spec_default()),
        d.node_type@ == "root"@,
{
    parse_with(input, &ParseOptions { gfm: true, kramdown: true })
}

/// Parse a Markdown string into a [`Document`] with the given options.
///
/// Options control which extensions (GFM, Kramdown) are active.
pub fn parse_with(input: &str, opts: &ParseOptions) -> (d: Document)
    ensures
        view_document(d) == spec_parse_document(input@, *opts),
        d.node_type@ == "root"@,
{
    let chars = str_chars(input);
    let lines = split_lines(&chars);
    let n = lines.len();
    let end = Position { line: if n < usize::MAX { n + 1 } else { n }, column: 1, offset: chars.len() };
    let start = Position { line: 1, column: 1, offset: 0 };
    let blocks = parse_blocks(&lines, end, *opts);
    Document { node_type: "root", children: blocks, position: Span::new(start, end) }
}

} // verus!
