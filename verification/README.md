# peisar

A Markdown parser with CommonMark, GitHub Flavored Markdown (tables,
strikethrough, task lists, autolinks) and Kramdown block attributes, an
AST visitor, a plugin pipeline and an HTML renderer (full document or
fragment), verified with Verus.

## Layout

- `src/` — the library, verified.
  - `text` — character classes and text operations (trimming, escaping).
  - `ast` — the node types, their mathematical views (`Spec*`) and copies.
  - `parser` — block and inline parsing, GFM helpers, Kramdown attributes.
    `spec_parse_document` states what `parse_with` returns.
  - `html` — the renderer; `spec_render` states the HTML of a document.
  - `visitor` — the `AstNodeVisitor` hooks, the walk, and `NodeCounter`.
  - `plugin_factory`, `plugins` — the plugin pipeline and the built-in
    plugins (`HeadingClass`, `WrapDiv`, `BlockquoteAlert`).
- `tests/` — tests run against the compiled library.
- `app/` — the command-line driver: reads `test.md`, writes the AST as
  JSON and the rendered HTML.
