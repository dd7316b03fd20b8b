use peisar::config::{ParseOptions, RenderOptions};
use peisar::html;
use peisar::parser::parse;
use peisar::plugin_factory::{PluginContext, PluginPipeline};

fn html_of(md: &str, fragment: bool) -> String {
    let doc = parse(md);
    html::render_document(&doc, Some(fragment))
}

#[test]
fn gfm_strikethrough_renders_del() {
    let h = html_of("~~text~~", true);
    assert!(h.contains("<del>text</del>"));
}

#[test]
fn gfm_table_renders_html() {
    let h = html_of("| A | B |\n|---|---|\n| 1 | 2 |\n", true);
    assert!(h.contains("<table>"));
    assert!(h.contains("<thead>"));
    assert!(h.contains("<tbody>"));
    assert!(h.contains("<th>A</th>"));
    assert!(h.contains("<td>1</td>"));
}

#[test]
fn gfm_task_list_renders_checkbox() {
    let h = html_of("- [x] done\n- [ ] todo\n", true);
    assert!(h.contains(r#"type="checkbox" checked"#));
    assert!(h.contains(r#"type="checkbox" disabled"#));
}

#[test]
fn kramdown_renders_html_attrs() {
    let h = html_of("# Title\n{:#hdr .big .red data-x=\"y\"}", true);
    assert!(h.contains(r#"id="hdr""#), "got: {h}");
    assert!(h.contains(r#"class="big red""#), "got: {h}");
    assert!(h.contains(r#"data-x="y""#), "got: {h}");
}

#[test]
fn renders_full_document() {
    let doc = parse("# Hi");
    let h = html::render_document(&doc, Some(false));
    assert!(h.contains("<!DOCTYPE html>"));
    assert!(h.contains("<html>"));
    assert!(h.contains("<body>"));
    assert!(h.contains("</body>"));
    assert!(h.contains("</html>"));
}

#[test]
fn renders_fragment() {
    let doc = parse("# Hi");
    let h = html::render_document(&doc, Some(true));
    assert!(!h.contains("<!DOCTYPE html>"));
    assert!(!h.contains("<html>"));
    assert!(h.contains("<h1>Hi</h1>"));
}

#[test]
fn render_options_title_and_style() {
    let doc = parse("# Hi");
    let opts = RenderOptions {
        fragment: false,
        charset: true,
        viewport: true,
        title: Some("Test".to_string()),
        body_class: Some("doc".to_string()),
        style: Some("body { color: red; }".to_string()),
    };
    let h = html::render_document_with(
        &doc,
        &opts,
        &PluginPipeline::new(),
        &PluginContext::new(ParseOptions::default()),
    );
    assert!(h.contains("<title>Test</title>"));
    assert!(h.contains("body { color: red; }"));
    assert!(h.contains(r#"class="doc""#));
}

#[test]
fn escapes_html_in_text() {
    let h = html_of("< not a tag & stuff", true);
    assert!(h.contains("&lt; not a tag &amp; stuff"));
}

#[test]
fn renders_code_block_lang_class() {
    let h = html_of("```js\nconst x = 1;\n```", true);
    assert!(h.contains("class=\"language-js\""));
}
