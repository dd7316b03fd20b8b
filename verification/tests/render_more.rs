use peisar::config::RenderOptions;
use peisar::html::{self, AstToHtml};
use peisar::parser::parse;

fn frag(md: &str) -> String {
    html::render_document(&parse(md), Some(true))
}

#[test]
fn renders_lists_and_tasks() {
    assert_eq!(frag("1. a\n2. b"), "<ol>\n<li>a</li>\n<li>b</li>\n</ol>\n");
    assert_eq!(
        frag("- [x] done"),
        "<ul>\n<li><input type=\"checkbox\" checked disabled /> done</li>\n</ul>\n"
    );
}

#[test]
fn renders_links_images_and_code() {
    assert_eq!(
        frag("[t](u \"T\") ![a](i.png)"),
        "<p><a href=\"u\" title=\"T\">t</a> <img src=\"i.png\" alt=\"a\" /></p>\n"
    );
    assert_eq!(
        frag("```rust\nlet x = 1 < 2;\n```"),
        "<pre><code class=\"language-rust\">let x = 1 &lt; 2;</code></pre>\n"
    );
}

#[test]
fn renders_breaks_and_rules() {
    assert_eq!(frag("a\nb"), "<p>a\nb</p>\n");
    assert_eq!(frag("a  \nb"), "<p>a<br />\nb</p>\n");
    assert_eq!(frag("---"), "<hr />\n");
}

#[test]
fn renderer_by_hand() {
    let doc = parse("# T");
    let mut r = AstToHtml::with_options(RenderOptions::from(true));
    r.visit_document(&doc);
    assert_eq!(r.finish(), "<h1>T</h1>\n");
    let mut r = AstToHtml::new();
    r.visit_document(&doc);
    r.visit_document(&doc);
    assert_eq!(r.finish(), "<h1>T</h1>\n<h1>T</h1>\n");
    assert_eq!(AstToHtml::default().finish(), "");
}

#[test]
fn render_options_from_bool() {
    let o = RenderOptions::from(false);
    assert!(!o.fragment && o.charset && o.viewport);
    assert!(o.title.is_none() && o.body_class.is_none() && o.style.is_none());
    assert_eq!(o, RenderOptions { fragment: false, ..RenderOptions::default() });
}

#[test]
fn full_document_head_options() {
    let doc = parse("x");
    let opts = RenderOptions {
        fragment: false,
        charset: false,
        viewport: false,
        title: None,
        body_class: Some("c".to_string()),
        style: None,
    };
    let h = html::render_document_with(
        &doc,
        &opts,
        &peisar::plugin_factory::PluginPipeline::new(),
        &peisar::plugin_factory::PluginContext::new(peisar::config::ParseOptions::default()),
    );
    assert_eq!(
        h,
        "<!DOCTYPE html>\n<html>\n<head>\n</head>\n<body class=\"c\">\n<p>x</p>\n</body>\n</html>\n"
    );
}
