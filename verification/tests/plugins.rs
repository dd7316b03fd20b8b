use peisar::ast::{Block, Document};
use peisar::config::{ParseOptions, RenderOptions};
use peisar::html::{self, AstToHtml};
use peisar::parser::parse;
use peisar::plugin_factory::{HeadingClass, Plugin, PluginContext, PluginPipeline};
use peisar::plugins::WrapDiv;

struct AddClass;

impl Plugin for AddClass {
    fn name(&self) -> &str {
        "add-class"
    }
    fn transform_ast(&self, doc: &mut Document, _ctx: &PluginContext) {
        for block in &mut doc.children {
            if let Block::Heading { attrs, .. } = block {
                let mut a = attrs.take().unwrap_or_default();
                a.classes.push("anchor".into());
                *attrs = Some(a);
            }
        }
    }
    fn pre_render(&self, _renderer: &mut AstToHtml, _doc: &Document, _ctx: &PluginContext) {}
    fn post_render(&self, _html: &mut String, _doc: &Document, _ctx: &PluginContext) {}
}

#[test]
fn plugin_heading_class() {
    let doc = parse("# Hi\n\nText");
    let ctx = PluginContext::new(ParseOptions::default());
    let mut pipeline = PluginPipeline::new();
    pipeline.add(AddClass);

    let h = html::render_document_with(&doc, &RenderOptions::default(), &pipeline, &ctx);
    assert!(h.contains(r#"class="anchor""#), "got: {h}");
}

#[test]
fn plugin_wrap_div() {
    let doc = parse("# Hi");
    let ctx = PluginContext::new(ParseOptions::default());
    let mut pipeline = PluginPipeline::new();
    pipeline.add(WrapDiv {
        class: "wrapper".to_string(),
    });

    let h = html::render_document_with(&doc, &RenderOptions::default(), &pipeline, &ctx);
    assert!(h.contains(r#"<div class="wrapper">"#));
    assert!(h.contains("</div>"));
}

#[test]
fn plugin_pipeline_names() {
    let mut pipeline = PluginPipeline::new();
    pipeline.add(WrapDiv {
        class: "x".to_string(),
    });
    let names: Vec<&str> = pipeline.plugin_names();
    assert_eq!(names, vec!["wrap-div"]);
}

#[test]
fn empty_pipeline_renders_like_render_document() {
    let doc = parse("# Hi\n\nsome *text*");
    let ctx = PluginContext::new(ParseOptions::default());
    let h = html::render_document_with(&doc, &RenderOptions::default(), &PluginPipeline::new(), &ctx);
    assert_eq!(h, html::render_document(&doc, None));
    assert_eq!(h, "<h1>Hi</h1>\n<p>some <em>text</em></p>\n");
}

#[test]
fn empty_pipeline_has_no_names() {
    assert!(PluginPipeline::new().plugin_names().is_empty());
    assert!(PluginPipeline::default().plugin_names().is_empty());
}

#[test]
fn heading_class_plugin_adds_class() {
    let doc = parse("# A\n\npara\n\n## B\n{:.x}");
    let ctx = PluginContext::new(ParseOptions::default());
    let mut pipeline = PluginPipeline::new();
    pipeline.add(HeadingClass {
        class: "anchor".to_string(),
    });
    let h = html::render_document_with(&doc, &RenderOptions::default(), &pipeline, &ctx);
    assert_eq!(
        h,
        "<h1 class=\"anchor\">A</h1>\n<p>para</p>\n<h2 class=\"x anchor\">B</h2>\n"
    );
}

#[test]
fn wrap_div_output_exact() {
    let doc = parse("# Hi");
    let ctx = PluginContext::new(ParseOptions::default());
    let mut pipeline = PluginPipeline::new();
    pipeline.add(WrapDiv {
        class: "w".to_string(),
    });
    let h = html::render_document_with(&doc, &RenderOptions::default(), &pipeline, &ctx);
    assert_eq!(h, "<div class=\"w\">\n<h1>Hi</h1>\n</div>\n");
}

#[test]
fn pipeline_runs_plugins_in_order() {
    let doc = parse("# Hi");
    let ctx = PluginContext::new(ParseOptions::default());
    let mut pipeline = PluginPipeline::new();
    pipeline.add(WrapDiv {
        class: "inner".to_string(),
    });
    pipeline.add(WrapDiv {
        class: "outer".to_string(),
    });
    let h = pipeline.run(doc, &ctx, &RenderOptions::default());
    assert_eq!(
        h,
        "<div class=\"outer\">\n<div class=\"inner\">\n<h1>Hi</h1>\n</div>\n</div>\n"
    );
    assert_eq!(pipeline.plugin_names(), vec!["wrap-div", "wrap-div"]);
}

#[test]
fn heading_class_reaches_nested_headings() {
    let doc = parse("> # Q\n\n- ## L");
    let ctx = PluginContext::new(ParseOptions::default());
    let mut pipeline = PluginPipeline::new();
    pipeline.add(HeadingClass {
        class: "anchor".to_string(),
    });
    let h = html::render_document_with(&doc, &RenderOptions::default(), &pipeline, &ctx);
    assert_eq!(
        h,
        "<blockquote>\n<h1 class=\"anchor\">Q</h1>\n</blockquote>\n<ul>\n<li><h2 class=\"anchor\">L</h2>\n</li>\n</ul>\n"
    );
}

#[test]
fn add_chains_and_run_transforms_once() {
    let ctx = PluginContext::new(ParseOptions::default());
    let mut pipeline = PluginPipeline::new();
    pipeline
        .add(HeadingClass {
            class: "x".to_string(),
        })
        .add(WrapDiv {
            class: "w".to_string(),
        });
    assert_eq!(pipeline.plugin_names(), vec!["heading-class", "wrap-div"]);
    let h = pipeline.run(parse("# Hi"), &ctx, &RenderOptions::default());
    assert_eq!(h, "<div class=\"w\">\n<h1 class=\"x\">Hi</h1>\n</div>\n");
    assert!(!h.contains("class=\"x x\""));
}
