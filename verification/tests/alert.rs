use peisar::config::{ParseOptions, RenderOptions};
use peisar::html;
use peisar::parser::parse;
use peisar::plugin_factory::{PluginContext, PluginPipeline};
use peisar::plugins::alert::AlertKind;
use peisar::plugins::BlockquoteAlert;

#[test]
fn alert_marker_is_trimmed_and_case_blind() {
    assert_eq!(AlertKind::from_marker("[!NOTE]"), Some(AlertKind::Note));
    assert_eq!(AlertKind::from_marker("  [!tip] "), Some(AlertKind::Tip));
    assert_eq!(AlertKind::from_marker("[!Important]"), Some(AlertKind::Important));
    assert_eq!(AlertKind::from_marker("[!WARNING]"), Some(AlertKind::Warning));
    assert_eq!(AlertKind::from_marker("[!caution]"), Some(AlertKind::Caution));
    assert_eq!(AlertKind::from_marker("[!DANGER]"), None);
    assert_eq!(AlertKind::from_marker("NOTE"), None);
    assert_eq!(AlertKind::from_marker(""), None);
}

#[test]
fn alert_labels_and_colors() {
    assert_eq!(AlertKind::Note.label(), "NOTE");
    assert_eq!(AlertKind::Caution.label(), "CAUTION");
    assert_eq!(AlertKind::Note.color(), "#0969da");
    assert_eq!(AlertKind::Tip.color(), "#1a7f37");
    assert_eq!(AlertKind::Important.color(), "#8250df");
    assert_eq!(AlertKind::Warning.color(), "#9a6700");
    assert_eq!(AlertKind::Caution.color(), "#cf222e");
}

#[test]
fn alert_badge_html_exact() {
    assert_eq!(
        AlertKind::Warning.badge_html(),
        "<p style=\"font-family: Arial, Helvetica, sans-serif;background-color: #9a6700;color: white;padding: 4px;text-align: center;border-radius: 5px;font-size: 12px;font-weight: 600;max-width: 100px;\">WARNING</p>"
    );
}

#[test]
fn blockquote_alert_replaces_marker_paragraph() {
    let doc = parse("> [!NOTE]");
    let ctx = PluginContext::new(ParseOptions::default());
    let mut pipeline = PluginPipeline::new();
    pipeline.add(BlockquoteAlert::default());
    let h = html::render_document_with(&doc, &RenderOptions::default(), &pipeline, &ctx);
    assert_eq!(
        h,
        format!("<blockquote>\n<p>{}</p>\n</blockquote>\n", AlertKind::Note.badge_html())
    );
}

#[test]
fn blockquote_alert_leaves_other_quotes() {
    let doc = parse("> just a quote\n\n[!NOTE]");
    let ctx = PluginContext::new(ParseOptions::default());
    let mut pipeline = PluginPipeline::new();
    pipeline.add(BlockquoteAlert::default());
    let h = html::render_document_with(&doc, &RenderOptions::default(), &pipeline, &ctx);
    assert_eq!(h, html::render_document(&doc, None));
}

#[test]
fn blockquote_alert_twice_is_once() {
    let doc = parse("> [!tip]\n\n> [!WARNING]\n> more\n\ntext");
    let ctx = PluginContext::new(ParseOptions::default());
    let mut once = PluginPipeline::new();
    once.add(BlockquoteAlert::default());
    let mut twice = PluginPipeline::new();
    twice.add(BlockquoteAlert::default());
    twice.add(BlockquoteAlert::default());
    let a = html::render_document_with(&doc, &RenderOptions::default(), &once, &ctx);
    let b = html::render_document_with(&doc, &RenderOptions::default(), &twice, &ctx);
    assert_eq!(a, b);
    assert!(a.contains(&AlertKind::Tip.badge_html()));
    assert!(a.contains(&AlertKind::Warning.badge_html()));
}

#[test]
fn blockquote_alert_keeps_text_after_marker() {
    let doc = parse("> [!NOTE]\n> Info\n>\n> more");
    let ctx = PluginContext::new(ParseOptions::default());
    let mut pipeline = PluginPipeline::new();
    pipeline.add(BlockquoteAlert::default());
    let h = html::render_document_with(&doc, &RenderOptions::default(), &pipeline, &ctx);
    assert_eq!(
        h,
        format!(
            "<blockquote>\n<p>{}\nInfo</p>\n<p>more</p>\n</blockquote>\n",
            AlertKind::Note.badge_html()
        )
    );
}
