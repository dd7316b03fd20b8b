use peisar::ast::{Block, Inline, TableCellAlignment, TaskState};
use peisar::parser::gfm::{
    build_table, has_task_marker, is_table_delimiter, is_table_start, match_autolink,
    match_strikethrough, parse_delimiter_alignments, parse_task_marker, split_table_row,
};
use peisar::parser::inline::InlineCtx;

fn chars(s: &str) -> Vec<char> {
    s.chars().collect()
}

#[test]
fn task_marker_offsets() {
    assert_eq!(parse_task_marker("- [x] done"), Some((TaskState::Checked, 5)));
    assert_eq!(parse_task_marker("* [X] done"), Some((TaskState::Checked, 5)));
    assert_eq!(parse_task_marker("+   [ ] todo"), Some((TaskState::Unchecked, 7)));
    assert_eq!(parse_task_marker("  12. [ ] a"), Some((TaskState::Unchecked, 7)));
    assert_eq!(parse_task_marker("3) [x]"), Some((TaskState::Checked, 6)));
    // the offset counts bytes: U+3000 is three bytes, U+00A0 two
    assert_eq!(parse_task_marker("-\u{3000}[ ] x"), Some((TaskState::Unchecked, 7)));
    assert_eq!(parse_task_marker("- \u{a0}[x]"), Some((TaskState::Checked, 7)));
}

#[test]
fn task_marker_rejections() {
    assert_eq!(parse_task_marker("- plain item"), None);
    assert_eq!(parse_task_marker("- [y] no"), None);
    assert_eq!(parse_task_marker("text [x]"), None);
    assert_eq!(parse_task_marker(""), None);
    assert_eq!(parse_task_marker("1a [ ] x"), None);
    assert_eq!(parse_task_marker("1"), None);
    assert_eq!(parse_task_marker("12"), None);
    assert_eq!(parse_task_marker("1é [x]"), None);
    assert!(!has_task_marker("7"));
    assert!(has_task_marker("- [ ] x"));
    assert!(!has_task_marker("- [] x"));
}

#[test]
fn autolink_protocols_and_www() {
    let c = chars("see https://a.com/x, then");
    assert_eq!(match_autolink(&c, 4), Some(("https://a.com/x".to_string(), 19)));
    let c = chars("http://b.org.");
    assert_eq!(match_autolink(&c, 0), Some(("http://b.org".to_string(), 12)));
    let c = chars("www.c.net<tag>");
    assert_eq!(match_autolink(&c, 0), Some(("https://www.c.net".to_string(), 9)));
    let c = chars("ftp://d.io");
    assert_eq!(match_autolink(&c, 0), None);
    let c = chars("https://e.io/a.b?q=1 x");
    assert_eq!(match_autolink(&c, 0), Some(("https://e.io/a.b?q=1".to_string(), 20)));
}

#[test]
fn strikethrough_matching() {
    let ctx = InlineCtx { gfm: true };
    let c = chars("a ~~b *c*~~ d");
    match match_strikethrough(&c, 2, &ctx) {
        Some((Inline::Strikethrough { children, .. }, end)) => {
            assert_eq!(end, 11);
            assert_eq!(children.len(), 2);
            assert!(matches!(&children[0], Inline::Text { value, .. } if value == "b "));
            assert!(matches!(&children[1], Inline::Emphasis { .. }));
        }
        other => panic!("expected strikethrough, got {other:?}"),
    }
    assert!(match_strikethrough(&chars("~~open"), 0, &ctx).is_none());
    assert!(match_strikethrough(&chars("~x~"), 0, &ctx).is_none());
    assert!(match_strikethrough(&chars("a"), 0, &ctx).is_none());
}

#[test]
fn table_delimiter_rows() {
    assert!(is_table_delimiter("|---|:--:|"));
    assert!(is_table_delimiter(" --- | --- "));
    assert!(!is_table_delimiter(""));
    assert!(!is_table_delimiter("|:|"));
    assert!(!is_table_delimiter("| a | b |"));
    assert!(!is_table_delimiter("|---||"));
    assert!(is_table_start(&["| a | b |", "|---|---|"], 0));
    assert!(!is_table_start(&["a b", "|---|---|"], 0));
    assert!(!is_table_start(&["| a | b |"], 0));
}

#[test]
fn delimiter_alignments() {
    assert_eq!(
        parse_delimiter_alignments("| :--- | :-: | --: | --- |"),
        vec![
            TableCellAlignment::Left,
            TableCellAlignment::Center,
            TableCellAlignment::Right,
            TableCellAlignment::Default
        ]
    );
}

#[test]
fn split_rows_trims_cells() {
    assert_eq!(split_table_row("| a |  b c |"), vec!["a", "b c"]);
    assert_eq!(split_table_row("x|y"), vec!["x", "y"]);
    assert_eq!(split_table_row("| a | |"), vec!["a", ""]);
}

#[test]
fn build_table_rows_and_cells() {
    let aligns = parse_delimiter_alignments("|---|:-:|");
    match build_table("| A | *B* |", "|---|:-:|", aligns, &["| 1 | 2 |", "| 3 |"]) {
        Block::Table { table, attrs, .. } => {
            assert!(attrs.is_none());
            assert_eq!(table.header.cells.len(), 2);
            assert!(matches!(&table.header.cells[1].children[0], Inline::Emphasis { .. }));
            assert_eq!(table.rows.len(), 2);
            assert_eq!(table.rows[1].cells.len(), 1);
            assert_eq!(table.alignments, vec![TableCellAlignment::Default, TableCellAlignment::Center]);
        }
        other => panic!("expected table, got {other:?}"),
    }
}
