use peisar::parser::kramdown::parse_kramdown_attrs;

#[test]
fn parse_id_and_classes_colon() {
    let (attrs, _) = parse_kramdown_attrs(r#"{:#my-id .big .red}"#).unwrap();
    assert_eq!(attrs.id.as_deref(), Some("my-id"));
    assert_eq!(attrs.classes, vec!["big", "red"]);
}

#[test]
fn parse_id_and_classes_no_colon() {
    let (attrs, _) = parse_kramdown_attrs(r#"{#my-id .big .red}"#).unwrap();
    assert_eq!(attrs.id.as_deref(), Some("my-id"));
    assert_eq!(attrs.classes, vec!["big", "red"]);
}

#[test]
fn parse_key_value() {
    let (attrs, _) = parse_kramdown_attrs(r#"{:data-toggle="modal"}"#).unwrap();
    assert_eq!(
        attrs.attributes,
        vec![("data-toggle".into(), "modal".into())]
    );
}

#[test]
fn parse_mixed() {
    let (attrs, _) = parse_kramdown_attrs(r#"{:#hdr .cls key="val" flag}"#).unwrap();
    assert_eq!(attrs.id.as_deref(), Some("hdr"));
    assert_eq!(attrs.classes, vec!["cls"]);
    assert_eq!(
        attrs.attributes,
        vec![("key".into(), "val".into()), ("flag".into(), "".into()),]
    );
}

#[test]
fn kramdown_consumed_count_and_rejections() {
    let (_, n) = parse_kramdown_attrs("  {#a} tail").unwrap();
    assert_eq!(n, 4);
    assert!(parse_kramdown_attrs("no brace").is_none());
    assert!(parse_kramdown_attrs("{#unclosed").is_none());
    let (attrs, n) = parse_kramdown_attrs(r#"{title="a } b" .c}"#).unwrap();
    assert_eq!(n, 18);
    assert_eq!(attrs.attributes, vec![("title".into(), "a } b".into())]);
    assert_eq!(attrs.classes, vec!["c"]);
}

#[test]
fn kramdown_unquoted_value_and_outer_braces() {
    let (attrs, n) = parse_kramdown_attrs("{a=1 {b} c}").unwrap();
    assert_eq!(n, 11);
    assert_eq!(
        attrs.attributes,
        vec![("a".into(), "1".into()), ("b".into(), "".into()), ("c".into(), "".into())]
    );
}

#[test]
fn kramdown_colon_is_optional() {
    for x in ["#id .a k=\"v\"}", ":.b}", " x='y z' }", "unclosed", "}"] {
        let with = parse_kramdown_attrs(&format!("{{:{}", x));
        let without = parse_kramdown_attrs(&format!("{{{}", x));
        match (with, without) {
            (Some((a, n)), Some((b, m))) => {
                assert_eq!(a, b);
                assert_eq!(n, m + 1);
            }
            (None, None) => {}
            _ => panic!("colon changed acceptance for {x:?}"),
        }
    }
}
