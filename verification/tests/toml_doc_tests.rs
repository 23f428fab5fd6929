use ie_r::toml_doc::{
    merge_config_document, update_toml_item, TomlDecor, TomlDocument, TomlInline, TomlItem, TomlKey,
    TomlTable, TomlValue,
};

fn decor(prefix: Option<&str>, suffix: Option<&str>) -> TomlDecor {
    TomlDecor { prefix: prefix.map(String::from), suffix: suffix.map(String::from) }
}

fn key(name: &str) -> TomlKey {
    TomlKey { name: name.to_string(), repr: None, leaf_decor: decor(None, None), dotted_decor: decor(None, None) }
}

fn commented_key(name: &str, comment: &str) -> TomlKey {
    TomlKey {
        name: name.to_string(),
        repr: Some(name.to_string()),
        leaf_decor: decor(Some(comment), Some(" ")),
        dotted_decor: decor(None, None),
    }
}

fn scalar(repr: &str, d: TomlDecor) -> TomlValue {
    TomlValue::Scalar { repr: repr.to_string(), rounded: None, decor: d }
}

fn float(repr: &str, rounded: &str) -> TomlValue {
    TomlValue::Scalar { repr: repr.to_string(), rounded: Some(rounded.to_string()), decor: decor(None, None) }
}

fn table(entries: Vec<(TomlKey, TomlItem)>, implicit: bool) -> TomlTable {
    TomlTable { entries, decor: decor(Some("\n# section\n"), None), implicit, dotted: false, position: Some(1) }
}

fn doc(entries: Vec<(TomlKey, TomlItem)>) -> TomlDocument {
    TomlDocument {
        root: TomlTable { entries, decor: decor(None, None), implicit: false, dotted: false, position: Some(0) },
        trailing: "\n# end\n".to_string(),
    }
}

fn scalar_of(it: &TomlItem) -> (&str, &TomlDecor) {
    match it {
        TomlItem::Value(TomlValue::Scalar { repr, decor, .. }) => (repr.as_str(), decor),
        _ => panic!("not a scalar"),
    }
}

fn table_of(it: &TomlItem) -> &TomlTable {
    match it {
        TomlItem::Table(t) => t,
        _ => panic!("not a table"),
    }
}

#[test]
fn value_replaced_keeps_comment_and_key() {
    let mut target = TomlItem::Table(table(
        vec![(commented_key("size", "# font size\n"), TomlItem::Value(scalar("12", decor(Some(" "), Some(" # pt")))))],
        false,
    ));
    let source = TomlItem::Table(table(vec![(key("size"), TomlItem::Value(scalar("14", decor(Some(" "), None))))], false));
    update_toml_item(&mut target, source);
    let t = table_of(&target);
    assert_eq!(t.entries.len(), 1);
    assert_eq!(t.entries[0].0.leaf_decor.prefix.as_deref(), Some("# font size\n"));
    let (repr, d) = scalar_of(&t.entries[0].1);
    assert_eq!(repr, "14");
    assert_eq!(d.suffix.as_deref(), Some(" # pt"));
    assert_eq!(t.decor.prefix.as_deref(), Some("\n# section\n"));
}

#[test]
fn float_written_over_value_is_rounded() {
    let mut target = TomlItem::Value(scalar("1.5", decor(Some(" "), None)));
    update_toml_item(&mut target, TomlItem::Value(float("1.2000000476837158", "1.2")));
    assert_eq!(scalar_of(&target).0, "1.2");
}

#[test]
fn new_key_is_appended_unrounded() {
    let mut target = TomlItem::Table(table(vec![(key("a"), TomlItem::Value(scalar("1", decor(None, None))))], false));
    let source = TomlItem::Table(table(
        vec![(key("a"), TomlItem::Value(scalar("2", decor(None, None)))), (key("b"), TomlItem::Value(float("0.30000001192092896", "0.3")))],
        false,
    ));
    update_toml_item(&mut target, source);
    let t = table_of(&target);
    assert_eq!(t.entries.len(), 2);
    assert_eq!(t.entries[0].0.name, "a");
    assert_eq!(scalar_of(&t.entries[0].1).0, "2");
    assert_eq!(t.entries[1].0.name, "b");
    assert_eq!(scalar_of(&t.entries[1].1).0, "0.30000001192092896");
}

#[test]
fn array_written_one_item_per_line() {
    let mut target = TomlItem::Value(scalar("[]", decor(Some(" "), Some(" # colours"))));
    let items = vec![scalar("\"#112233\"", decor(None, None)), scalar("\"#445566\"", decor(Some(" "), None))];
    let source = TomlItem::Value(TomlValue::Array { items, trailing: String::new(), trailing_comma: false, decor: decor(None, None) });
    update_toml_item(&mut target, source);
    match &target {
        TomlItem::Value(TomlValue::Array { items, trailing, trailing_comma, decor }) => {
            assert_eq!(items.len(), 2);
            for i in items {
                match i {
                    TomlValue::Scalar { decor, .. } => assert_eq!(decor.prefix.as_deref(), Some("\n    ")),
                    _ => panic!("not a scalar"),
                }
            }
            assert_eq!(trailing, "\n");
            assert!(*trailing_comma);
            assert_eq!(decor.suffix.as_deref(), Some(" # colours"));
        }
        _ => panic!("not an array"),
    }
}

#[test]
fn inline_table_takes_inline_entries_with_fresh_keys() {
    let inline = |entries: Vec<(TomlKey, TomlValue)>| {
        TomlItem::Value(TomlValue::Inline(TomlInline {
            entries,
            preamble: " ".to_string(),
            dotted: false,
            decor: decor(Some(" "), None),
        }))
    };
    let mut target = inline(vec![(commented_key("x", ""), scalar("1", decor(None, None)))]);
    let source = inline(vec![(key("y"), scalar("3", decor(None, None))), (key("x"), scalar("2", decor(None, None)))]);
    update_toml_item(&mut target, source);
    match &target {
        TomlItem::Value(TomlValue::Inline(t)) => {
            assert_eq!(t.entries.len(), 2);
            assert_eq!(t.entries[0].0.name, "x");
            assert_eq!(t.entries[0].0.repr, None);
            assert_eq!(t.entries[1].0.name, "y");
        }
        _ => panic!("not an inline table"),
    }
}

#[test]
fn table_over_value_replaces_it() {
    let mut target = TomlItem::Value(scalar("1", decor(None, None)));
    update_toml_item(&mut target, TomlItem::Table(table(vec![], false)));
    assert!(matches!(target, TomlItem::Table(_)));
}

#[test]
fn save_merges_into_existing_document() {
    let existing = doc(vec![
        (commented_key("hud", "# HUD\n"), TomlItem::Table(table(vec![(key("show"), TomlItem::Value(scalar("true", decor(Some(" "), None))))], false))),
        (key("custom"), TomlItem::Value(scalar("\"mine\"", decor(Some(" "), Some(" # keep"))))),
    ]);
    let serialized = doc(vec![
        (key("hud"), TomlItem::Table(table(vec![(key("show"), TomlItem::Value(scalar("false", decor(None, None))))], false))),
        (key("font"), TomlItem::Table(table(vec![(key("size"), TomlItem::Value(scalar("14", decor(None, None))))], false))),
    ]);
    let r = merge_config_document(Some(existing), None, serialized);
    assert_eq!(r.trailing, "\n# end\n");
    let e = &r.root.entries;
    assert_eq!(e.len(), 3);
    assert_eq!(e[0].0.leaf_decor.prefix.as_deref(), Some("# HUD\n"));
    assert_eq!(scalar_of(&table_of(&e[0].1).entries[0].1).0, "false");
    assert_eq!(e[1].0.name, "custom");
    assert_eq!(scalar_of(&e[1].1).1.suffix.as_deref(), Some(" # keep"));
    assert_eq!(e[2].0.name, "font");
    assert!(table_of(&e[2].1).implicit);
}

#[test]
fn save_falls_back_to_template_then_empty() {
    let template = doc(vec![(key("a"), TomlItem::Value(scalar("1", decor(None, None))))]);
    let serialized = doc(vec![(key("b"), TomlItem::Value(scalar("2", decor(None, None))))]);
    let r = merge_config_document(None, Some(template), serialized);
    assert_eq!(r.root.entries.len(), 2);
    assert_eq!(r.trailing, "\n# end\n");
    let serialized = doc(vec![(key("b"), TomlItem::Value(scalar("2", decor(None, None))))]);
    let r = merge_config_document(None, None, serialized);
    assert_eq!(r.root.entries.len(), 1);
    assert_eq!(r.trailing, "");
    assert_eq!(r.root.position, Some(0));
}
