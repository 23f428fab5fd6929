use ie_r::toml_doc::{TomlItem, TomlValue};
use ie_r::toml_text::{parse_document, save_config_text};

#[test]
fn parse_reads_entries_and_comments() {
    let d = parse_document("# top\nsize = 12 # pt\n[hud]\nshow = true\n").unwrap();
    assert_eq!(d.root.entries.len(), 2);
    assert_eq!(d.root.entries[0].0.name, "size");
    match &d.root.entries[0].1 {
        TomlItem::Value(TomlValue::Scalar { repr, decor, rounded }) => {
            assert_eq!(repr, "12");
            assert_eq!(decor.suffix.as_deref(), Some(" # pt"));
            assert!(rounded.is_none());
        }
        _ => panic!("not a scalar"),
    }
    assert!(matches!(d.root.entries[1].1, TomlItem::Table(_)));
    assert!(parse_document("not = = toml").is_none());
}

#[test]
fn save_keeps_comments_of_replaced_value() {
    let serialized = parse_document("a = 2\n").unwrap();
    let (text, broken) = save_config_text("a = 1 # one\n", "", serialized);
    assert!(!broken);
    assert_eq!(text, "a = 2 # one\n");
}

#[test]
fn save_keeps_user_keys_and_adds_new_tables() {
    let existing = "# Settings\n[hud]\n# show the HUD\nshow = true\nmine = \"kept\"\n";
    let serialized = parse_document("[hud]\nshow = false\n\n[font]\nsize = 14\n").unwrap();
    let (text, broken) = save_config_text(existing, "", serialized);
    assert!(!broken);
    assert!(text.starts_with("# Settings\n[hud]\n# show the HUD\nshow = false\nmine = \"kept\"\n"));
    assert!(text.contains("[font]\nsize = 14\n"));
}

#[test]
fn save_into_broken_file_uses_template() {
    let serialized = parse_document("x = 5\n").unwrap();
    let (text, broken) = save_config_text("not = = toml", "# template\nx = 1\n", serialized);
    assert!(broken);
    assert_eq!(text, "# template\nx = 5\n");
}

#[test]
fn save_writes_rounded_float_over_value() {
    let mut serialized = parse_document("scale = 1.2000000476837158\nnew = 0.30000001192092896\n").unwrap();
    for (_, item) in serialized.root.entries.iter_mut() {
        if let TomlItem::Value(TomlValue::Scalar { rounded, repr, .. }) = item {
            *rounded = Some(if repr.starts_with("1.2") { "1.2".to_string() } else { "0.3".to_string() });
        }
    }
    let (text, _) = save_config_text("scale = 1.5 # zoom\n", "", serialized);
    assert_eq!(text, "scale = 1.2 # zoom\nnew = 0.30000001192092896\n");
}

#[test]
fn save_merges_nested_tables_key_by_key() {
    let existing = "[a]\nx = 1\n\n[a.b]\n# note\ny = 2 # keep\nz = 3\n";
    let serialized = parse_document("[a]\nx = 5\n\n[a.b]\nz = 4\nw = 1\n").unwrap();
    let (text, broken) = save_config_text(existing, "", serialized);
    assert!(!broken);
    assert_eq!(text, "[a]\nx = 5\n\n[a.b]\n# note\ny = 2 # keep\nz = 4\nw = 1\n");
}
