//! Reading and writing the configuration file's TOML text with `toml_edit`,
//! and saving new settings into that text.

use vstd::prelude::*;
use crate::toml_doc::{
    document_opt_view, merge_config_document, merged_document, save_base, DocumentV, TomlDecor,
    TomlDocument, TomlInline, TomlItem, TomlKey, TomlTable, TomlValue,
};

verus! {

#[verifier::external_type_specification]
#[verifier::external_body]
pub struct ExDocumentMut(toml_edit::DocumentMut);

#[verifier::external_type_specification]
#[verifier::external_body]
pub struct ExTable(toml_edit::Table);

#[verifier::external_type_specification]
#[verifier::external_body]
pub struct ExItem(toml_edit::Item);

#[verifier::external_type_specification]
#[verifier::external_body]
pub struct ExValue(toml_edit::Value);

#[verifier::external_type_specification]
#[verifier::external_body]
pub struct ExInlineTable(toml_edit::InlineTable);

#[verifier::external_type_specification]
#[verifier::external_body]
pub struct ExArray(toml_edit::Array);

#[verifier::external_type_specification]
#[verifier::external_body]
pub struct ExKey(toml_edit::Key);

#[verifier::external_type_specification]
#[verifier::external_body]
pub struct ExDecor(toml_edit::Decor);

/// What `toml_edit` reads from a document's text, as the library's model.
pub uninterp spec fn parsed_document(text: Seq<char>) -> Option<DocumentV>;

/// The text that `toml_edit` prints for a document.
pub uninterp spec fn rendered_document(doc: DocumentV) -> Seq<char>;

// Conversions between `toml_edit`'s document types and the model, one
// field for one field. They promise nothing of their own: only the two
// functions below, which make the outside calls, state what they give.

#[verifier::external_body]
fn decor_model(d: &toml_edit::Decor) -> TomlDecor {
    TomlDecor {
        prefix: d.prefix().and_then(|r| r.as_str()).map(String::from),
        suffix: d.suffix().and_then(|r| r.as_str()).map(String::from),
    }
}

#[verifier::external_body]
fn key_model(k: &toml_edit::Key) -> TomlKey {
    TomlKey {
        name: k.get().to_string(),
        repr: k.as_repr().and_then(|r| r.as_raw().as_str()).map(String::from),
        leaf_decor: decor_model(k.leaf_decor()),
        dotted_decor: decor_model(k.dotted_decor()),
    }
}

#[verifier::external_body]
fn value_model(v: &toml_edit::Value) -> TomlValue {
    let decor = decor_model(v.decor());
    match v {
        toml_edit::Value::Array(a) => array_model(a, decor),
        toml_edit::Value::InlineTable(t) => TomlValue::Inline(inline_model(t, decor)),
        _ => TomlValue::Scalar { repr: v.clone().decorated("", "").to_string(), rounded: None, decor },
    }
}

#[verifier::external_body]
fn array_model(a: &toml_edit::Array, decor: TomlDecor) -> TomlValue {
    TomlValue::Array {
        items: a.iter().map(value_model).collect(),
        trailing: a.trailing().as_str().unwrap_or("").to_string(),
        trailing_comma: a.trailing_comma(),
        decor,
    }
}

#[verifier::external_body]
fn inline_model(t: &toml_edit::InlineTable, decor: TomlDecor) -> TomlInline {
    TomlInline {
        entries: t.iter().map(|(k, v)| (key_model(t.key(k).unwrap()), value_model(v))).collect(),
        preamble: t.preamble().as_str().unwrap_or("").to_string(),
        dotted: t.is_dotted(),
        decor,
    }
}

#[verifier::external_body]
fn table_model(t: &toml_edit::Table) -> TomlTable {
    TomlTable {
        entries: t.iter().map(|(k, i)| (key_model(t.key(k).unwrap()), item_model(i))).collect(),
        decor: decor_model(t.decor()),
        implicit: t.is_implicit(),
        dotted: t.is_dotted(),
        position: t.position(),
    }
}

#[verifier::external_body]
fn item_model(i: &toml_edit::Item) -> TomlItem {
    match i {
        toml_edit::Item::None => TomlItem::Missing,
        toml_edit::Item::Value(v) => TomlItem::Value(value_model(v)),
        toml_edit::Item::Table(t) => TomlItem::Table(table_model(t)),
        toml_edit::Item::ArrayOfTables(a) => TomlItem::TableArray(a.iter().map(table_model).collect()),
    }
}

#[verifier::external_body]
fn document_model(d: &toml_edit::DocumentMut) -> TomlDocument {
    TomlDocument { root: table_model(d.as_table()), trailing: d.trailing().as_str().unwrap_or("").to_string() }
}

#[verifier::external_body]
fn decor_value(m: &TomlDecor) -> toml_edit::Decor {
    let mut d = toml_edit::Decor::default();
    if let Some(p) = &m.prefix {
        d.set_prefix(p.as_str());
    }
    if let Some(s) = &m.suffix {
        d.set_suffix(s.as_str());
    }
    d
}

#[verifier::external_body]
fn key_value(m: &TomlKey) -> toml_edit::Key {
    let k = m.repr.as_ref().and_then(|r| r.parse::<toml_edit::Key>().ok());
    k.unwrap_or_else(|| toml_edit::Key::new(m.name.as_str()))
        .with_leaf_decor(decor_value(&m.leaf_decor))
        .with_dotted_decor(decor_value(&m.dotted_decor))
}

#[verifier::external_body]
fn value_value(m: &TomlValue) -> toml_edit::Value {
    let (mut v, decor) = match m {
        TomlValue::Scalar { repr, decor, .. } => (
            repr.parse::<toml_edit::Value>().unwrap_or_else(|_| toml_edit::Value::from(repr.as_str())),
            decor,
        ),
        TomlValue::Array { items, trailing, trailing_comma, decor } => (
            toml_edit::Value::Array(array_value(items, trailing, *trailing_comma)),
            decor,
        ),
        TomlValue::Inline(t) => (toml_edit::Value::InlineTable(inline_value(t)), &t.decor),
    };
    *v.decor_mut() = decor_value(decor);
    v
}

#[verifier::external_body]
fn array_value(items: &Vec<TomlValue>, trailing: &String, trailing_comma: bool) -> toml_edit::Array {
    let mut a = toml_edit::Array::new();
    for i in items {
        a.push_formatted(value_value(i));
    }
    a.set_trailing(trailing.as_str());
    a.set_trailing_comma(trailing_comma);
    a
}

#[verifier::external_body]
fn inline_value(m: &TomlInline) -> toml_edit::InlineTable {
    let mut t = toml_edit::InlineTable::new();
    for (k, v) in &m.entries {
        t.insert_formatted(&key_value(k), value_value(v));
    }
    t.set_preamble(m.preamble.as_str());
    t.set_dotted(m.dotted);
    t
}

#[verifier::external_body]
fn table_value(m: &TomlTable) -> toml_edit::Table {
    let mut t = toml_edit::Table::new();
    for (k, i) in &m.entries {
        t.insert_formatted(&key_value(k), item_value(i));
    }
    *t.decor_mut() = decor_value(&m.decor);
    t.set_implicit(m.implicit);
    t.set_dotted(m.dotted);
    if let Some(p) = m.position {
        t.set_position(p);
    }
    t
}

#[verifier::external_body]
fn item_value(m: &TomlItem) -> toml_edit::Item {
    match m {
        TomlItem::Missing => toml_edit::Item::None,
        TomlItem::Value(v) => toml_edit::Item::Value(value_value(v)),
        TomlItem::Table(t) => toml_edit::Item::Table(table_value(t)),
        TomlItem::TableArray(ts) => toml_edit::Item::ArrayOfTables(ts.iter().map(table_value).collect()),
    }
}

#[verifier::external_body]
fn document_value(m: &TomlDocument) -> toml_edit::DocumentMut {
    let mut d = toml_edit::DocumentMut::new();
    *d.as_table_mut() = table_value(&m.root);
    d.set_trailing(m.trailing.as_str());
    d
}

/// `DocumentMut::from_str`: the document that `toml_edit` reads from `text`,
/// as the library's model (`None` where the text is not TOML). The result
/// depends on the text alone. Floats carry no rounded text here.
#[verifier::external_body]
pub fn parse_document(text: &str) -> (r: Option<TomlDocument>)
    ensures
        document_opt_view(r) == parsed_document(text@),
{
    text.parse::<toml_edit::DocumentMut>().ok().map(|d| document_model(&d))
}

/// `DocumentMut`'s `Display`: the text `toml_edit` prints for the document.
/// The result depends on the document alone.
#[verifier::external_body]
fn render_document(doc: &TomlDocument) -> (s: String)
    ensures
        s@ == rendered_document(doc@),
{
    document_value(doc).to_string()
}

/// The document that new settings are saved into, merged with them: the
/// file's text read as TOML, or, when it is not TOML, the built-in template's
/// (else an empty document). The flag says that the file's text was not TOML,
/// so that the caller keeps a copy of it.
pub fn save_document(existing_text: &str, template_text: &str, serialized: TomlDocument) -> (r: (
    TomlDocument,
    bool,
))
    ensures
        r.0@ == merged_document(
            save_base(parsed_document(existing_text@), parsed_document(template_text@)),
            serialized@,
        ),
        r.1 == (parsed_document(existing_text@) is None),
{
    let existing = parse_document(existing_text);
    let broken = existing.is_none();
    let template = if broken {
        parse_document(template_text)
    } else {
        None
    };
    (merge_config_document(existing, template, serialized), broken)
}

/// The configuration file's new text: the new settings saved into its
/// current text as `save_document` does, printed by `toml_edit`; and whether
/// the current text was not TOML.
pub fn save_config_text(existing_text: &str, template_text: &str, serialized: TomlDocument) -> (r: (
    String,
    bool,
))
    ensures
        r.0@ == rendered_document(
            merged_document(
                save_base(parsed_document(existing_text@), parsed_document(template_text@)),
                serialized@,
            ),
        ),
        r.1 == (parsed_document(existing_text@) is None),
{
    let (doc, broken) = save_document(existing_text, template_text, serialized);
    (render_document(&doc), broken)
}

} // verus!
