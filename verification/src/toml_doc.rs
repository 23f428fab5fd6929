//! A TOML document as the configuration file holds it, formatting included,
//! and the merge that writes new settings into it while keeping the user's
//! comments, spacing and key order.

use vstd::prelude::*;
use crate::text::str_eq;

verus! {

/// The whitespace and comments before and after a key, value or table
/// header (`None` where the default applies).
pub struct TomlDecor {
    pub prefix: Option<String>,
    pub suffix: Option<String>,
}

/// A key as written: its name, the text that spells it (`None`: the default
/// spelling) and the whitespace and comments around it.
pub struct TomlKey {
    pub name: String,
    pub repr: Option<String>,
    pub leaf_decor: TomlDecor,
    pub dotted_decor: TomlDecor,
}

/// A value with the text around it.
pub enum TomlValue {
    /// A string, number, boolean or date as written; a float also carries
    /// the text of its value rounded to two decimals.
    Scalar { repr: String, rounded: Option<String>, decor: TomlDecor },
    Array { items: Vec<TomlValue>, trailing: String, trailing_comma: bool, decor: TomlDecor },
    Inline(TomlInline),
}

/// An inline table `{ k = v, .. }`.
pub struct TomlInline {
    pub entries: Vec<(TomlKey, TomlValue)>,
    pub preamble: String,
    pub dotted: bool,
    pub decor: TomlDecor,
}

/// A table `[name]`, or the document's root table.
pub struct TomlTable {
    pub entries: Vec<(TomlKey, TomlItem)>,
    pub decor: TomlDecor,
    pub implicit: bool,
    pub dotted: bool,
    pub position: Option<usize>,
}

/// What a key holds.
pub enum TomlItem {
    Missing,
    Value(TomlValue),
    Table(TomlTable),
    TableArray(Vec<TomlTable>),
}

/// A whole document: its root table and the text after the last item.
pub struct TomlDocument {
    pub root: TomlTable,
    pub trailing: String,
}

// ---------------------------------------------------------------------------
// Mathematical model
// ---------------------------------------------------------------------------

pub struct DecorV {
    pub prefix: Option<Seq<char>>,
    pub suffix: Option<Seq<char>>,
}

pub struct KeyV {
    pub name: Seq<char>,
    pub repr: Option<Seq<char>>,
    pub leaf_decor: DecorV,
    pub dotted_decor: DecorV,
}

pub enum ValueV {
    Scalar { repr: Seq<char>, rounded: Option<Seq<char>>, decor: DecorV },
    Array { items: Seq<ValueV>, trailing: Seq<char>, trailing_comma: bool, decor: DecorV },
    Inline { entries: Seq<(KeyV, ValueV)>, preamble: Seq<char>, dotted: bool, decor: DecorV },
}

pub struct TableV {
    pub entries: Seq<(KeyV, ItemV)>,
    pub decor: DecorV,
    pub implicit: bool,
    pub dotted: bool,
    pub position: Option<usize>,
}

pub enum ItemV {
    Missing,
    Value(ValueV),
    Table(TableV),
    TableArray(Seq<TableV>),
}

pub struct DocumentV {
    pub root: TableV,
    pub trailing: Seq<char>,
}

pub open spec fn opt_text(o: Option<String>) -> Option<Seq<char>> {
    match o {
        Some(s) => Some(s@),
        None => None,
    }
}

impl View for TomlDecor {
    type V = DecorV;

    open spec fn view(&self) -> DecorV {
        DecorV { prefix: opt_text(self.prefix), suffix: opt_text(self.suffix) }
    }
}

impl View for TomlKey {
    type V = KeyV;

    open spec fn view(&self) -> KeyV {
        KeyV {
            name: self.name@,
            repr: opt_text(self.repr),
            leaf_decor: self.leaf_decor@,
            dotted_decor: self.dotted_decor@,
        }
    }
}

pub open spec fn value_view(v: TomlValue) -> ValueV
    decreases v,
{
    match v {
        TomlValue::Scalar { repr, rounded, decor } => ValueV::Scalar {
            repr: repr@,
            rounded: opt_text(rounded),
            decor: decor@,
        },
        TomlValue::Array { items, trailing, trailing_comma, decor } => ValueV::Array {
            items: Seq::new(items@.len(), |i: int| if 0 <= i < items@.len() { value_view(items@[i]) } else { arbitrary() }),
            trailing: trailing@,
            trailing_comma,
            decor: decor@,
        },
        TomlValue::Inline(t) => ValueV::Inline {
            entries: Seq::new(t.entries@.len(), |i: int| if 0 <= i < t.entries@.len() { (t.entries@[i].0@, value_view(t.entries@[i].1)) } else { arbitrary() }),
            preamble: t.preamble@,
            dotted: t.dotted,
            decor: t.decor@,
        },
    }
}

pub open spec fn item_view(it: TomlItem) -> ItemV
    decreases it,
{
    match it {
        TomlItem::Missing => ItemV::Missing,
        TomlItem::Value(v) => ItemV::Value(value_view(v)),
        TomlItem::Table(t) => ItemV::Table(table_view(t)),
        TomlItem::TableArray(ts) => ItemV::TableArray(Seq::new(ts@.len(), |i: int| if 0 <= i < ts@.len() { table_view(ts@[i]) } else { arbitrary() })),
    }
}

pub open spec fn table_view(t: TomlTable) -> TableV
    decreases t,
{
    TableV {
        entries: Seq::new(t.entries@.len(), |i: int| if 0 <= i < t.entries@.len() { (t.entries@[i].0@, item_view(t.entries@[i].1)) } else { arbitrary() }),
        decor: t.decor@,
        implicit: t.implicit,
        dotted: t.dotted,
        position: t.position,
    }
}

impl View for TomlDocument {
    type V = DocumentV;

    open spec fn view(&self) -> DocumentV {
        DocumentV { root: table_view(self.root), trailing: self.trailing@ }
    }
}

/// The entries of a table, each key and item by its view.
pub open spec fn item_entries_view(e: Seq<(TomlKey, TomlItem)>) -> Seq<(KeyV, ItemV)> {
    Seq::new(e.len(), |i: int| (e[i].0@, item_view(e[i].1)))
}

/// The entries of an inline table, each key and value by its view.
pub open spec fn value_entries_view(e: Seq<(TomlKey, TomlValue)>) -> Seq<(KeyV, ValueV)> {
    Seq::new(e.len(), |i: int| (e[i].0@, value_view(e[i].1)))
}

// ---------------------------------------------------------------------------
// The merge, on the model
// ---------------------------------------------------------------------------

/// No whitespace or comment of its own: the default.
pub open spec fn no_decor() -> DecorV {
    DecorV { prefix: None, suffix: None }
}

/// A key made from its name alone, spelled and spaced by default.
pub open spec fn fresh_key(name: Seq<char>) -> KeyV {
    KeyV { name, repr: None, leaf_decor: no_decor(), dotted_decor: no_decor() }
}

/// The names of a list of entries.
pub open spec fn names_of<A>(e: Seq<(KeyV, A)>) -> Seq<Seq<char>> {
    Seq::new(e.len(), |i: int| e[i].0.name)
}

/// Index of the first of `names`, from the `j`-th on, equal to `name`; the
/// number of names when there is none.
pub open spec fn find_name(names: Seq<Seq<char>>, name: Seq<char>, j: int) -> int
    decreases names.len() - j,
{
    if j < 0 || j >= names.len() {
        names.len() as int
    } else if names[j] == name {
        j
    } else {
        find_name(names, name, j + 1)
    }
}

/// The whitespace and comments around a value.
pub open spec fn value_decor(v: ValueV) -> DecorV {
    match v {
        ValueV::Scalar { decor, .. } => decor,
        ValueV::Array { decor, .. } => decor,
        ValueV::Inline { decor, .. } => decor,
    }
}

/// `v` with the whitespace and comments `d` around it.
pub open spec fn with_decor(v: ValueV, d: DecorV) -> ValueV {
    match v {
        ValueV::Scalar { repr, rounded, .. } => ValueV::Scalar { repr, rounded, decor: d },
        ValueV::Array { items, trailing, trailing_comma, .. } => ValueV::Array {
            items,
            trailing,
            trailing_comma,
            decor: d,
        },
        ValueV::Inline { entries, preamble, dotted, .. } => ValueV::Inline {
            entries,
            preamble,
            dotted,
            decor: d,
        },
    }
}

/// An array element moved to a line of its own, indented by four spaces.
pub open spec fn on_own_line(v: ValueV) -> ValueV {
    with_decor(v, DecorV { prefix: Some("\n    "@), suffix: value_decor(v).suffix })
}

/// What a value `old` becomes when the new value `new` is written over it:
/// the new value in the old one's place, with the old one's whitespace and
/// comments; a float is written rounded to two decimals, and an array with one
/// element per line and a trailing comma.
pub open spec fn replaced_value(old: ValueV, new: ValueV) -> ValueV {
    let d = value_decor(old);
    match new {
        ValueV::Scalar { repr, rounded, .. } => match rounded {
            Some(r) => ValueV::Scalar { repr: r, rounded, decor: d },
            None => ValueV::Scalar { repr, rounded, decor: d },
        },
        ValueV::Array { items, .. } => ValueV::Array {
            items: Seq::new(items.len(), |i: int| on_own_line(items[i])),
            trailing: "\n"@,
            trailing_comma: true,
            decor: d,
        },
        ValueV::Inline { .. } => with_decor(new, d),
    }
}

/// An inline table's entries with `name` set to `v`: an entry of that name
/// keeps its place, spelled afresh; otherwise a new entry goes last.
pub open spec fn inline_put(e: Seq<(KeyV, ValueV)>, name: Seq<char>, v: ValueV) -> Seq<(KeyV, ValueV)> {
    let i = find_name(names_of(e), name, 0);
    if i < e.len() {
        e.update(i, (fresh_key(name), v))
    } else {
        e.push((fresh_key(name), v))
    }
}

/// Every entry of `s` set into `e`, in order.
pub open spec fn inline_put_all(e: Seq<(KeyV, ValueV)>, s: Seq<(KeyV, ValueV)>) -> Seq<(KeyV, ValueV)>
    decreases s.len(),
{
    if s.len() == 0 {
        e
    } else {
        inline_put_all(inline_put(e, s[0].0.name, s[0].1), s.subrange(1, s.len() as int))
    }
}

/// Every entry of the table entries `s` that holds a value set into `e`, in
/// order; sub-tables are left out.
pub open spec fn inline_put_values(e: Seq<(KeyV, ValueV)>, s: Seq<(KeyV, ItemV)>) -> Seq<(KeyV, ValueV)>
    decreases s.len(),
{
    if s.len() == 0 {
        e
    } else {
        let e1 = match s[0].1 {
            ItemV::Value(v) => inline_put(e, s[0].0.name, v),
            _ => e,
        };
        inline_put_values(e1, s.subrange(1, s.len() as int))
    }
}

/// An item `t` after the new item `s` is merged into it.
pub open spec fn merged_item(t: ItemV, s: ItemV) -> ItemV
    decreases s,
{
    match s {
        ItemV::Value(v) => merged_with_value(t, v),
        ItemV::Table(st) => merged_with_table(t, st),
        _ => s,
    }
}

/// An item `t` after the new value `v` is merged into it: a table takes in
/// the entries of an inline table; an inline table takes in the entries of
/// an inline table; a value is replaced keeping its surroundings; anything
/// else becomes `v`.
pub open spec fn merged_with_value(t: ItemV, v: ValueV) -> ItemV
    decreases v,
{
    match t {
        ItemV::Table(tt) => match v {
            ValueV::Inline { entries, .. } => ItemV::Table(
                TableV {
                    entries: merge_values_into(tt.entries, entries),
                    decor: tt.decor,
                    implicit: tt.implicit,
                    dotted: tt.dotted,
                    position: tt.position,
                },
            ),
            _ => ItemV::Value(v),
        },
        ItemV::Value(tv) => match (tv, v) {
            (
                ValueV::Inline { entries: te, preamble, dotted, decor },
                ValueV::Inline { entries: se, .. },
            ) => ItemV::Value(
                ValueV::Inline { entries: inline_put_all(te, se), preamble, dotted, decor },
            ),
            _ => ItemV::Value(replaced_value(tv, v)),
        },
        _ => ItemV::Value(v),
    }
}

/// An item `t` after the new table `st` is merged into it: a table takes in
/// its entries; an inline table takes in the entries that hold values;
/// anything else becomes `st`.
pub open spec fn merged_with_table(t: ItemV, st: TableV) -> ItemV
    decreases st,
{
    match t {
        ItemV::Table(tt) => ItemV::Table(
            TableV {
                entries: merge_items_into(tt.entries, st.entries),
                decor: tt.decor,
                implicit: tt.implicit,
                dotted: tt.dotted,
                position: tt.position,
            },
        ),
        ItemV::Value(ValueV::Inline { entries, preamble, dotted, decor }) => ItemV::Value(
            ValueV::Inline { entries: inline_put_values(entries, st.entries), preamble, dotted, decor },
        ),
        _ => ItemV::Table(st),
    }
}

/// Table entries `e` after the new entry `n` is merged in: an entry of that
/// name is merged with it in place; an entry of that name that holds nothing
/// is replaced in place; otherwise the new entry goes last. Both a replaced
/// and a new entry get a freshly spelled key. A new entry that holds nothing
/// changes nothing.
pub open spec fn put_item(e: Seq<(KeyV, ItemV)>, n: (KeyV, ItemV)) -> Seq<(KeyV, ItemV)>
    decreases n,
{
    if n.1 is Missing {
        e
    } else {
        let i = find_name(names_of(e), n.0.name, 0);
        if i < e.len() && !(e[i].1 is Missing) {
            e.update(i, (e[i].0, merged_item(e[i].1, n.1)))
        } else if i < e.len() {
            e.update(i, (fresh_key(n.0.name), n.1))
        } else {
            e.push((fresh_key(n.0.name), n.1))
        }
    }
}

/// Every entry of `s` merged into the table entries `e`, in order.
pub open spec fn merge_items_into(e: Seq<(KeyV, ItemV)>, s: Seq<(KeyV, ItemV)>) -> Seq<(KeyV, ItemV)>
    decreases s,
{
    if s.len() == 0 {
        e
    } else {
        merge_items_into(put_item(e, s[0]), s.subrange(1, s.len() as int))
    }
}

/// Table entries `e` after the new value entry `n` is merged in, as
/// `put_item` does for an entry that holds the value.
pub open spec fn put_value(e: Seq<(KeyV, ItemV)>, n: (KeyV, ValueV)) -> Seq<(KeyV, ItemV)>
    decreases n,
{
    let i = find_name(names_of(e), n.0.name, 0);
    if i < e.len() && !(e[i].1 is Missing) {
        e.update(i, (e[i].0, merged_with_value(e[i].1, n.1)))
    } else if i < e.len() {
        e.update(i, (fresh_key(n.0.name), ItemV::Value(n.1)))
    } else {
        e.push((fresh_key(n.0.name), ItemV::Value(n.1)))
    }
}

/// Every entry of the inline table entries `s` merged into the table
/// entries `e`, in order.
pub open spec fn merge_values_into(e: Seq<(KeyV, ItemV)>, s: Seq<(KeyV, ValueV)>) -> Seq<(KeyV, ItemV)>
    decreases s,
{
    if s.len() == 0 {
        e
    } else {
        merge_values_into(put_value(e, s[0]), s.subrange(1, s.len() as int))
    }
}

/// A table put at the top of the document is implicit: it gets no header of
/// its own unless it holds values.
pub open spec fn as_implicit(it: ItemV) -> ItemV {
    match it {
        ItemV::Table(t) => ItemV::Table(
            TableV { entries: t.entries, decor: t.decor, implicit: true, dotted: t.dotted, position: t.position },
        ),
        _ => it,
    }
}

/// Root entries `e` after the new top-level entry `n` is merged in: as
/// `put_item`, except that a table put anew is made implicit.
pub open spec fn put_top(e: Seq<(KeyV, ItemV)>, n: (KeyV, ItemV)) -> Seq<(KeyV, ItemV)> {
    if n.1 is Missing {
        e
    } else {
        let i = find_name(names_of(e), n.0.name, 0);
        if i < e.len() && !(e[i].1 is Missing) {
            e.update(i, (e[i].0, merged_item(e[i].1, n.1)))
        } else if i < e.len() {
            e.update(i, (fresh_key(n.0.name), as_implicit(n.1)))
        } else {
            e.push((fresh_key(n.0.name), as_implicit(n.1)))
        }
    }
}

/// Every top-level entry of `s` merged into the root entries `e`, in order.
pub open spec fn merge_top_into(e: Seq<(KeyV, ItemV)>, s: Seq<(KeyV, ItemV)>) -> Seq<(KeyV, ItemV)>
    decreases s.len(),
{
    if s.len() == 0 {
        e
    } else {
        merge_top_into(put_top(e, s[0]), s.subrange(1, s.len() as int))
    }
}

/// The document `d` after the new settings `n` are merged into it; its root
/// table keeps its own surroundings, as does the text after its last item.
pub open spec fn merged_document(d: DocumentV, n: DocumentV) -> DocumentV {
    DocumentV {
        root: TableV {
            entries: merge_top_into(d.root.entries, n.root.entries),
            decor: d.root.decor,
            implicit: d.root.implicit,
            dotted: d.root.dotted,
            position: d.root.position,
        },
        trailing: d.trailing,
    }
}

/// An empty document, as `toml_edit` makes one.
pub open spec fn empty_document() -> DocumentV {
    DocumentV {
        root: TableV { entries: Seq::empty(), decor: no_decor(), implicit: false, dotted: false, position: Some(0) },
        trailing: Seq::empty(),
    }
}

/// The document that new settings are written into: the file's, when it
/// reads as TOML; else the built-in template's; else an empty one.
pub open spec fn save_base(existing: Option<DocumentV>, template: Option<DocumentV>) -> DocumentV {
    match existing {
        Some(d) => d,
        None => match template {
            Some(t) => t,
            None => empty_document(),
        },
    }
}

// ---------------------------------------------------------------------------
// The merge
// ---------------------------------------------------------------------------

/// The names of a list of entries.
pub open spec fn key_names<A>(e: Seq<(TomlKey, A)>) -> Seq<Seq<char>> {
    Seq::new(e.len(), |i: int| e[i].0.name@)
}

/// Index of the first entry named `name`; the number of entries when none is.
fn find_key<A>(e: &Vec<(TomlKey, A)>, name: &str) -> (r: usize)
    ensures
        r == find_name(key_names(e@), name@, 0),
{
    let mut i: usize = 0;
    while i < e.len()
        invariant
            i <= e@.len(),
            find_name(key_names(e@), name@, 0) == find_name(key_names(e@), name@, i as int),
        decreases e.len() - i,
    {
        if str_eq(e[i].0.name.as_str(), name) {
            return i;
        }
        i = i + 1;
    }
    i
}

fn no_decor_exec() -> (d: TomlDecor)
    ensures
        d@ == no_decor(),
{
    TomlDecor { prefix: None, suffix: None }
}

fn fresh_key_exec(name: String) -> (k: TomlKey)
    ensures
        k@ == fresh_key(name@),
{
    TomlKey { name, repr: None, leaf_decor: no_decor_exec(), dotted_decor: no_decor_exec() }
}

fn take_decor(v: TomlValue) -> (d: TomlDecor)
    ensures
        d@ == value_decor(value_view(v)),
{
    match v {
        TomlValue::Scalar { decor, .. } => decor,
        TomlValue::Array { decor, .. } => decor,
        TomlValue::Inline(t) => t.decor,
    }
}

fn with_decor_exec(v: TomlValue, d: TomlDecor) -> (r: TomlValue)
    ensures
        value_view(r) == with_decor(value_view(v), d@),
{
    match v {
        TomlValue::Scalar { repr, rounded, .. } => TomlValue::Scalar { repr, rounded, decor: d },
        TomlValue::Array { items, trailing, trailing_comma, .. } => {
            let r = TomlValue::Array { items, trailing, trailing_comma, decor: d };
            proof {
                assert(value_view(r) =~~= with_decor(value_view(v), d@));
            }
            r
        },
        TomlValue::Inline(t) => {
            let TomlInline { entries, preamble, dotted, .. } = t;
            let r = TomlValue::Inline(TomlInline { entries, preamble, dotted, decor: d });
            proof {
                assert(value_view(r) =~~= with_decor(value_view(v), d@));
            }
            r
        },
    }
}

fn on_own_line_exec(v: TomlValue) -> (r: TomlValue)
    ensures
        value_view(r) == on_own_line(value_view(v)),
{
    let d = match &v {
        TomlValue::Scalar { decor, .. } => decor,
        TomlValue::Array { decor, .. } => decor,
        TomlValue::Inline(t) => &t.decor,
    };
    let suffix = match &d.suffix {
        Some(x) => Some(x.clone()),
        None => None,
    };
    let nd = TomlDecor { prefix: Some(String::from_str("\n    ")), suffix };
    proof {
        reveal_strlit("\n    ");
    }
    with_decor_exec(v, nd)
}

/// The new value `new` written over `old`, as `replaced_value` says.
fn replaced_value_exec(old: TomlValue, new: TomlValue) -> (r: TomlValue)
    ensures
        value_view(r) == replaced_value(value_view(old), value_view(new)),
{
    let ghost nv = value_view(new);
    let d = take_decor(old);
    match new {
        TomlValue::Scalar { repr, rounded, .. } => match rounded {
            Some(x) => {
                let y = x.clone();
                TomlValue::Scalar { repr: y, rounded: Some(x), decor: d }
            },
            None => TomlValue::Scalar { repr, rounded: None, decor: d },
        },
        TomlValue::Array { items, .. } => {
            let ghost iv = Seq::new(items@.len(), |i: int| value_view(items@[i]));
            let ghost n = items@.len();
            let ghost items0 = items@;
            assert(items@.len() == items.len());
            let mut rest = items;
            let mut out: Vec<TomlValue> = Vec::new();
            let mut k: usize = 0;
            while rest.len() > 0
                invariant
                    k <= n,
                    n <= usize::MAX,
                    rest@ == items0.subrange(k as int, n as int),
                    out@.len() == k,
                    n == items0.len(),
                    forall|j: int| 0 <= j < k ==> value_view(#[trigger] out@[j]) == on_own_line(value_view(items0[j])),
                decreases rest.len(),
            {
                let x = rest.remove(0);
                assert(x == items0[k as int]);
                out.push(on_own_line_exec(x));
                k = k + 1;
            }
            let r = TomlValue::Array {
                items: out,
                trailing: String::from_str("\n"),
                trailing_comma: true,
                decor: d,
            };
            proof {
                reveal_strlit("\n");
                let want_items = Seq::new(n, |i: int| on_own_line(value_view(items0[i])));
                assert(value_view(r)->Array_items =~= want_items);
                assert(nv->Array_items =~= Seq::new(n, |i: int| value_view(items0[i])));
                assert(replaced_value(value_view(old), nv)->Array_items =~= want_items);
            }
            r
        },
        TomlValue::Inline(t) => with_decor_exec(TomlValue::Inline(t), d),
    }
}

/// Sets `name` to `v` in inline-table entries, as `inline_put` says.
fn inline_put_exec(e: Vec<(TomlKey, TomlValue)>, name: String, v: TomlValue) -> (r: Vec<(TomlKey, TomlValue)>)
    ensures
        value_entries_view(r@) == inline_put(value_entries_view(e@), name@, value_view(v)),
{
    let ghost ev = value_entries_view(e@);
    let i = find_key(&e, name.as_str());
    proof {
        assert(names_of(ev) =~= key_names(e@));
    }
    let mut e = e;
    let ghost e0 = e@;
    if i < e.len() {
        let _ = e.remove(i);
        e.insert(i, (fresh_key_exec(name), v));
        proof {
            assert(value_entries_view(e@) =~= ev.update(i as int, (fresh_key(name@), value_view(v))));
        }
    } else {
        e.push((fresh_key_exec(name), v));
        proof {
            assert(value_entries_view(e@) =~= ev.push((fresh_key(name@), value_view(v))));
        }
    }
    e
}

/// Sets every entry of `s` into inline-table entries `e`, in order.
fn inline_put_all_exec(e: Vec<(TomlKey, TomlValue)>, s: Vec<(TomlKey, TomlValue)>) -> (r: Vec<(TomlKey, TomlValue)>)
    ensures
        value_entries_view(r@) == inline_put_all(value_entries_view(e@), value_entries_view(s@)),
{
    let ghost target = inline_put_all(value_entries_view(e@), value_entries_view(s@));
    let mut e = e;
    let mut rest = s;
    while rest.len() > 0
        invariant
            inline_put_all(value_entries_view(e@), value_entries_view(rest@)) == target,
        decreases rest.len(),
    {
        let ghost rv = value_entries_view(rest@);
        let (k, v) = rest.remove(0);
        proof {
            assert(rv.subrange(1, rv.len() as int) =~= value_entries_view(rest@));
        }
        e = inline_put_exec(e, k.name, v);
    }
    e
}

/// Sets every entry of the table entries `s` that holds a value into
/// inline-table entries `e`, in order.
fn inline_put_values_exec(e: Vec<(TomlKey, TomlValue)>, s: Vec<(TomlKey, TomlItem)>) -> (r: Vec<(TomlKey, TomlValue)>)
    ensures
        value_entries_view(r@) == inline_put_values(value_entries_view(e@), item_entries_view(s@)),
{
    let ghost target = inline_put_values(value_entries_view(e@), item_entries_view(s@));
    let mut e = e;
    let mut rest = s;
    while rest.len() > 0
        invariant
            inline_put_values(value_entries_view(e@), item_entries_view(rest@)) == target,
        decreases rest.len(),
    {
        let ghost rv = item_entries_view(rest@);
        let (k, it) = rest.remove(0);
        proof {
            assert(rv.subrange(1, rv.len() as int) =~= item_entries_view(rest@));
        }
        match it {
            TomlItem::Value(v) => {
                e = inline_put_exec(e, k.name, v);
            },
            _ => {},
        }
    }
    e
}

fn is_missing(it: &TomlItem) -> (b: bool)
    ensures
        b == (item_view(*it) is Missing),
{
    match it {
        TomlItem::Missing => true,
        _ => false,
    }
}

/// Merges the new item `s` into `t`.
fn merge_item_exec(t: TomlItem, s: TomlItem) -> (r: TomlItem)
    ensures
        item_view(r) == merged_item(item_view(t), item_view(s)),
    decreases s,
{
    match s {
        TomlItem::Value(v) => merge_with_value_exec(t, v),
        TomlItem::Table(st) => merge_with_table_exec(t, st),
        other => other,
    }
}

/// Merges the new value `v` into `t`.
fn merge_with_value_exec(t: TomlItem, v: TomlValue) -> (r: TomlItem)
    ensures
        item_view(r) == merged_with_value(item_view(t), value_view(v)),
    decreases v,
{
    let ghost tv0 = item_view(t);
    let ghost vv0 = value_view(v);
    match t {
        TomlItem::Table(tt) => match v {
            TomlValue::Inline(si) => {
                let TomlTable { entries, decor, implicit, dotted, position } = tt;
                proof {
                    assert(table_view(tt).entries =~= item_entries_view(entries@));
                    assert(value_view(TomlValue::Inline(si))->Inline_entries =~= value_entries_view(si.entries@));
                    assert(decreases_to!(v => si));
                }
                let m = merge_values_into_exec(entries, si.entries);
                let r = TomlItem::Table(TomlTable { entries: m, decor, implicit, dotted, position });
                proof {
                    assert(table_view(TomlTable { entries: m, decor, implicit, dotted, position }).entries
                        =~= item_entries_view(m@));
                }
                r
            },
            other => TomlItem::Value(other),
        },
        TomlItem::Value(tv) => match tv {
            TomlValue::Inline(ti) => match v {
                TomlValue::Inline(si) => {
                    let TomlInline { entries, preamble, dotted, decor } = ti;
                    proof {
                        assert(value_view(TomlValue::Inline(ti))->Inline_entries =~= value_entries_view(entries@));
                        assert(value_view(TomlValue::Inline(si))->Inline_entries =~= value_entries_view(si.entries@));
                    }
                    let m = inline_put_all_exec(entries, si.entries);
                    let ni = TomlInline { entries: m, preamble, dotted, decor };
                    proof {
                        assert(value_view(TomlValue::Inline(ni))->Inline_entries =~= value_entries_view(m@));
                    }
                    TomlItem::Value(TomlValue::Inline(ni))
                },
                other => TomlItem::Value(replaced_value_exec(TomlValue::Inline(ti), other)),
            },
            other_t => TomlItem::Value(replaced_value_exec(other_t, v)),
        },
        _ => TomlItem::Value(v),
    }
}

/// Merges the new table `st` into `t`.
fn merge_with_table_exec(t: TomlItem, st: TomlTable) -> (r: TomlItem)
    ensures
        item_view(r) == merged_with_table(item_view(t), table_view(st)),
    decreases st,
{
    match t {
        TomlItem::Table(tt) => {
            let TomlTable { entries, decor, implicit, dotted, position } = tt;
            proof {
                assert(table_view(tt).entries =~= item_entries_view(entries@));
                assert(table_view(st).entries =~= item_entries_view(st.entries@));
            }
            let m = merge_items_into_exec(entries, st.entries);
            let nt = TomlTable { entries: m, decor, implicit, dotted, position };
            proof {
                assert(table_view(nt).entries =~= item_entries_view(m@));
            }
            TomlItem::Table(nt)
        },
        TomlItem::Value(TomlValue::Inline(ti)) => {
            let TomlInline { entries, preamble, dotted, decor } = ti;
            proof {
                assert(value_view(TomlValue::Inline(ti))->Inline_entries =~= value_entries_view(entries@));
                assert(table_view(st).entries =~= item_entries_view(st.entries@));
            }
            let m = inline_put_values_exec(entries, st.entries);
            let ni = TomlInline { entries: m, preamble, dotted, decor };
            proof {
                assert(value_view(TomlValue::Inline(ni))->Inline_entries =~= value_entries_view(m@));
            }
            TomlItem::Value(TomlValue::Inline(ni))
        },
        _ => TomlItem::Table(st),
    }
}

/// Merges the new entry `n` into table entries `e`, as `put_item` says.
fn put_item_exec(e: Vec<(TomlKey, TomlItem)>, n: (TomlKey, TomlItem)) -> (r: Vec<(TomlKey, TomlItem)>)
    ensures
        item_entries_view(r@) == put_item(item_entries_view(e@), (n.0@, item_view(n.1))),
    decreases n,
{
    let ghost ev = item_entries_view(e@);
    let ghost nv = (n.0@, item_view(n.1));
    let (k, it) = n;
    if is_missing(&it) {
        return e;
    }
    let i = find_key(&e, k.name.as_str());
    proof {
        assert(names_of(ev) =~= key_names(e@));
    }
    let mut e = e;
    if i < e.len() {
        let (ek, eit) = e.remove(i);
        if is_missing(&eit) {
            e.insert(i, (fresh_key_exec(k.name), it));
            proof {
                assert(item_entries_view(e@) =~= ev.update(i as int, (fresh_key(nv.0.name), nv.1)));
            }
        } else {
            let m = merge_item_exec(eit, it);
            e.insert(i, (ek, m));
            proof {
                assert(item_entries_view(e@) =~= ev.update(i as int, (ev[i as int].0, merged_item(ev[i as int].1, nv.1))));
            }
        }
    } else {
        e.push((fresh_key_exec(k.name), it));
        proof {
            assert(item_entries_view(e@) =~= ev.push((fresh_key(nv.0.name), nv.1)));
        }
    }
    e
}

/// Merges every entry of `s` into table entries `e`, in order.
fn merge_items_into_exec(e: Vec<(TomlKey, TomlItem)>, s: Vec<(TomlKey, TomlItem)>) -> (r: Vec<(TomlKey, TomlItem)>)
    ensures
        item_entries_view(r@) == merge_items_into(item_entries_view(e@), item_entries_view(s@)),
    decreases s,
{
    let ghost target = merge_items_into(item_entries_view(e@), item_entries_view(s@));
    let ghost s0 = s;
    let ghost n0 = s@.len();
    assert(s@.len() == s.len());
    let mut e = e;
    let mut rest = s;
    let mut k: usize = 0;
    while rest.len() > 0
        invariant
            k <= n0,
            n0 == s0@.len(),
            n0 <= usize::MAX,
            s0 == s,
            rest@ == s0@.subrange(k as int, n0 as int),
            merge_items_into(item_entries_view(e@), item_entries_view(rest@)) == target,
        decreases rest.len(),
    {
        let ghost rv = item_entries_view(rest@);
        let x = rest.remove(0);
        proof {
            assert(rv.subrange(1, rv.len() as int) =~= item_entries_view(rest@));
            assert(x == s0@[k as int]);
            assert(decreases_to!(s0 => s0@));
            assert(decreases_to!(s0@ => s0@[k as int]));
        }
        e = put_item_exec(e, x);
        k = k + 1;
    }
    e
}

/// Merges the new value entry `n` into table entries `e`, as `put_value` says.
fn put_value_exec(e: Vec<(TomlKey, TomlItem)>, n: (TomlKey, TomlValue)) -> (r: Vec<(TomlKey, TomlItem)>)
    ensures
        item_entries_view(r@) == put_value(item_entries_view(e@), (n.0@, value_view(n.1))),
    decreases n,
{
    let ghost ev = item_entries_view(e@);
    let ghost nv = (n.0@, value_view(n.1));
    let (k, v) = n;
    let i = find_key(&e, k.name.as_str());
    proof {
        assert(names_of(ev) =~= key_names(e@));
    }
    let mut e = e;
    if i < e.len() {
        let (ek, eit) = e.remove(i);
        if is_missing(&eit) {
            e.insert(i, (fresh_key_exec(k.name), TomlItem::Value(v)));
            proof {
                assert(item_entries_view(e@) =~= ev.update(i as int, (fresh_key(nv.0.name), ItemV::Value(nv.1))));
            }
        } else {
            let m = merge_with_value_exec(eit, v);
            e.insert(i, (ek, m));
            proof {
                assert(item_entries_view(e@) =~= ev.update(i as int, (ev[i as int].0, merged_with_value(ev[i as int].1, nv.1))));
            }
        }
    } else {
        e.push((fresh_key_exec(k.name), TomlItem::Value(v)));
        proof {
            assert(item_entries_view(e@) =~= ev.push((fresh_key(nv.0.name), ItemV::Value(nv.1))));
        }
    }
    e
}

/// Merges every entry of the inline-table entries `s` into table entries
/// `e`, in order.
fn merge_values_into_exec(e: Vec<(TomlKey, TomlItem)>, s: Vec<(TomlKey, TomlValue)>) -> (r: Vec<(TomlKey, TomlItem)>)
    ensures
        item_entries_view(r@) == merge_values_into(item_entries_view(e@), value_entries_view(s@)),
    decreases s,
{
    let ghost target = merge_values_into(item_entries_view(e@), value_entries_view(s@));
    let ghost s0 = s;
    let ghost n0 = s@.len();
    assert(s@.len() == s.len());
    let mut e = e;
    let mut rest = s;
    let mut k: usize = 0;
    while rest.len() > 0
        invariant
            k <= n0,
            n0 == s0@.len(),
            n0 <= usize::MAX,
            s0 == s,
            rest@ == s0@.subrange(k as int, n0 as int),
            merge_values_into(item_entries_view(e@), value_entries_view(rest@)) == target,
        decreases rest.len(),
    {
        let ghost rv = value_entries_view(rest@);
        let x = rest.remove(0);
        proof {
            assert(rv.subrange(1, rv.len() as int) =~= value_entries_view(rest@));
            assert(x == s0@[k as int]);
            assert(decreases_to!(s0 => s0@));
            assert(decreases_to!(s0@ => s0@[k as int]));
        }
        e = put_value_exec(e, x);
        k = k + 1;
    }
    e
}

/// Merges the new item `source` into `target`: tables and inline tables
/// take in the new entries key by key, keeping the order, spelling and
/// comments of the entries they had; a value takes the new value and keeps
/// its own surroundings; anything else is replaced.
pub fn update_toml_item(target: &mut TomlItem, source: TomlItem)
    ensures
        item_view(*final(target)) == merged_item(item_view(*old(target)), item_view(source)),
{
    let mut t = TomlItem::Missing;
    std::mem::swap(&mut t, target);
    *target = merge_item_exec(t, source);
}

fn make_implicit(it: TomlItem) -> (r: TomlItem)
    ensures
        item_view(r) == as_implicit(item_view(it)),
{
    match it {
        TomlItem::Table(t) => {
            let TomlTable { entries, decor, dotted, position, .. } = t;
            let nt = TomlTable { entries, decor, implicit: true, dotted, position };
            proof {
                assert(table_view(nt).entries =~= table_view(t).entries);
            }
            TomlItem::Table(nt)
        },
        other => other,
    }
}

/// Merges the new top-level entry `n` into root entries `e`, as `put_top` says.
fn put_top_exec(e: Vec<(TomlKey, TomlItem)>, n: (TomlKey, TomlItem)) -> (r: Vec<(TomlKey, TomlItem)>)
    ensures
        item_entries_view(r@) == put_top(item_entries_view(e@), (n.0@, item_view(n.1))),
{
    let ghost ev = item_entries_view(e@);
    let ghost nv = (n.0@, item_view(n.1));
    let (k, it) = n;
    if is_missing(&it) {
        return e;
    }
    let i = find_key(&e, k.name.as_str());
    proof {
        assert(names_of(ev) =~= key_names(e@));
    }
    let mut e = e;
    if i < e.len() {
        let (ek, eit) = e.remove(i);
        if is_missing(&eit) {
            e.insert(i, (fresh_key_exec(k.name), make_implicit(it)));
            proof {
                assert(item_entries_view(e@) =~= ev.update(i as int, (fresh_key(nv.0.name), as_implicit(nv.1))));
            }
        } else {
            let m = merge_item_exec(eit, it);
            e.insert(i, (ek, m));
            proof {
                assert(item_entries_view(e@) =~= ev.update(i as int, (ev[i as int].0, merged_item(ev[i as int].1, nv.1))));
            }
        }
    } else {
        e.push((fresh_key_exec(k.name), make_implicit(it)));
        proof {
            assert(item_entries_view(e@) =~= ev.push((fresh_key(nv.0.name), as_implicit(nv.1))));
        }
    }
    e
}

/// Merges the new settings document `n` into the document `d`, key by key
/// at the top level.
fn merge_document(d: TomlDocument, n: TomlDocument) -> (r: TomlDocument)
    ensures
        r@ == merged_document(d@, n@),
{
    let TomlDocument { root, trailing } = d;
    let TomlTable { entries, decor, implicit, dotted, position } = root;
    let ghost target = merge_top_into(item_entries_view(entries@), item_entries_view(n.root.entries@));
    proof {
        assert(table_view(root).entries =~= item_entries_view(entries@));
        assert(table_view(n.root).entries =~= item_entries_view(n.root.entries@));
    }
    let mut e = entries;
    let mut rest = n.root.entries;
    while rest.len() > 0
        invariant
            merge_top_into(item_entries_view(e@), item_entries_view(rest@)) == target,
        decreases rest.len(),
    {
        let ghost rv = item_entries_view(rest@);
        let x = rest.remove(0);
        proof {
            assert(rv.subrange(1, rv.len() as int) =~= item_entries_view(rest@));
        }
        e = put_top_exec(e, x);
    }
    let nr = TomlTable { entries: e, decor, implicit, dotted, position };
    proof {
        assert(table_view(nr).entries =~= item_entries_view(e@));
    }
    TomlDocument { root: nr, trailing }
}

/// A document's view, when there is one.
pub open spec fn document_opt_view(d: Option<TomlDocument>) -> Option<DocumentV> {
    match d {
        Some(x) => Some(x@),
        None => None,
    }
}

fn empty_document_exec() -> (d: TomlDocument)
    ensures
        d@ == empty_document(),
{
    let root = TomlTable { entries: Vec::new(), decor: no_decor_exec(), implicit: false, dotted: false, position: Some(0) };
    let d = TomlDocument { root, trailing: String::from_str("") };
    proof {
        reveal_strlit("");
        assert(d.trailing@ =~= Seq::<char>::empty());
        assert(table_view(d.root).entries =~= Seq::<(KeyV, ItemV)>::empty());
        assert(table_view(d.root) == empty_document().root);
    }
    d
}

/// Writes the newly serialised settings into the configuration file's
/// document, keeping everything the user wrote that the settings do not
/// replace: into the file's document (`existing`) when it reads as TOML, else
/// into the built-in template's, else into an empty document.
pub fn merge_config_document(
    existing: Option<TomlDocument>,
    template: Option<TomlDocument>,
    serialized: TomlDocument,
) -> (r: TomlDocument)
    ensures
        r@ == merged_document(save_base(document_opt_view(existing), document_opt_view(template)), serialized@),
{
    let base = match existing {
        Some(d) => d,
        None => match template {
            Some(t) => t,
            None => empty_document_exec(),
        },
    };
    merge_document(base, serialized)
}

// ---------------------------------------------------------------------------
// What a save keeps
// ---------------------------------------------------------------------------

proof fn lemma_find_name(names: Seq<Seq<char>>, name: Seq<char>, j: int)
    requires
        0 <= j,
    ensures
        find_name(names, name, j) <= names.len(),
        find_name(names, name, j) < names.len() ==> find_name(names, name, j) >= j && names[find_name(names, name, j)] == name,
    decreases names.len() - j,
{
    if j < names.len() && names[j] != name {
        lemma_find_name(names, name, j + 1);
    }
}

proof fn lemma_put_top_step(e: Seq<(KeyV, ItemV)>, n: (KeyV, ItemV))
    ensures
        put_top(e, n).len() >= e.len(),
        forall|i: int| 0 <= i < e.len() ==> (#[trigger] put_top(e, n)[i]).0.name == e[i].0.name,
        forall|i: int|
            0 <= i < e.len() && !(e[i].1 is Missing) ==> (#[trigger] put_top(e, n)[i]).0 == e[i].0 && !(put_top(
                e,
                n,
            )[i].1 is Missing),
        forall|i: int| 0 <= i < e.len() && e[i].0.name != n.0.name ==> #[trigger] put_top(e, n)[i] == e[i],
{
    let r = put_top(e, n);
    let idx = find_name(names_of(e), n.0.name, 0);
    lemma_find_name(names_of(e), n.0.name, 0);
    if !(n.1 is Missing) && idx < e.len() && !(e[idx].1 is Missing) {
        let m = merged_item(e[idx].1, n.1);
        assert(!(m is Missing));
    }
}

proof fn lemma_top_fold(e: Seq<(KeyV, ItemV)>, s: Seq<(KeyV, ItemV)>)
    ensures
        merge_top_into(e, s).len() >= e.len(),
        forall|i: int| 0 <= i < e.len() ==> (#[trigger] merge_top_into(e, s)[i]).0.name == e[i].0.name,
        forall|i: int|
            0 <= i < e.len() && !(e[i].1 is Missing) ==> (#[trigger] merge_top_into(e, s)[i]).0 == e[i].0
                && !(merge_top_into(e, s)[i].1 is Missing),
        forall|i: int|
            0 <= i < e.len() && (forall|j: int| 0 <= j < s.len() ==> (#[trigger] s[j]).0.name != e[i].0.name)
                ==> #[trigger] merge_top_into(e, s)[i] == e[i],
    decreases s.len(),
{
    if s.len() > 0 {
        let e1 = put_top(e, s[0]);
        let s1 = s.subrange(1, s.len() as int);
        lemma_put_top_step(e, s[0]);
        lemma_top_fold(e1, s1);
        let r = merge_top_into(e, s);
        assert(r == merge_top_into(e1, s1));
        assert forall|i: int|
            0 <= i < e.len() && (forall|j: int| 0 <= j < s.len() ==> (#[trigger] s[j]).0.name != e[i].0.name)
            implies #[trigger] merge_top_into(e, s)[i] == e[i] by {
            assert(s[0].0.name != e[i].0.name);
            assert(e1[i] == e[i]);
            assert forall|j: int| 0 <= j < s1.len() implies (#[trigger] s1[j]).0.name != e1[i].0.name by {
                assert(s1[j] == s[j + 1]);
            }
        }
        assert forall|i: int| 0 <= i < e.len() implies (#[trigger] merge_top_into(e, s)[i]).0.name == e[i].0.name by {
            assert(e1[i].0.name == e[i].0.name);
        }
        assert forall|i: int| 0 <= i < e.len() && !(e[i].1 is Missing) implies (#[trigger] merge_top_into(e, s)[i]).0
            == e[i].0 && !(merge_top_into(e, s)[i].1 is Missing) by {
            assert(e1[i].0 == e[i].0 && !(e1[i].1 is Missing));
        }
    }
}

/// Saving keeps what the user wrote: every top-level entry of the document
/// keeps its place and its name; an entry that held something keeps its key
/// as it was spelled and commented; an entry that the new settings do not
/// name is left exactly as it was; and the root table's surroundings and the
/// text after the last item are kept.
pub proof fn lemma_save_keeps_user_entries(d: DocumentV, n: DocumentV)
    ensures
        ({
            let r = merged_document(d, n);
            &&& r.trailing == d.trailing
            &&& r.root.decor == d.root.decor
            &&& r.root.entries.len() >= d.root.entries.len()
            &&& forall|i: int| 0 <= i < d.root.entries.len() ==> (#[trigger] r.root.entries[i]).0.name == d.root.entries[i].0.name
            &&& forall|i: int|
                0 <= i < d.root.entries.len() && !(d.root.entries[i].1 is Missing) ==> (#[trigger] r.root.entries[i]).0
                    == d.root.entries[i].0
            &&& forall|i: int|
                0 <= i < d.root.entries.len() && (forall|j: int|
                    0 <= j < n.root.entries.len() ==> (#[trigger] n.root.entries[j]).0.name != d.root.entries[i].0.name)
                    ==> #[trigger] r.root.entries[i] == d.root.entries[i]
        }),
{
    lemma_top_fold(d.root.entries, n.root.entries);
}

/// A value written over another keeps the old value's whitespace and its
/// comment at the end of the line.
pub proof fn lemma_replaced_value_keeps_decor(old: ValueV, new: ValueV)
    ensures
        value_decor(replaced_value(old, new)) == value_decor(old),
{
}

// ---------------------------------------------------------------------------
// The merge key by key
// ---------------------------------------------------------------------------

/// No two entries share a name (as in any table `toml_edit` reads).
pub open spec fn distinct_names<A>(e: Seq<(KeyV, A)>) -> bool {
    forall|i: int, j: int| 0 <= i < j < e.len() ==> e[i].0.name != e[j].0.name
}

/// What the new entries `s` hold under `name`, if one of them has it.
pub open spec fn entry_for(s: Seq<(KeyV, ItemV)>, name: Seq<char>) -> Option<ItemV>
    decreases s.len(),
{
    if s.len() == 0 {
        None
    } else if s[0].0.name == name {
        Some(s[0].1)
    } else {
        entry_for(s.subrange(1, s.len() as int), name)
    }
}

/// A table put anew: implicit at the top of the document, as it is below.
pub open spec fn put_anew(it: ItemV, top: bool) -> ItemV {
    if top {
        as_implicit(it)
    } else {
        it
    }
}

/// What an entry `x` of the document becomes when the new entries `s` are
/// merged in: merged with the new entry of its name, in place and under its
/// own key; replaced, under a fresh key, where it held nothing; kept as it
/// was where no new entry names it (or the new one holds nothing).
pub open spec fn merged_entry(x: (KeyV, ItemV), s: Seq<(KeyV, ItemV)>, top: bool) -> (KeyV, ItemV) {
    match entry_for(s, x.0.name) {
        Some(it) => if it is Missing {
            x
        } else if x.1 is Missing {
            (fresh_key(x.0.name), put_anew(it, top))
        } else {
            (x.0, merged_item(x.1, it))
        },
        None => x,
    }
}

/// The new entries of `s` whose names are not among `names`, in their order,
/// each under a fresh key.
pub open spec fn added_entries(names: Seq<Seq<char>>, s: Seq<(KeyV, ItemV)>, top: bool) -> Seq<(KeyV, ItemV)>
    decreases s.len(),
{
    if s.len() == 0 {
        Seq::empty()
    } else {
        let head: Seq<(KeyV, ItemV)> = if !(s[0].1 is Missing) && !names.contains(s[0].0.name) {
            seq![(fresh_key(s[0].0.name), put_anew(s[0].1, top))]
        } else {
            Seq::empty()
        };
        head + added_entries(names, s.subrange(1, s.len() as int), top)
    }
}

proof fn lemma_find_name_contains(names: Seq<Seq<char>>, name: Seq<char>, j: int)
    requires
        0 <= j <= names.len(),
    ensures
        find_name(names, name, j) < names.len() <==> exists|k: int| j <= k < names.len() && names[k] == name,
        find_name(names, name, j) < names.len() ==> names[find_name(names, name, j)] == name,
    decreases names.len() - j,
{
    if j < names.len() && names[j] != name {
        lemma_find_name_contains(names, name, j + 1);
        if exists|k: int| j <= k < names.len() && names[k] == name {
            let k = choose|k: int| j <= k < names.len() && names[k] == name;
            assert(j + 1 <= k);
        }
    }
}

proof fn lemma_entry_for_absent(s: Seq<(KeyV, ItemV)>, name: Seq<char>)
    requires
        forall|k: int| 0 <= k < s.len() ==> (#[trigger] s[k]).0.name != name,
    ensures
        entry_for(s, name) is None,
    decreases s.len(),
{
    if s.len() > 0 {
        let s1 = s.subrange(1, s.len() as int);
        assert forall|k: int| 0 <= k < s1.len() implies (#[trigger] s1[k]).0.name != name by {
            assert(s1[k] == s[k + 1]);
        }
        lemma_entry_for_absent(s1, name);
    }
}

proof fn lemma_added_entries_names(n1: Seq<Seq<char>>, n2: Seq<Seq<char>>, s: Seq<(KeyV, ItemV)>, top: bool)
    requires
        forall|k: int| 0 <= k < s.len() ==> (n1.contains((#[trigger] s[k]).0.name) <==> n2.contains(s[k].0.name)),
    ensures
        added_entries(n1, s, top) == added_entries(n2, s, top),
    decreases s.len(),
{
    if s.len() > 0 {
        let s1 = s.subrange(1, s.len() as int);
        assert(n1.contains(s[0].0.name) <==> n2.contains(s[0].0.name));
        assert forall|k: int| 0 <= k < s1.len() implies (n1.contains((#[trigger] s1[k]).0.name) <==> n2.contains(
            s1[k].0.name,
        )) by {
            assert(s1[k] == s[k + 1]);
        }
        lemma_added_entries_names(n1, n2, s1, top);
    }
}

/// One step of a merge, at the top of the document or below it.
pub open spec fn put_any(e: Seq<(KeyV, ItemV)>, n: (KeyV, ItemV), top: bool) -> Seq<(KeyV, ItemV)> {
    if top {
        put_top(e, n)
    } else {
        put_item(e, n)
    }
}

/// A whole merge, at the top of the document or below it.
pub open spec fn merge_any(e: Seq<(KeyV, ItemV)>, s: Seq<(KeyV, ItemV)>, top: bool) -> Seq<(KeyV, ItemV)> {
    if top {
        merge_top_into(e, s)
    } else {
        merge_items_into(e, s)
    }
}

proof fn lemma_merge_per_key(e: Seq<(KeyV, ItemV)>, s: Seq<(KeyV, ItemV)>, top: bool)
    requires
        distinct_names(e),
        distinct_names(s),
    ensures
        merge_any(e, s, top) == Seq::new(e.len(), |i: int| merged_entry(e[i], s, top)) + added_entries(
            names_of(e),
            s,
            top,
        ),
    decreases s.len(),
{
    let want = Seq::new(e.len(), |i: int| merged_entry(e[i], s, top)) + added_entries(names_of(e), s, top);
    if s.len() == 0 {
        assert(merge_any(e, s, top) =~= want);
    } else {
        let s0 = s[0];
        let s1 = s.subrange(1, s.len() as int);
        let e1 = put_any(e, s0, top);
        assert(merge_any(e, s, top) == merge_any(e1, s1, top));
        assert(distinct_names(s1)) by {
            assert forall|i: int, j: int| 0 <= i < j < s1.len() implies s1[i].0.name != s1[j].0.name by {
                assert(s1[i] == s[i + 1] && s1[j] == s[j + 1]);
            }
        }
        assert forall|k: int| 0 <= k < s1.len() implies (#[trigger] s1[k]).0.name != s0.0.name by {
            assert(s1[k] == s[k + 1]);
        }
        lemma_entry_for_absent(s1, s0.0.name);
        let names = names_of(e);
        let idx = find_name(names, s0.0.name, 0);
        lemma_find_name_contains(names, s0.0.name, 0);
        lemma_find_name(names, s0.0.name, 0);
        assert(names.contains(s0.0.name) <==> idx < e.len()) by {
            if names.contains(s0.0.name) {
                let k = choose|k: int| 0 <= k < names.len() && names[k] == s0.0.name;
                assert(exists|k: int| 0 <= k < names.len() && names[k] == s0.0.name);
            }
            if idx < e.len() {
                assert(names[idx] == s0.0.name);
            }
        }
        // Entries of `e` other than the one named like `s0` are untouched by
        // the step, and their lookup in `s` is their lookup in `s1`.
        assert forall|i: int| 0 <= i < e.len() && e[i].0.name != s0.0.name implies merged_entry(e[i], s, top)
            == merged_entry(e[i], s1, top) by {
            assert(entry_for(s, e[i].0.name) == entry_for(s1, e[i].0.name));
        }
        if s0.1 is Missing {
            assert(e1 == e);
            lemma_merge_per_key(e1, s1, top);
            assert forall|i: int| 0 <= i < e.len() implies merged_entry(e[i], s, top) == merged_entry(e[i], s1, top) by {
                if e[i].0.name == s0.0.name {
                    assert(entry_for(s, e[i].0.name) == Some(s0.1));
                }
            }
            assert(added_entries(names, s, top) =~= added_entries(names, s1, top));
            assert(merge_any(e, s, top) =~= want);
        } else if idx < e.len() {
            let newe = if !(e[idx].1 is Missing) {
                (e[idx].0, merged_item(e[idx].1, s0.1))
            } else {
                (fresh_key(s0.0.name), put_anew(s0.1, top))
            };
            assert(names[idx] == e[idx].0.name);
            assert(newe.0.name == e[idx].0.name);
            assert(e1 == e.update(idx, newe));
            assert(names_of(e1) =~= names);
            assert(distinct_names(e1)) by {
                assert forall|i: int, j: int| 0 <= i < j < e1.len() implies e1[i].0.name != e1[j].0.name by {
                    assert(e1[i].0.name == e[i].0.name && e1[j].0.name == e[j].0.name);
                }
            }
            lemma_merge_per_key(e1, s1, top);
            assert forall|i: int| 0 <= i < e.len() implies merged_entry(e1[i], s1, top) == merged_entry(e[i], s, top) by {
                if i == idx {
                    assert(entry_for(s, e[i].0.name) == Some(s0.1));
                } else {
                    assert(e[i].0.name != e[idx].0.name);
                }
            }
            assert(added_entries(names, s, top) =~= added_entries(names, s1, top));
            assert(merge_any(e, s, top) =~= want);
        } else {
            let newe = (fresh_key(s0.0.name), put_anew(s0.1, top));
            assert(e1 == e.push(newe));
            assert(names_of(e1) =~= names.push(s0.0.name));
            assert(distinct_names(e1)) by {
                assert forall|i: int, j: int| 0 <= i < j < e1.len() implies e1[i].0.name != e1[j].0.name by {
                    if j == e.len() {
                        assert(names[i] == e[i].0.name);
                    }
                }
            }
            lemma_merge_per_key(e1, s1, top);
            assert forall|k: int| 0 <= k < s1.len() implies (names_of(e1).contains((#[trigger] s1[k]).0.name)
                <==> names.contains(s1[k].0.name)) by {
                if names_of(e1).contains(s1[k].0.name) {
                    let m = choose|m: int| 0 <= m < names_of(e1).len() && names_of(e1)[m] == s1[k].0.name;
                    if m < e.len() {
                        assert(names[m] == s1[k].0.name);
                    }
                }
                if names.contains(s1[k].0.name) {
                    let m = choose|m: int| 0 <= m < names.len() && names[m] == s1[k].0.name;
                    assert(names_of(e1)[m] == s1[k].0.name);
                }
            }
            lemma_added_entries_names(names_of(e1), names, s1, top);
            assert(merged_entry(newe, s1, top) == newe);
            assert forall|i: int| 0 <= i < e.len() implies merged_entry(e1[i], s1, top) == merged_entry(e[i], s, top) by {
                assert(e1[i] == e[i]);
                assert(names[i] == e[i].0.name);
            }
            assert(added_entries(names, s, top) =~= seq![newe] + added_entries(names, s1, top));
            assert(merge_any(e, s, top) =~= want);
        }
    }
}

/// A table merged into a table keeps its own header, comments and flags,
/// and its entries key by key: an entry that the new table also names is
/// merged with the new one in place, under its own key (or replaced under a
/// fresh key where it held nothing); an entry the new table does not name is
/// kept as it was; and the new table's other entries follow, in their order,
/// under fresh keys. The same holds again inside each merged entry.
pub proof fn lemma_table_merge_per_key(tt: TableV, st: TableV)
    requires
        distinct_names(tt.entries),
        distinct_names(st.entries),
    ensures
        merged_item(ItemV::Table(tt), ItemV::Table(st)) == ItemV::Table(
            TableV {
                entries: Seq::new(tt.entries.len(), |i: int| merged_entry(tt.entries[i], st.entries, false))
                    + added_entries(names_of(tt.entries), st.entries, false),
                decor: tt.decor,
                implicit: tt.implicit,
                dotted: tt.dotted,
                position: tt.position,
            },
        ),
{
    lemma_merge_per_key(tt.entries, st.entries, false);
}

/// Saving merges key by key at the top of the document: each top-level
/// entry that the new settings also name is merged in place under its own
/// key, the others are kept as they were, and new top-level entries follow in
/// their order, a new table being implicit; below the top, each merged table
/// follows `lemma_table_merge_per_key`.
pub proof fn lemma_save_per_key(d: DocumentV, n: DocumentV)
    requires
        distinct_names(d.root.entries),
        distinct_names(n.root.entries),
    ensures
        merged_document(d, n).root.entries == Seq::new(
            d.root.entries.len(),
            |i: int| merged_entry(d.root.entries[i], n.root.entries, true),
        ) + added_entries(names_of(d.root.entries), n.root.entries, true),
{
    lemma_merge_per_key(d.root.entries, n.root.entries, true);
}

proof fn lemma_with_decor_facts(v: ValueV, d1: DecorV, d2: DecorV)
    ensures
        value_decor(with_decor(v, d1)) == d1,
        with_decor(with_decor(v, d1), d2) == with_decor(v, d2),
        with_decor(v, value_decor(v)) == v,
{
    match v {
        ValueV::Scalar { .. } => {},
        ValueV::Array { .. } => {},
        ValueV::Inline { .. } => {},
    }
}

/// A new array written over a value keeps its elements in their order: the
/// written array has as many elements as the new one, and its `i`-th element
/// is the new array's `i`-th element, the same value with the same comment
/// after it, only moved to a line of its own.
pub proof fn lemma_replaced_array_keeps_order(old: ValueV, new: ValueV)
    requires
        new is Array,
    ensures
        replaced_value(old, new) is Array,
        replaced_value(old, new)->Array_items.len() == new->Array_items.len(),
        forall|i: int| 0 <= i < new->Array_items.len() ==> {
            let w = #[trigger] replaced_value(old, new)->Array_items[i];
            let v = new->Array_items[i];
            &&& with_decor(w, value_decor(v)) == v
            &&& value_decor(w).prefix == Some("\n    "@)
            &&& value_decor(w).suffix == value_decor(v).suffix
        },
{
    let items = new->Array_items;
    assert forall|i: int| 0 <= i < items.len() implies {
        let w = #[trigger] replaced_value(old, new)->Array_items[i];
        let v = items[i];
        &&& with_decor(w, value_decor(v)) == v
        &&& value_decor(w).prefix == Some("\n    "@)
        &&& value_decor(w).suffix == value_decor(v).suffix
    } by {
        let v = items[i];
        let d = DecorV { prefix: Some("\n    "@), suffix: value_decor(v).suffix };
        lemma_with_decor_facts(v, d, value_decor(v));
    }
}

} // verus!
