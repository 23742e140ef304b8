//! TOML documents, kept in `toml_edit` so that an edit leaves the rest of a file as it was written.

use crate::text;
use vstd::prelude::*;
use vstd::string::*;

verus! {

/// What stands under a name of a table.
pub enum TomlItem {
    Text(Seq<char>),
    Integer(i64),
    /// A floating-point number, as it is displayed.
    Float(Seq<char>),
    Boolean(bool),
    /// Any other value (a date, an array, an inline table), as it is displayed.
    Other(Seq<char>),
    Table(Seq<(Seq<char>, TomlItem)>),
    Tables(Seq<Seq<(Seq<char>, TomlItem)>>),
}

/// The names of a table and what stands under each, in the order of the table.
pub type Entries = Seq<(Seq<char>, TomlItem)>;

/// The names.
pub open spec fn names(s: Entries) -> Seq<Seq<char>> {
    s.map_values(|e: (Seq<char>, TomlItem)| e.0)
}

/// What stands under `name`.
pub open spec fn find(s: Entries, name: Seq<char>) -> Option<TomlItem>
    decreases s.len(),
{
    if s.len() == 0 {
        None
    } else if s.last().0 == name {
        Some(s.last().1)
    } else {
        find(s.drop_last(), name)
    }
}

/// The table with `value` under `name`: in the place of what stood there, or at the end.
pub open spec fn put(s: Entries, name: Seq<char>, value: TomlItem) -> Entries
    decreases s.len(),
{
    if s.len() == 0 {
        seq![(name, value)]
    } else if s.last().0 == name {
        s.drop_last().push((name, value))
    } else if find(s.drop_last(), name) is Some {
        put(s.drop_last(), name, value).push(s.last())
    } else {
        s.push((name, value))
    }
}

/// The table without `name`.
pub open spec fn without(s: Entries, name: Seq<char>) -> Entries {
    s.filter(|e: (Seq<char>, TomlItem)| e.0 != name)
}

/// What was put is found, and what stands under the other names is untouched.
pub proof fn lemma_put_find(s: Entries, name: Seq<char>, value: TomlItem, other: Seq<char>)
    ensures
        find(put(s, name, value), name) == Some(value),
        other != name ==> find(put(s, name, value), other) == find(s, other),
    decreases s.len(),
{
    let t = put(s, name, value);
    if s.len() == 0 {
        assert(t.drop_last() =~= Seq::empty());
        assert(find(t.drop_last(), other) is None);
    } else if s.last().0 == name {
        assert(t.drop_last() =~= s.drop_last());
    } else if find(s.drop_last(), name) is Some {
        lemma_put_find(s.drop_last(), name, value, other);
        assert(t.drop_last() =~= put(s.drop_last(), name, value));
    } else {
        assert(t.drop_last() =~= s);
    }
}

/// `toml_edit::DocumentMut`.
#[verifier::external_type_specification]
#[verifier::external_body]
pub struct ExDocumentMut(toml_edit::DocumentMut);

/// What a document holds.
pub uninterp spec fn contents(d: toml_edit::DocumentMut) -> Seq<(Seq<char>, TomlItem)>;

/// How a document is written.
pub uninterp spec fn written(d: toml_edit::DocumentMut) -> Seq<char>;

/// What `toml_edit` reads in a text, where the text is TOML.
pub uninterp spec fn read(text: Seq<char>) -> Option<Seq<(Seq<char>, TomlItem)>>;

/// How `toml_edit` displays an array of these strings.
pub uninterp spec fn array_form(items: Seq<Seq<char>>) -> Seq<char>;

/// A value of a table that is neither a table nor an array of tables.
pub enum Scalar {
    Text(String),
    Integer(i64),
    Float(String),
    Boolean(bool),
    Other(String),
}

impl View for Scalar {
    type V = TomlItem;

    open spec fn view(&self) -> TomlItem {
        match *self {
            Scalar::Text(s) => TomlItem::Text(s@),
            Scalar::Integer(n) => TomlItem::Integer(n),
            Scalar::Float(s) => TomlItem::Float(s@),
            Scalar::Boolean(b) => TomlItem::Boolean(b),
            Scalar::Other(s) => TomlItem::Other(s@),
        }
    }
}

/// What kind of thing stands under a name.
#[derive(Debug, Copy, Clone, PartialEq, Eq, Structural)]
pub enum Kind {
    Nothing,
    Value,
    Table,
    /// An array of tables, and how many there are.
    Tables(usize),
}

/// The kind of what is found.
pub open spec fn is_kind(k: Kind, item: Option<TomlItem>) -> bool {
    match k {
        Kind::Nothing => item is None,
        Kind::Table => item matches Some(TomlItem::Table(_)),
        Kind::Tables(n) => item matches Some(TomlItem::Tables(t)) && t.len() == n,
        Kind::Value => item matches Some(i) && !(i is Table) && !(i is Tables),
    }
}

/// The entries of the table under `name`.
pub open spec fn table_in(s: Entries, name: Seq<char>) -> Option<Entries> {
    match find(s, name) {
        Some(TomlItem::Table(t)) => Some(t),
        _ => None,
    }
}

/// The value at `key` of the table under `name`, where it is no table itself.
pub open spec fn value_in(s: Entries, name: Seq<char>, key: Seq<char>) -> Option<TomlItem> {
    match table_in(s, name) {
        Some(t) => match find(t, key) {
            Some(TomlItem::Table(_)) => None,
            Some(TomlItem::Tables(_)) => None,
            found => found,
        },
        None => None,
    }
}

/// `toml_edit::DocumentMut::from_str`.
#[verifier::external_body]
pub(crate) fn parse(s: &str) -> (r: Option<toml_edit::DocumentMut>)
    ensures
        r is Some <==> read(s@) is Some,
        r matches Some(d) ==> read(s@) == Some(contents(d)),
{
    s.parse().ok()
}

/// `toml_edit::DocumentMut::to_string`: the text, by a name. That it reads back with the same entries
/// is not said. An array is held by how it is displayed, with the blank before it where it was read and
/// without where it was put in, and `toml_edit` does not keep the order of dotted keys.
#[verifier::external_body]
pub(crate) fn write(d: &toml_edit::DocumentMut) -> (r: String)
    ensures
        r@ == written(*d),
{
    d.to_string()
}

/// `toml_edit::Table::iter`, on the root: the names in their order, each once.
#[verifier::external_body]
pub(crate) fn root_names(d: &toml_edit::DocumentMut) -> (r: Vec<String>)
    ensures
        text::views(r@) == names(contents(*d)),
        text::views(r@).no_duplicates(),
{
    d.iter().map(|(k, _)| k.to_string()).collect()
}

/// `toml_edit::Table::get` and `toml_edit::Item::as_table`, then `toml_edit::Table::iter`: the names
/// of the table under `name` in their order.
#[verifier::external_body]
pub(crate) fn table_names(d: &toml_edit::DocumentMut, name: &str) -> (r: Option<Vec<String>>)
    ensures
        r is Some <==> table_in(contents(*d), name@) is Some,
        r matches Some(v) ==> text::views(v@) == names(table_in(contents(*d), name@)->0),
{
    d.get(name).and_then(|i| i.as_table()).map(|t| t.iter().map(|(k, _)| k.to_string()).collect())
}

/// `toml_edit::Table::get` twice and `toml_edit::Item::as_value`, with the variants of
/// `toml_edit::Value` told apart.
#[verifier::external_body]
pub(crate) fn value_at(d: &toml_edit::DocumentMut, name: &str, key: &str) -> (r: Option<Scalar>)
    ensures
        r is Some <==> value_in(contents(*d), name@, key@) is Some,
        r matches Some(v) ==> value_in(contents(*d), name@, key@) == Some(v@),
{
    match d.get(name)?.as_table()?.get(key)?.as_value()? {
        toml_edit::Value::String(s) => Some(Scalar::Text(s.value().to_string())),
        toml_edit::Value::Integer(i) => Some(Scalar::Integer(*i.value())),
        toml_edit::Value::Float(f) => Some(Scalar::Float(f.value().to_string())),
        toml_edit::Value::Boolean(b) => Some(Scalar::Boolean(*b.value())),
        other => Some(Scalar::Other(other.to_string())),
    }
}

/// `toml_edit::Table::get`, with the variants of `toml_edit::Item` told apart.
#[verifier::external_body]
pub(crate) fn kind_at(d: &toml_edit::DocumentMut, name: &str) -> (r: Kind)
    ensures
        is_kind(r, find(contents(*d), name@)),
{
    match d.get(name) {
        None => Kind::Nothing,
        Some(toml_edit::Item::None) => Kind::Nothing,
        Some(toml_edit::Item::Value(_)) => Kind::Value,
        Some(toml_edit::Item::Table(_)) => Kind::Table,
        Some(toml_edit::Item::ArrayOfTables(a)) => Kind::Tables(a.len()),
    }
}

/// `toml_edit::Table::insert`, on the root, of an empty table.
#[verifier::external_body]
pub(crate) fn insert_table(d: &mut toml_edit::DocumentMut, name: &str)
    ensures
        contents(*final(d)) == put(contents(*old(d)), name@, TomlItem::Table(Seq::empty())),
{
    d.insert(name, toml_edit::Item::Table(toml_edit::Table::new()));
}

/// `toml_edit::Table::insert`, of a string, in the table under `name`.
#[verifier::external_body]
pub(crate) fn insert_text(d: &mut toml_edit::DocumentMut, name: &str, key: &str, value: &str)
    requires
        table_in(contents(*old(d)), name@) is Some,
    ensures
        contents(*final(d)) == put(
            contents(*old(d)),
            name@,
            TomlItem::Table(
                put(table_in(contents(*old(d)), name@)->0, key@, TomlItem::Text(value@)),
            ),
        ),
{
    if let Some(t) = d.get_mut(name).and_then(|i| i.as_table_mut()) {
        t.insert(key, toml_edit::value(value));
    }
}

/// `toml_edit::Table::insert`, of an array of strings that `toml_edit::Array::from_iter` made, in
/// the table under `name`.
#[verifier::external_body]
pub(crate) fn insert_array(
    d: &mut toml_edit::DocumentMut,
    name: &str,
    key: &str,
    items: &[String],
)
    requires
        table_in(contents(*old(d)), name@) is Some,
    ensures
        contents(*final(d)) == put(
            contents(*old(d)),
            name@,
            TomlItem::Table(
                put(
                    table_in(contents(*old(d)), name@)->0,
                    key@,
                    TomlItem::Other(array_form(text::views(items@))),
                ),
            ),
        ),
{
    if let Some(t) = d.get_mut(name).and_then(|i| i.as_table_mut()) {
        t.insert(key, toml_edit::value(toml_edit::Array::from_iter(items.iter().map(|s| s.as_str()))));
    }
}

/// `toml_edit::Table::remove`, on the root.
#[verifier::external_body]
pub(crate) fn remove(d: &mut toml_edit::DocumentMut, name: &str)
    ensures
        contents(*final(d)) == without(contents(*old(d)), name@),
{
    d.remove(name);
}

/// `toml_edit::Table::insert`, of a string, in the first table of the array under `name`.
#[verifier::external_body]
pub(crate) fn insert_in_first(d: &mut toml_edit::DocumentMut, name: &str, key: &str, value: &str)
    requires
        find(contents(*old(d)), name@) matches Some(TomlItem::Tables(t)) && t.len() > 0,
    ensures
        contents(*final(d)) == put(
            contents(*old(d)),
            name@,
            TomlItem::Tables(
                (find(contents(*old(d)), name@)->0->Tables_0).update(
                    0,
                    put(
                        (find(contents(*old(d)), name@)->0->Tables_0)[0],
                        key@,
                        TomlItem::Text(value@),
                    ),
                ),
            ),
        ),
{
    if let Some(a) = d.get_mut(name).and_then(|i| i.as_array_of_tables_mut()) {
        if let Some(t) = a.get_mut(0) {
            t.insert(key, toml_edit::value(value));
        }
    }
}

/// `toml_edit::Table::insert`, on the root, of an array with one table of two strings, made by
/// `toml_edit::Table::insert` and `toml_edit::ArrayOfTables::push`.
#[verifier::external_body]
pub(crate) fn insert_tables(
    d: &mut toml_edit::DocumentMut,
    name: &str,
    first: (&str, &str),
    second: (&str, &str),
)
    requires
        first.0@ != second.0@,
    ensures
        contents(*final(d)) == put(
            contents(*old(d)),
            name@,
            TomlItem::Tables(
                seq![
                    seq![
                        (first.0@, TomlItem::Text(first.1@)),
                        (second.0@, TomlItem::Text(second.1@)),
                    ],
                ],
            ),
        ),
{
    let mut table = toml_edit::Table::new();
    table.insert(first.0, toml_edit::value(first.1));
    table.insert(second.0, toml_edit::value(second.1));
    let mut array = toml_edit::ArrayOfTables::new();
    array.push(table);
    d.insert(name, toml_edit::Item::ArrayOfTables(array));
}

/// What is put under a name is found there, and everything else as it was.
pub proof fn law_what_is_put_is_found(s: Entries, name: Seq<char>, value: TomlItem, other: Seq<char>)
    ensures
        find(put(s, name, value), name) == Some(value),
        other != name ==> find(put(s, name, value), other) == find(s, other),
        find(s, name) is Some ==> put(s, name, value).len() == s.len(),
        find(s, name) is None ==> put(s, name, value) == s.push((name, value)),
    decreases s.len(),
{
    if s.len() > 0 {
        let d = s.drop_last();
        law_what_is_put_is_found(d, name, value, other);
        if s.last().0 == name {
            assert(d.push((name, value)).drop_last() =~= d);
        } else if find(d, name) is Some {
            assert(put(d, name, value).push(s.last()).drop_last() =~= put(d, name, value));
        } else {
            assert(s.push((name, value)).drop_last() =~= s);
        }
    } else {
        assert(seq![(name, value)].drop_last() =~= Seq::<(Seq<char>, TomlItem)>::empty());
        assert(s =~= Seq::empty());
        assert(s.push((name, value)) =~= seq![(name, value)]);
    }
}

/// A value is found in its table: under its key, where it is no table itself.
pub proof fn law_a_value_is_found_in_its_table(
    s: Entries,
    name: Seq<char>,
    t: Entries,
    key: Seq<char>,
)
    requires
        find(s, name) == Some(TomlItem::Table(t)),
    ensures
        table_in(s, name) == Some(t),
        find(t, key) matches Some(v) ==> (!(v is Table) && !(v is Tables) ==> value_in(s, name, key)
            == Some(v)),
        find(t, key) matches Some(v) ==> (v is Table || v is Tables ==> value_in(s, name, key) is None),
        find(t, key) is None ==> value_in(s, name, key) is None,
{
}

} // verus!
