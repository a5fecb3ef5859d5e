//! Editing the text of a configuration file: appending a link or patch
//! entry, and adding a profile or tags to one, keeping the rest of the text.
use crate::action::str_views;
use crate::cmd_add::{
    among, entry_views, find_entry, first_non_text, has_entry, in_list, named, opt_views, profile_additions,
};
use crate::errors::{AddError, ConfigError};
use crate::sorted::lex_lt;
use crate::tags::{Tag, opt_view};
use crate::text;
use vstd::prelude::*;

verus! {

/// The kind of a TOML item, as `toml_edit` tells them apart.
#[derive(Debug, Clone, Copy, PartialEq, Eq, Structural)]
pub enum TomlKind {
    Missing,
    Str,
    Integer,
    Float,
    Boolean,
    Datetime,
    Array,
    InlineTable,
    Table,
    ArrayOfTables,
}

/// The name `toml_edit`'s `type_name` gives an item of this kind.
pub open spec fn kind_text(k: TomlKind) -> Seq<char> {
    match k {
        TomlKind::Missing => "none"@,
        TomlKind::Str => "string"@,
        TomlKind::Integer => "integer"@,
        TomlKind::Float => "float"@,
        TomlKind::Boolean => "boolean"@,
        TomlKind::Datetime => "datetime"@,
        TomlKind::Array => "array"@,
        TomlKind::InlineTable => "inline table"@,
        TomlKind::Table => "table"@,
        TomlKind::ArrayOfTables => "array of tables"@,
    }
}

/// The name of a kind of item (see `kind_text`).
pub fn kind_name(k: TomlKind) -> (r: String)
    ensures
        r@ == kind_text(k),
{
    match k {
        TomlKind::Missing => text::owned("none"),
        TomlKind::Str => text::owned("string"),
        TomlKind::Integer => text::owned("integer"),
        TomlKind::Float => text::owned("float"),
        TomlKind::Boolean => text::owned("boolean"),
        TomlKind::Datetime => text::owned("datetime"),
        TomlKind::Array => text::owned("array"),
        TomlKind::InlineTable => text::owned("inline table"),
        TomlKind::Table => text::owned("table"),
        TomlKind::ArrayOfTables => text::owned("array of tables"),
    }
}

#[verifier::external_type_specification]
#[verifier::external_body]
pub struct ExTomlValue(toml_edit::Value);

#[verifier::external_type_specification]
#[verifier::external_body]
pub struct ExTomlItem(toml_edit::Item);

/// The kind of a `toml_edit` value, one arm per variant.
#[verifier::external_body]
fn value_kind(v: &toml_edit::Value) -> TomlKind {
    match v {
        toml_edit::Value::String(..) => TomlKind::Str,
        toml_edit::Value::Integer(..) => TomlKind::Integer,
        toml_edit::Value::Float(..) => TomlKind::Float,
        toml_edit::Value::Boolean(..) => TomlKind::Boolean,
        toml_edit::Value::Datetime(..) => TomlKind::Datetime,
        toml_edit::Value::Array(..) => TomlKind::Array,
        toml_edit::Value::InlineTable(..) => TomlKind::InlineTable,
    }
}

/// The kind of a `toml_edit` item, one arm per variant.
#[verifier::external_body]
fn item_kind(i: &toml_edit::Item) -> TomlKind {
    match i {
        toml_edit::Item::None => TomlKind::Missing,
        toml_edit::Item::Value(v) => value_kind(v),
        toml_edit::Item::Table(..) => TomlKind::Table,
        toml_edit::Item::ArrayOfTables(..) => TomlKind::ArrayOfTables,
    }
}

/// An empty item to put under a key.
#[derive(Debug, Clone, Copy, PartialEq, Eq, Structural)]
pub enum NewItem {
    Table,
    Array,
}

/// The empty `toml_edit` item of a kind, one arm per variant.
#[verifier::external_body]
fn new_item(n: NewItem) -> toml_edit::Item {
    match n {
        NewItem::Table => toml_edit::Item::Table(toml_edit::Table::new()),
        NewItem::Array => toml_edit::Item::Value(toml_edit::Value::Array(toml_edit::Array::new())),
    }
}

/// The kind of the item `toml_edit` gets under `key` in the document read
/// from `text` (`Missing` where there is none), or the reading error.
pub uninterp spec fn toml_kind_at(text: Seq<char>, key: Seq<char>) -> Result<TomlKind, Seq<char>>;

/// The kind of the item under `key` of the table-like item under `table`
/// (`Missing` where either is missing or `table` holds no table), or the
/// reading error.
pub uninterp spec fn toml_kind_in(text: Seq<char>, table: Seq<char>, key: Seq<char>) -> Result<TomlKind, Seq<char>>;

/// For each table of the array of tables under `key`, the string values of
/// its fields `f1` and `f2` (none where a field is missing or no string);
/// none where `key` holds no array of tables; or the reading error.
pub uninterp spec fn toml_table_fields(text: Seq<char>, key: Seq<char>, f1: Seq<char>, f2: Seq<char>) -> Result<
    Option<Seq<(Option<Seq<char>>, Option<Seq<char>>)>>,
    Seq<char>,
>;

/// For each value of the array under `key` of the table under `table`, its
/// string (where it is one) and its kind; none where there is no such
/// array; or the reading error.
pub uninterp spec fn toml_array_items_in(text: Seq<char>, table: Seq<char>, key: Seq<char>) -> Result<
    Option<Seq<(Option<Seq<char>>, TomlKind)>>,
    Seq<char>,
>;

/// The document text after `toml_edit` inserts the empty item `item` under
/// `key`, or the reading error.
pub uninterp spec fn toml_inserted(text: Seq<char>, key: Seq<char>, item: NewItem) -> Result<Seq<char>, Seq<char>>;

/// The document text after `toml_edit` inserts the empty item `item` under
/// `key` of the table-like item under `table` (none where there is no such
/// table), or the reading error.
pub uninterp spec fn toml_inserted_in(text: Seq<char>, table: Seq<char>, key: Seq<char>, item: NewItem) -> Result<
    Option<Seq<char>>,
    Seq<char>,
>;

/// The document text after `toml_edit` pushes the inline table read from
/// `entry` onto the array of tables under `key` (none where `entry` is no
/// inline table or `key` holds no array of tables), or the reading error of
/// the document or of the entry.
pub uninterp spec fn toml_table_pushed(text: Seq<char>, key: Seq<char>, entry: Seq<char>) -> Result<
    Option<Seq<char>>,
    Seq<char>,
>;

/// The document text after `toml_edit` inserts, under `key`, an array of
/// tables holding the inline table read from `entry` (none where `entry` is
/// no inline table), or the reading error of the document or of the entry.
pub uninterp spec fn toml_tables_started(text: Seq<char>, key: Seq<char>, entry: Seq<char>) -> Result<
    Option<Seq<char>>,
    Seq<char>,
>;

/// The document text after `toml_edit` pushes the string `value` onto the
/// array under `key` of the table under `table` (none where there is no such
/// array), or the reading error.
pub uninterp spec fn toml_string_pushed_in(text: Seq<char>, table: Seq<char>, key: Seq<char>, value: Seq<char>) -> Result<
    Option<Seq<char>>,
    Seq<char>,
>;

/// Reads a document and gets the item under `key` (see `toml_kind_at`).
#[verifier::external_body]
fn kind_at(text: &str, key: &str) -> (r: Result<TomlKind, String>)
    ensures
        match r {
            Ok(k) => toml_kind_at(text@, key@) == Ok::<TomlKind, Seq<char>>(k),
            Err(m) => toml_kind_at(text@, key@) == Err::<TomlKind, Seq<char>>(m@),
        },
{
    let doc = text.parse::<toml_edit::DocumentMut>().map_err(|e| e.to_string())?;
    Ok(doc.get(key).map(item_kind).unwrap_or(TomlKind::Missing))
}

/// Reads a document and gets the item under `table`, then under `key` (see `toml_kind_in`).
#[verifier::external_body]
fn kind_in(text: &str, table: &str, key: &str) -> (r: Result<TomlKind, String>)
    ensures
        match r {
            Ok(k) => toml_kind_in(text@, table@, key@) == Ok::<TomlKind, Seq<char>>(k),
            Err(m) => toml_kind_in(text@, table@, key@) == Err::<TomlKind, Seq<char>>(m@),
        },
{
    let doc = text.parse::<toml_edit::DocumentMut>().map_err(|e| e.to_string())?;
    let item = doc.get(table).and_then(|t| t.as_table_like()).and_then(|t| t.get(key));
    Ok(item.map(item_kind).unwrap_or(TomlKind::Missing))
}

/// Reads a document and the fields `f1`, `f2` of each table under `key` (see `toml_table_fields`).
#[verifier::external_body]
fn table_fields(text: &str, key: &str, f1: &str, f2: &str) -> (r: Result<Option<Vec<(Option<String>, Option<String>)>>, String>)
    ensures
        match r {
            Ok(Some(v)) => toml_table_fields(text@, key@, f1@, f2@) == Ok::<_, Seq<char>>(Some(entry_views(v@))),
            Ok(None) => toml_table_fields(text@, key@, f1@, f2@) == Ok::<Option<Seq<(Option<Seq<char>>, Option<Seq<char>>)>>, Seq<char>>(None),
            Err(m) => toml_table_fields(text@, key@, f1@, f2@) == Err::<Option<Seq<(Option<Seq<char>>, Option<Seq<char>>)>>, Seq<char>>(m@),
        },
{
    let doc = text.parse::<toml_edit::DocumentMut>().map_err(|e| e.to_string())?;
    let field = |t: &toml_edit::Table, f: &str| t.get(f).and_then(|i| i.as_str()).map(String::from);
    Ok(doc.get(key).and_then(|i| i.as_array_of_tables()).map(|a| a.iter().map(|t| (field(t, f1), field(t, f2))).collect()))
}

/// Reads a document and the values of the array under `table`, `key` (see `toml_array_items_in`).
#[verifier::external_body]
fn array_items_in(text: &str, table: &str, key: &str) -> (r: Result<Option<Vec<(Option<String>, TomlKind)>>, String>)
    ensures
        match r {
            Ok(Some(v)) => toml_array_items_in(text@, table@, key@) == Ok::<_, Seq<char>>(Some(profile_item_views(v@))),
            Ok(None) => toml_array_items_in(text@, table@, key@) == Ok::<Option<Seq<(Option<Seq<char>>, TomlKind)>>, Seq<char>>(None),
            Err(m) => toml_array_items_in(text@, table@, key@) == Err::<Option<Seq<(Option<Seq<char>>, TomlKind)>>, Seq<char>>(m@),
        },
{
    let doc = text.parse::<toml_edit::DocumentMut>().map_err(|e| e.to_string())?;
    let item = doc.get(table).and_then(|t| t.as_table_like()).and_then(|t| t.get(key));
    Ok(item.and_then(|i| i.as_array()).map(|a| a.iter().map(|v| (v.as_str().map(String::from), value_kind(v))).collect()))
}

/// Reads a document, inserts an empty item under `key`, writes it (see `toml_inserted`).
#[verifier::external_body]
fn insert_at(text: &str, key: &str, item: NewItem) -> (r: Result<String, String>)
    ensures
        match r {
            Ok(t) => toml_inserted(text@, key@, item) == Ok::<Seq<char>, Seq<char>>(t@),
            Err(m) => toml_inserted(text@, key@, item) == Err::<Seq<char>, Seq<char>>(m@),
        },
{
    let mut doc = text.parse::<toml_edit::DocumentMut>().map_err(|e| e.to_string())?;
    doc.insert(key, new_item(item));
    Ok(doc.to_string())
}

/// Reads a document, inserts an empty item under `key` of the table under
/// `table`, writes it (see `toml_inserted_in`).
#[verifier::external_body]
fn insert_in(text: &str, table: &str, key: &str, item: NewItem) -> (r: Result<Option<String>, String>)
    ensures
        match r {
            Ok(Some(t)) => toml_inserted_in(text@, table@, key@, item) == Ok::<Option<Seq<char>>, Seq<char>>(Some(t@)),
            Ok(None) => toml_inserted_in(text@, table@, key@, item) == Ok::<Option<Seq<char>>, Seq<char>>(None),
            Err(m) => toml_inserted_in(text@, table@, key@, item) == Err::<Option<Seq<char>>, Seq<char>>(m@),
        },
{
    let mut doc = text.parse::<toml_edit::DocumentMut>().map_err(|e| e.to_string())?;
    let Some(t) = doc.get_mut(table).and_then(|t| t.as_table_like_mut()) else { return Ok(None) };
    t.insert(key, new_item(item));
    Ok(Some(doc.to_string()))
}

/// Reads a document and an inline table, pushes the table onto the array of
/// tables under `key`, writes it (see `toml_table_pushed`).
#[verifier::external_body]
fn push_table(text: &str, key: &str, entry: &str) -> (r: Result<Option<String>, String>)
    ensures
        match r {
            Ok(Some(t)) => toml_table_pushed(text@, key@, entry@) == Ok::<Option<Seq<char>>, Seq<char>>(Some(t@)),
            Ok(None) => toml_table_pushed(text@, key@, entry@) == Ok::<Option<Seq<char>>, Seq<char>>(None),
            Err(m) => toml_table_pushed(text@, key@, entry@) == Err::<Option<Seq<char>>, Seq<char>>(m@),
        },
{
    let mut doc = text.parse::<toml_edit::DocumentMut>().map_err(|e| e.to_string())?;
    let value = entry.parse::<toml_edit::Value>().map_err(|e| e.to_string())?;
    let toml_edit::Value::InlineTable(t) = value else { return Ok(None) };
    let Some(arr) = doc.get_mut(key).and_then(|i| i.as_array_of_tables_mut()) else { return Ok(None) };
    arr.push(t.into_table());
    Ok(Some(doc.to_string()))
}

/// Reads a document and an inline table, inserts an array of tables holding
/// it under `key`, writes it (see `toml_tables_started`).
#[verifier::external_body]
fn start_tables(text: &str, key: &str, entry: &str) -> (r: Result<Option<String>, String>)
    ensures
        match r {
            Ok(Some(t)) => toml_tables_started(text@, key@, entry@) == Ok::<Option<Seq<char>>, Seq<char>>(Some(t@)),
            Ok(None) => toml_tables_started(text@, key@, entry@) == Ok::<Option<Seq<char>>, Seq<char>>(None),
            Err(m) => toml_tables_started(text@, key@, entry@) == Err::<Option<Seq<char>>, Seq<char>>(m@),
        },
{
    let mut doc = text.parse::<toml_edit::DocumentMut>().map_err(|e| e.to_string())?;
    let value = entry.parse::<toml_edit::Value>().map_err(|e| e.to_string())?;
    let toml_edit::Value::InlineTable(t) = value else { return Ok(None) };
    let mut arr = toml_edit::ArrayOfTables::new();
    arr.push(t.into_table());
    doc.insert(key, toml_edit::Item::ArrayOfTables(arr));
    Ok(Some(doc.to_string()))
}

/// Reads a document, pushes a string onto the array under `table`, `key`,
/// writes it (see `toml_string_pushed_in`).
#[verifier::external_body]
fn push_string_in(text: &str, table: &str, key: &str, value: &str) -> (r: Result<Option<String>, String>)
    ensures
        match r {
            Ok(Some(t)) => toml_string_pushed_in(text@, table@, key@, value@) == Ok::<Option<Seq<char>>, Seq<char>>(Some(t@)),
            Ok(None) => toml_string_pushed_in(text@, table@, key@, value@) == Ok::<Option<Seq<char>>, Seq<char>>(None),
            Err(m) => toml_string_pushed_in(text@, table@, key@, value@) == Err::<Option<Seq<char>>, Seq<char>>(m@),
        },
{
    let mut doc = text.parse::<toml_edit::DocumentMut>().map_err(|e| e.to_string())?;
    let item = doc.get_mut(table).and_then(|t| t.as_table_like_mut()).and_then(|t| t.get_mut(key));
    let Some(arr) = item.and_then(|i| i.as_array_mut()) else { return Ok(None) };
    arr.push(value);
    Ok(Some(doc.to_string()))
}

/// What a document holds for a profile: nothing, an array (each item's text
/// where it is a string, and its kind), something else (its kind), or a
/// `profiles` key that is no table (its kind).
pub open spec fn profile_item_views(v: Seq<(Option<String>, TomlKind)>) -> Seq<(Option<Seq<char>>, TomlKind)> {
    v.map_values(|e: (Option<String>, TomlKind)| (opt_view(e.0), e.1))
}

/// The text after the inline table `entry` is pushed onto the array of
/// tables `name`; where it cannot be, the entry is named in the error.
pub open spec fn entry_pushed(text: Seq<char>, name: Seq<char>, entry: Seq<char>) -> Result<Seq<char>, Seq<char>> {
    match toml_table_pushed(text, name, entry) {
        Ok(Some(t)) => Ok(t),
        Ok(None) => Err(entry),
        Err(m) => Err(m),
    }
}

/// The outcome of a text edit as the result of adding an entry.
pub open spec fn edit_result(e: Result<Seq<char>, Seq<char>>, r: Result<String, AddError>) -> bool {
    match e {
        Ok(t) => r matches Ok(x) && x@ == t,
        Err(m) => r matches Err(AddError::TomlEditSerialization(mm)) && mm@ == m,
    }
}

/// What appending an entry to the configuration text gives: an unreadable
/// document is an error of reading `path`; where `entry_name` is missing an
/// array of tables holding the entry is put there; where it holds an
/// array of tables, an entry with the same source and target (as paths) is
/// refused and otherwise the entry is pushed; anything else is refused.
pub open spec fn entry_inserted(
    text: Seq<char>,
    path: Seq<char>,
    entry_name: Seq<char>,
    entry: Seq<char>,
    source: Seq<char>,
    target: Seq<char>,
    r: Result<String, AddError>,
) -> bool {
    match toml_kind_at(text, entry_name) {
        Err(m) => r matches Err(AddError::ConfigLoad(ConfigError::DeserializeDocumentToml(mm, p))) && mm@ == m
            && p@ == path,
        Ok(TomlKind::Missing) => match toml_tables_started(text, entry_name, entry) {
            Ok(Some(t)) => edit_result(Ok(t), r),
            Ok(None) => edit_result(Err(entry), r),
            Err(m) => edit_result(Err(m), r),
        },
        Ok(TomlKind::ArrayOfTables) => match toml_table_fields(text, entry_name, "source"@, "target"@) {
            Ok(Some(pairs)) => if has_entry(pairs, source, target) {
                r matches Err(AddError::SourceAlreadyExists(s)) && s@ == source
            } else {
                edit_result(entry_pushed(text, entry_name, entry), r)
            },
            Ok(None) => edit_result(Err(entry_name), r),
            Err(m) => edit_result(Err(m), r),
        },
        Ok(kind) => r matches Err(AddError::ExpectedTable(n, k)) && n@ == entry_name && k@ == kind_text(kind),
    }
}

/// Pushes the inline table `entry` onto the tables `name` (see `entry_pushed`).
fn push_entry(text: &str, name: &str, entry: &str) -> (r: Result<String, String>)
    ensures
        match r {
            Ok(t) => entry_pushed(text@, name@, entry@) == Ok::<Seq<char>, Seq<char>>(t@),
            Err(m) => entry_pushed(text@, name@, entry@) == Err::<Seq<char>, Seq<char>>(m@),
        },
{
    match push_table(text, name, entry) {
        Ok(Some(t)) => Ok(t),
        Ok(None) => Err(text::owned(entry)),
        Err(m) => Err(m),
    }
}

/// Appends the entry `entry` (an inline table) to the tables `entry_name`
/// of the configuration text read from `path`, unless an entry with the
/// same source and target is there (see `entry_inserted`).
pub fn insert_entry(
    config_text: &str,
    path: &str,
    entry_name: &str,
    entry: &str,
    source: &str,
    target: &str,
) -> (r: Result<String, AddError>)
    ensures
        entry_inserted(config_text@, path@, entry_name@, entry@, source@, target@, r),
{
    let kind = match kind_at(config_text, entry_name) {
        Ok(k) => k,
        Err(m) => return Err(AddError::ConfigLoad(ConfigError::DeserializeDocumentToml(m, text::owned(path)))),
    };
    match kind {
        TomlKind::Missing => match start_tables(config_text, entry_name, entry) {
            Ok(Some(t)) => Ok(t),
            Ok(None) => Err(AddError::TomlEditSerialization(text::owned(entry))),
            Err(m) => Err(AddError::TomlEditSerialization(m)),
        },
        TomlKind::ArrayOfTables => {
            proof {
                reveal_strlit("source");
                reveal_strlit("target");
            }
            match table_fields(config_text, entry_name, "source", "target") {
                Ok(Some(pairs)) => {
                    if find_entry(&pairs, source, target) {
                        Err(AddError::SourceAlreadyExists(text::owned(source)))
                    } else {
                        match push_entry(config_text, entry_name, entry) {
                            Ok(t) => Ok(t),
                            Err(m) => Err(AddError::TomlEditSerialization(m)),
                        }
                    }
                },
                Ok(None) => Err(AddError::TomlEditSerialization(text::owned(entry_name))),
                Err(m) => Err(AddError::TomlEditSerialization(m)),
            }
        },
        k => Err(AddError::ExpectedTable(text::owned(entry_name), kind_name(k))),
    }
}

/// The text after pushing each of `names` in turn onto the array under
/// `table`, `key`; the first push that fails gives the result (none where
/// there is no such array).
pub open spec fn strings_pushed(text: Seq<char>, table: Seq<char>, key: Seq<char>, names: Seq<Seq<char>>) -> Result<
    Option<Seq<char>>,
    Seq<char>,
>
    decreases names.len(),
{
    if names.len() == 0 {
        Ok(Some(text))
    } else {
        match strings_pushed(text, table, key, names.drop_last()) {
            Ok(Some(t)) => toml_string_pushed_in(t, table, key, names.last()),
            other => other,
        }
    }
}

/// The text after the names are pushed onto the profile `name`; where that
/// cannot be done the profile's name is the error.
pub open spec fn names_pushed(text: Seq<char>, name: Seq<char>, names: Seq<Seq<char>>) -> Result<Seq<char>, Seq<char>> {
    match strings_pushed(text, "profiles"@, name, names) {
        Ok(Some(t)) => Ok(t),
        Ok(None) => Err(name),
        Err(m) => Err(m),
    }
}

proof fn lemma_strings_pushed_stops(text: Seq<char>, table: Seq<char>, key: Seq<char>, names: Seq<Seq<char>>, i: int)
    requires
        0 <= i <= names.len(),
        !(strings_pushed(text, table, key, names.take(i)) is Ok && strings_pushed(text, table, key, names.take(i))->Ok_0 is Some),
    ensures
        strings_pushed(text, table, key, names) == strings_pushed(text, table, key, names.take(i)),
    decreases names.len() - i,
{
    if i < names.len() {
        let next = names.take(i + 1);
        assert(next.drop_last() =~= names.take(i));
        lemma_strings_pushed_stops(text, table, key, names, i + 1);
    } else {
        assert(names.take(i) =~= names);
    }
}

/// Pushes the names onto the profile `name` (see `names_pushed`).
fn push_names(text: &str, name: &str, names: &Vec<String>) -> (r: Result<String, String>)
    ensures
        match r {
            Ok(t) => names_pushed(text@, name@, str_views(names@)) == Ok::<Seq<char>, Seq<char>>(t@),
            Err(m) => names_pushed(text@, name@, str_views(names@)) == Err::<Seq<char>, Seq<char>>(m@),
        },
{
    proof {
        reveal_strlit("profiles");
    }
    let ghost all = str_views(names@);
    let mut cur = text::owned(text);
    let mut i: usize = 0;
    assert(all.take(0) =~= Seq::<Seq<char>>::empty());
    while i < names.len()
        invariant
            i <= names.len(),
            all == str_views(names@),
            strings_pushed(text@, "profiles"@, name@, all.take(i as int)) == Ok::<Option<Seq<char>>, Seq<char>>(
                Some(cur@),
            ),
        decreases names.len() - i,
    {
        assert(all.take(i + 1).drop_last() =~= all.take(i as int));
        assert(all.take(i + 1).last() == names@[i as int]@);
        match push_string_in(cur.as_str(), "profiles", name, names[i].as_str()) {
            Ok(Some(t)) => {
                cur = t;
            },
            Ok(None) => {
                proof {
                    lemma_strings_pushed_stops(text@, "profiles"@, name@, all, i + 1);
                }
                return Err(text::owned(name));
            },
            Err(m) => {
                proof {
                    lemma_strings_pushed_stops(text@, "profiles"@, name@, all, i + 1);
                }
                return Err(m);
            },
        }
        i = i + 1;
    }
    assert(all.take(names.len() as int) =~= all);
    Ok(cur)
}

/// The names to add to a profile with these items: the tag names not yet
/// there, each once, in name order (as `profile_additions` gives them).
pub open spec fn additions_of(names: Seq<String>, items: Seq<Option<Seq<char>>>, tags: Seq<Tag>) -> bool {
    &&& forall|i: int, j: int|
        0 <= i < j < names.len() ==> lex_lt(
            text::chars_key((#[trigger] names[i])@),
            text::chars_key((#[trigger] names[j])@),
        )
    &&& forall|n: Seq<char>| #[trigger] in_list(names, n) == (named(tags, n) && !among(items, n))
}

/// The first components of profile items.
pub open spec fn item_texts(v: Seq<(Option<Seq<char>>, TomlKind)>) -> Seq<Option<Seq<char>>> {
    v.map_values(|e: (Option<Seq<char>>, TomlKind)| e.0)
}

/// The result of adding names to a profile whose items are `items`, in the
/// text `t` (`fresh` where the profile is new).
pub open spec fn names_added(
    t: Seq<char>,
    name: Seq<char>,
    items: Seq<Option<Seq<char>>>,
    tags: Seq<Tag>,
    fresh: bool,
    r: Result<(String, Vec<String>, bool), AddError>,
) -> bool {
    match r {
        Ok((x, names, f)) => f == fresh && additions_of(names@, items, tags) && names_pushed(t, name, str_views(names@))
            == Ok::<Seq<char>, Seq<char>>(x@),
        Err(AddError::TomlEditSerialization(m)) => exists|ns: Seq<String>|
            additions_of(ns, items, tags) && names_pushed(t, name, str_views(ns)) == Err::<Seq<char>, Seq<char>>(m@),
        Err(_) => false,
    }
}

/// Adding names to a new profile in the text `t`: an empty array is put
/// under the profile's name in `profiles` first.
pub open spec fn fresh_profile(t: Seq<char>, name: Seq<char>, tags: Seq<Tag>, r: Result<(String, Vec<String>, bool), AddError>) -> bool {
    match toml_inserted_in(t, "profiles"@, name, NewItem::Array) {
        Ok(Some(t2)) => names_added(t2, name, Seq::empty(), tags, true, r),
        Ok(None) => r matches Err(AddError::TomlEditSerialization(m)) && m@ == name,
        Err(m) => r matches Err(AddError::TomlEditSerialization(mm)) && mm@ == m,
    }
}

/// What adding the tags to the profile `name` of the configuration text
/// read from `path` gives: an unreadable document is an error of reading
/// `path`; a missing `profiles` table is started and a missing profile gets
/// an empty array, then the tag names are pushed; a `profiles` key that is
/// no table, a profile that is no array, or a profile item that is no string
/// is refused; otherwise the tag names not yet in the profile are pushed.
pub open spec fn profile_added(
    text: Seq<char>,
    path: Seq<char>,
    name: Seq<char>,
    tags: Seq<Tag>,
    r: Result<(String, Vec<String>, bool), AddError>,
) -> bool {
    match toml_kind_at(text, "profiles"@) {
        Err(m) => r matches Err(AddError::ConfigLoad(ConfigError::DeserializeDocumentToml(mm, p))) && mm@ == m
            && p@ == path,
        Ok(TomlKind::Missing) => match toml_inserted(text, "profiles"@, NewItem::Table) {
            Ok(t) => fresh_profile(t, name, tags, r),
            Err(m) => r matches Err(AddError::TomlEditSerialization(mm)) && mm@ == m,
        },
        Ok(TomlKind::Table) => match toml_kind_in(text, "profiles"@, name) {
            Err(m) => r matches Err(AddError::TomlEditSerialization(mm)) && mm@ == m,
            Ok(TomlKind::Missing) => fresh_profile(text, name, tags, r),
            Ok(TomlKind::Array) => match toml_array_items_in(text, "profiles"@, name) {
                Ok(Some(es)) => {
                    let items = item_texts(es);
                    if forall|i: int| 0 <= i < items.len() ==> (#[trigger] items[i]) is Some {
                        names_added(text, name, items, tags, false, r)
                    } else {
                        exists|i: int|
                            first_non_text(items, i) && (r matches Err(AddError::ExpectedString(n, kk)) && n@
                                == "profiles."@ + name + "["@ + text::dec_digits(i as nat) + "]"@ && kk@ == kind_text(
                                es[i].1,
                            ))
                    }
                },
                Ok(None) => r matches Err(AddError::TomlEditSerialization(m)) && m@ == name,
                Err(m) => r matches Err(AddError::TomlEditSerialization(mm)) && mm@ == m,
            },
            Ok(k) => r matches Err(AddError::ExpectedArray(n, kk)) && n@ == "profiles."@ + name && kk@ == kind_text(k),
        },
        Ok(k) => r matches Err(AddError::ExpectedTable(n, kk)) && n@ == "profiles"@ && kk@ == kind_text(k),
    }
}

/// Adds names for the tags to the profile `name`, whose items are `existing`, in the text `t`.
fn add_names(t: &str, name: &str, existing: &Vec<Option<String>>, tags: &Vec<Tag>, fresh: bool) -> (r: Result<
    (String, Vec<String>, bool),
    AddError,
>)
    requires
        forall|i: int| 0 <= i < existing@.len() ==> (#[trigger] existing@[i]) is Some,
    ensures
        names_added(t@, name@, opt_views(existing@), tags@, fresh, r),
{
    match profile_additions(existing, tags) {
        Ok(names) => {
            assert(additions_of(names@, opt_views(existing@), tags@));
            match push_names(t, name, &names) {
                Ok(x) => Ok((x, names, fresh)),
                Err(m) => {
                    assert(additions_of(names@, opt_views(existing@), tags@) && names_pushed(t@, name@, str_views(names@))
                        == Err::<Seq<char>, Seq<char>>(m@));
                    Err(AddError::TomlEditSerialization(m))
                },
            }
        },
        Err(i) => {
            proof {
                assert(opt_views(existing@)[i as int] == opt_view(existing@[i as int]));
            }
            Err(AddError::InvalidChoice)
        },
    }
}

/// Adds a new profile `name` to the text `t` (see `fresh_profile`).
fn add_fresh(t: &str, name: &str, tags: &Vec<Tag>) -> (r: Result<(String, Vec<String>, bool), AddError>)
    ensures
        fresh_profile(t@, name@, tags@, r),
{
    proof {
        reveal_strlit("profiles");
    }
    match insert_in(t, "profiles", name, NewItem::Array) {
        Ok(Some(t2)) => {
            let empty: Vec<Option<String>> = Vec::new();
            proof {
                assert(opt_views(empty@) =~= Seq::<Option<Seq<char>>>::empty());
            }
            add_names(t2.as_str(), name, &empty, tags, true)
        },
        Ok(None) => Err(AddError::TomlEditSerialization(text::owned(name))),
        Err(m) => Err(AddError::TomlEditSerialization(m)),
    }
}

/// Adds the tags' names to the profile `name` in the configuration text
/// read from `path`; gives the new text, the names added, and whether the
/// profile is new (see `profile_added`).
#[verifier::loop_isolation(false)]
pub fn add_profile_text(config_text: &str, path: &str, name: &str, tags: &Vec<Tag>) -> (r: Result<
    (String, Vec<String>, bool),
    AddError,
>)
    ensures
        profile_added(config_text@, path@, name@, tags@, r),
{
    proof {
        reveal_strlit("profiles");
        reveal_strlit("profiles.");
        reveal_strlit("[");
        reveal_strlit("]");
    }
    let kind = match kind_at(config_text, "profiles") {
        Ok(k) => k,
        Err(m) => return Err(AddError::ConfigLoad(ConfigError::DeserializeDocumentToml(m, text::owned(path)))),
    };
    match kind {
        TomlKind::Missing => match insert_at(config_text, "profiles", NewItem::Table) {
            Ok(t) => add_fresh(t.as_str(), name, tags),
            Err(m) => Err(AddError::TomlEditSerialization(m)),
        },
        TomlKind::Table => {
            let pk = match kind_in(config_text, "profiles", name) {
                Ok(k) => k,
                Err(m) => return Err(AddError::TomlEditSerialization(m)),
            };
            match pk {
                TomlKind::Missing => add_fresh(config_text, name, tags),
                TomlKind::Array => match array_items_in(config_text, "profiles", name) {
                    Ok(Some(es)) => {
                        let ghost items = item_texts(profile_item_views(es@));
                        let mut existing: Vec<Option<String>> = Vec::new();
                        let mut i: usize = 0;
                        while i < es.len()
                            invariant
                                i <= es.len(),
                                items == item_texts(profile_item_views(es@)),
                                opt_views(existing@) =~= items.take(i as int),
                                existing@.len() == i,
                                items.len() == es@.len(),
                                forall|j: int| 0 <= j < i ==> (#[trigger] items[j]) is Some,
                                forall|j: int| 0 <= j < i ==> (#[trigger] existing@[j]) is Some,
                            decreases es.len() - i,
                        {
                            let item = match &es[i].0 {
                                Some(t) => Some(t.clone()),
                                None => None,
                            };
                            proof {
                                assert(items[i as int] == opt_view(es@[i as int].0));
                                assert(opt_view(item) == items[i as int]);
                            }
                            if item.is_none() {
                                let mut n = text::concat("profiles.", name);
                                text::push_str(&mut n, "[");
                                let digits = text::u64_text(i as u64);
                                text::push_str(&mut n, digits.as_str());
                                text::push_str(&mut n, "]");
                                proof {
                                    assert(n@ =~= "profiles."@ + name@ + "["@ + text::dec_digits(i as nat) + "]"@);
                                    assert(profile_item_views(es@)[i as int].1 == es@[i as int].1);
                                    assert(first_non_text(items, i as int));
                                    assert(!(forall|j: int| 0 <= j < items.len() ==> (#[trigger] items[j]) is Some));
                                }
                                let k = kind_name(es[i].1);
                                let res: Result<(String, Vec<String>, bool), AddError> = Err(AddError::ExpectedString(n, k));
                                assert(first_non_text(items, i as int) && (res matches Err(AddError::ExpectedString(nn, kk))
                                    && nn@ == "profiles."@ + name@ + "["@ + text::dec_digits(i as nat) + "]"@ && kk@
                                    == kind_text(profile_item_views(es@)[i as int].1)));
                                return res;
                            }
                            existing.push(item);
                            proof {
                                assert(opt_views(existing@) =~= items.take(i as int + 1));
                            }
                            i = i + 1;
                        }
                        proof {
                            assert(items.take(es.len() as int) =~= items);
                        }
                        add_names(config_text, name, &existing, tags, false)
                    },
                    Ok(None) => Err(AddError::TomlEditSerialization(text::owned(name))),
                    Err(m) => Err(AddError::TomlEditSerialization(m)),
                },
                k => Err(AddError::ExpectedArray(text::concat("profiles.", name), kind_name(k))),
            }
        },
        k => Err(AddError::ExpectedTable(text::owned("profiles"), kind_name(k))),
    }
}


/// Adding tags whose names all stand already, as strings, in the profile's
/// array adds nothing: the result is the text as it was, with no name added
/// and the profile not new.
pub proof fn law_profile_names_present(
    text: Seq<char>,
    path: Seq<char>,
    name: Seq<char>,
    tags: Seq<Tag>,
    es: Seq<(Option<Seq<char>>, TomlKind)>,
    r: Result<(String, Vec<String>, bool), AddError>,
)
    requires
        profile_added(text, path, name, tags, r),
        toml_kind_at(text, "profiles"@) == Ok::<TomlKind, Seq<char>>(TomlKind::Table),
        toml_kind_in(text, "profiles"@, name) == Ok::<TomlKind, Seq<char>>(TomlKind::Array),
        toml_array_items_in(text, "profiles"@, name) == Ok::<Option<Seq<(Option<Seq<char>>, TomlKind)>>, Seq<char>>(
            Some(es),
        ),
        forall|i: int| 0 <= i < es.len() ==> (#[trigger] es[i]).0 is Some,
        forall|n: Seq<char>| named(tags, n) ==> among(item_texts(es), n),
    ensures
        r matches Ok((t, names, fresh)) && t@ == text && names@.len() == 0 && !fresh,
{
    let items = item_texts(es);
    assert forall|i: int| 0 <= i < items.len() implies (#[trigger] items[i]) is Some by {
        assert(items[i] == es[i].0);
    }
    assert forall|ns: Seq<String>| #[trigger] additions_of(ns, items, tags) implies ns.len() == 0 && str_views(ns)
        =~= Seq::<Seq<char>>::empty() by {
        if ns.len() > 0 {
            assert(in_list(ns, ns[0]@));
        }
    }
    assert(strings_pushed(text, "profiles"@, name, Seq::<Seq<char>>::empty()) == Ok::<Option<Seq<char>>, Seq<char>>(
        Some(text),
    ));
}

} // verus!
