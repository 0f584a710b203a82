//! TOML documents, as far as the configuration file uses them.
use vstd::prelude::*;

use crate::replacements;
use crate::text;

verus! {

/// A top-level item of a document.
#[derive(Debug)]
pub enum TomlItem {
    /// A string.
    Text(String),
    /// A table, in the order of its keys: the strings in it, and `None` for any other value.
    Table(Vec<(String, Option<String>)>),
    /// Anything else.
    Other,
}

/// A top-level item, as values.
pub enum TomlView {
    Text(Seq<char>),
    Table(Seq<(Seq<char>, Option<Seq<char>>)>),
    Other,
}

impl View for TomlItem {
    type V = TomlView;

    open spec fn view(&self) -> TomlView {
        match *self {
            TomlItem::Text(s) => TomlView::Text(s@),
            TomlItem::Table(t) => TomlView::Table(table_view(t@)),
            TomlItem::Other => TomlView::Other,
        }
    }
}

/// The keys and values of a table.
pub open spec fn table_view(t: Seq<(String, Option<String>)>) -> Seq<
    (Seq<char>, Option<Seq<char>>),
> {
    t.map_values(|e: (String, Option<String>)| (e.0@, text::optional_view(e.1)))
}

/// The keys and items of a document.
pub open spec fn items_view(t: Seq<(String, TomlItem)>) -> Seq<(Seq<char>, TomlView)> {
    t.map_values(|e: (String, TomlItem)| (e.0@, e.1@))
}

/// What `toml::from_str` reads from a text: the top-level items in the order of their keys, or
/// the error message.
pub uninterp spec fn toml_read(raw: Seq<char>) -> Result<Seq<(Seq<char>, TomlView)>, Seq<char>>;

/// What `toml::to_string_pretty` writes for a document of string fields and one table of strings.
pub uninterp spec fn toml_written(
    fields: Seq<(Seq<char>, Seq<char>)>,
    table: Seq<char>,
    entries: Seq<(Seq<char>, Seq<char>)>,
) -> Seq<char>;

/// The text reads as these items.
pub open spec fn reads_as(raw: Seq<char>, items: Seq<(Seq<char>, TomlView)>) -> bool {
    toml_read(raw) matches Ok(read) && read == items
}

/// What came of reading a document, as values.
pub open spec fn outcome_view(r: Result<Vec<(String, TomlItem)>, String>) -> Result<
    Seq<(Seq<char>, TomlView)>,
    Seq<char>,
> {
    match r {
        Ok(items) => Ok(items_view(items@)),
        Err(message) => Err(message@),
    }
}

/// Calls `toml::from_str` for a map of `serde_json::Value`s, and tells its strings and the strings
/// of its tables apart from other values. No key has a meaning of its own there, while a
/// `toml::Value` takes a table that begins with `$__toml_private_datetime` for a date. Nothing is
/// claimed of which texts it accepts.
#[verifier::external_body]
pub(crate) fn read_toml(raw: &str) -> (r: Result<Vec<(String, TomlItem)>, String>)
    ensures
        outcome_view(r) == toml_read(raw@),
{
    let document = toml::from_str::<
        std::collections::BTreeMap<String, serde_json::Value>,
    >(raw).map_err(|e| e.to_string())?;
    let items = document.into_iter().map(|(key, value)| match value {
        serde_json::Value::String(s) => (key, TomlItem::Text(s)),
        serde_json::Value::Object(t) => (key, TomlItem::Table(t.into_iter().map(|(k, v)| match v {
            serde_json::Value::String(s) => (k, Some(s)),
            _ => (k, None),
        }).collect())),
        _ => (key, TomlItem::Other),
    });
    Ok(items.collect())
}

/// `s` holds a run of 256 times the character `c`.
pub open spec fn has_run(s: Seq<char>, c: char) -> bool {
    exists|i: int|
        0 <= i && i + 256 <= s.len() && #[trigger] s.subrange(i, i + 256) == Seq::new(
            256,
            |j: int| c,
        )
}

/// No value holds 256 equal quotation marks in a row, which `toml` cannot count.
pub open spec fn quotes_are_countable(pairs: Seq<(Seq<char>, Seq<char>)>) -> bool {
    forall|i: int|
        0 <= i < pairs.len() ==> !has_run((#[trigger] pairs[i]).1, '"') && !has_run(
            pairs[i].1,
            '\'',
        )
}

/// The items of a document of string fields and one table of strings.
pub open spec fn document_of(
    fields: Seq<(Seq<char>, Seq<char>)>,
    table: Seq<char>,
    entries: Seq<(Seq<char>, Seq<char>)>,
) -> Seq<(Seq<char>, TomlView)> {
    fields.map_values(|f: (Seq<char>, Seq<char>)| (f.0, TomlView::Text(f.1))).push(
        (
            table,
            TomlView::Table(
                entries.map_values(|e: (Seq<char>, Seq<char>)| (e.0, Some(e.1))),
            ),
        ),
    )
}

/// Calls `toml::to_string_pretty` on a `toml::Table` of strings and one table of strings. It
/// succeeds, and `toml::from_str` gives back what was written: strings and keys are quoted and
/// escaped as they need it.
#[verifier::external_body]
pub(crate) fn write_toml(
    fields: &Vec<(String, String)>,
    table: &str,
    entries: &Vec<(String, String)>,
) -> (r: Option<String>)
    requires
        replacements::in_key_order(replacements::pair_views(fields@)),
        replacements::in_key_order(replacements::pair_views(entries@)),
        forall|i: int|
            0 <= i < fields@.len() ==> replacements::precedes(
                (#[trigger] replacements::pair_views(fields@)[i]).0,
                table@,
            ),
        quotes_are_countable(replacements::pair_views(fields@)),
        quotes_are_countable(replacements::pair_views(entries@)),
    ensures
        r is Some,
        r->0@ == toml_written(
            replacements::pair_views(fields@),
            table@,
            replacements::pair_views(entries@),
        ),
        reads_as(
            r->0@,
            document_of(
                replacements::pair_views(fields@),
                table@,
                replacements::pair_views(entries@),
            ),
        ),
{
    let text = |(k, v): &(String, String)| (k.clone(), toml::Value::String(v.clone()));
    let mut document: toml::Table = fields.iter().map(text).collect();
    let entries: toml::Table = entries.iter().map(text).collect();
    document.insert(table.to_string(), toml::Value::Table(entries));
    toml::to_string_pretty(&document).ok()
}

} // verus!
