//! Reading values out of a TOML document through the `toml` crate.
//!
//! A `toml::Value` is modelled by its entries: a map from key paths (the
//! table keys walked from the value down) to what stands there. A path is in
//! the map when walking its keys from the value passes through tables only
//! and finds each key; the empty path is the value itself. The entry is
//! `Some(text)` when the value found is a string and `None` otherwise.

use vstd::prelude::*;
use std::str::FromStr;

verus! {

#[verifier::external_type_specification]
#[verifier::external_body]
pub struct ExTomlValue(toml::Value);

/// Entries of a TOML value: key paths to what stands there.
pub type TomlEntries = Map<Seq<Seq<char>>, Option<Seq<char>>>;

/// The entries of a TOML value, as described in the module documentation.
pub uninterp spec fn toml_entries(value: toml::Value) -> TomlEntries;

/// What `toml::Value::from_str` gives for `text`: the entries of the
/// document it parses, or the message of its error.
pub uninterp spec fn toml_document(text: Seq<char>) -> Result<TomlEntries, Seq<char>>;

/// The entries below `key`: the paths that continue `[key]`.
pub open spec fn toml_below(
    entries: Map<Seq<Seq<char>>, Option<Seq<char>>>,
    key: Seq<char>,
) -> Map<Seq<Seq<char>>, Option<Seq<char>>> {
    Map::new(|p: Seq<Seq<char>>| entries.dom().contains(seq![key] + p), |p: Seq<Seq<char>>| entries[seq![key] + p])
}

/// Calls `toml::Value::from_str`. Trusted: the result is
/// [`toml_document`] of the text: the parsed value has those entries, and the
/// error's message is that text.
#[verifier::external_body]
pub(crate) fn parse_document(text: &str) -> (r: Result<toml::Value, String>)
    ensures
        r is Ok <==> toml_document(text@) is Ok,
        r matches Ok(v) ==> (toml_document(text@) matches Ok(d) && d == toml_entries(v)),
        r matches Err(m) ==> (toml_document(text@) matches Err(d) && d == m@),
{
    match toml::Value::from_str(text) {
        Ok(v) => Ok(v),
        Err(e) => Err(e.to_string()),
    }
}

/// Calls `toml::Value::get` with a string key. Trusted: as its source
/// shows, it finds `key` only in a table, and what it finds holds the
/// entries below `key`.
#[verifier::external_body]
pub(crate) fn get<'a>(value: &'a toml::Value, key: &str) -> (r: Option<&'a toml::Value>)
    ensures
        r is Some <==> toml_entries(*value).dom().contains(seq![key@]),
        r matches Some(c) ==> toml_entries(*c) == toml_below(toml_entries(*value), key@),
{
    value.get(key)
}

/// Calls `toml::Value::as_str`. Trusted: as its source shows, it gives the
/// text of a string value and `None` for any other value.
#[verifier::external_body]
pub(crate) fn as_str<'a>(value: &'a toml::Value) -> (r: Option<&'a str>)
    ensures
        r is None <==> toml_entries(*value)[Seq::empty()] is None,
        r matches Some(s) ==> toml_entries(*value)[Seq::empty()] == Some(s@),
{
    value.as_str()
}

} // verus!
