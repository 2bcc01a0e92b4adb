//! Reading fields out of project manifests. Parsing is done by the TOML, JSON and
//! YAML crates; each reader here names what it returns, a function of its
//! arguments alone.

use vstd::prelude::*;
use crate::project::opt_text;

verus! {

/// The string stored at `table.key` of a TOML document, if it parses and holds one.
pub uninterp spec fn toml_lookup(content: Seq<char>, table: Seq<char>, key: Seq<char>) -> Option<Seq<char>>;

/// The string stored at the top-level `key` of a JSON document, if it parses and
/// holds one.
pub uninterp spec fn json_lookup(content: Seq<char>, key: Seq<char>) -> Option<Seq<char>>;

/// Whether the top-level object member `object` of a JSON document has a member `key`.
pub uninterp spec fn json_member(content: Seq<char>, object: Seq<char>, key: Seq<char>) -> bool;

/// The string stored at the top-level `key` of a YAML document, if it parses and
/// holds one.
pub uninterp spec fn yaml_lookup(content: Seq<char>, key: Seq<char>) -> Option<Seq<char>>;

/// Relies on toml::from_str into a toml::Table, then Value::get and Value::as_str:
/// the string at `table.key`, or None when the text does not parse or holds no
/// string there.
#[verifier::external_body]
pub(crate) fn toml_string_at(content: &str, table: &str, key: &str) -> (r: Option<String>)
    ensures
        opt_text(r) == toml_lookup(content@, table@, key@),
{
    let doc = toml::from_str::<toml::Table>(content).ok()?;
    doc.get(table)?.get(key)?.as_str().map(String::from)
}

/// Relies on serde_json::from_str into a serde_json::Value, then Value::get and
/// Value::as_str: the string at `key`, or None when the text does not parse or
/// holds no string there.
#[verifier::external_body]
pub(crate) fn json_string_at(content: &str, key: &str) -> (r: Option<String>)
    ensures
        opt_text(r) == json_lookup(content@, key@),
{
    let doc = serde_json::from_str::<serde_json::Value>(content).ok()?;
    doc.get(key)?.as_str().map(String::from)
}

/// Relies on serde_json::from_str into a serde_json::Value, then Value::get twice:
/// whether `object` is present and has a member `key`. Text that does not parse
/// has none.
#[verifier::external_body]
pub(crate) fn json_has_member(content: &str, object: &str, key: &str) -> (r: bool)
    ensures
        r == json_member(content@, object@, key@),
{
    match serde_json::from_str::<serde_json::Value>(content) {
        Ok(doc) => doc.get(object).and_then(|o| o.get(key)).is_some(),
        Err(_) => false,
    }
}

/// Relies on serde_yaml::from_str into a serde_yaml::Value, then Value::get and
/// Value::as_str: the string at `key`, or None when the text does not parse or
/// holds no string there.
#[verifier::external_body]
pub(crate) fn yaml_string_at(content: &str, key: &str) -> (r: Option<String>)
    ensures
        opt_text(r) == yaml_lookup(content@, key@),
{
    let doc = serde_yaml::from_str::<serde_yaml::Value>(content).ok()?;
    doc.get(key)?.as_str().map(String::from)
}

} // verus!
