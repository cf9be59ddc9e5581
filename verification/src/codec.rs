//! Conversion between variable tables and TOML text.

use vstd::prelude::*;
use crate::error::DotrError;
use crate::value::{Table, TomlValue, TomlView};

verus! {

/// `toml::Value`, a value of a TOML document. It is carried through only.
#[verifier::external_type_specification]
#[verifier::external_body]
pub struct ExTomlValue(toml::Value);

/// `toml::map::Map`, the table of a TOML document. It is carried through
/// only.
#[verifier::external_type_specification]
#[verifier::external_body]
#[verifier::reject_recursive_types(K)]
#[verifier::reject_recursive_types(V)]
pub struct ExTomlMap<K, V>(toml::map::Map<K, V>);

/// `toml::de::Error`, why a text is no TOML document.
#[verifier::external_type_specification]
#[verifier::external_body]
pub struct ExTomlDeError(toml::de::Error);

/// The table that a TOML document holds; `None` where the text is no TOML
/// document. It stands for what `toml::from_str` returns for a table.
pub uninterp spec fn toml_document(text: Seq<char>) -> Option<Map<Seq<char>, TomlView>>;

/// The TOML text of a table; `None` where the table cannot be written: it
/// holds a float or a datetime whose text is none, or `toml::to_string`
/// refuses it. It stands for what `toml::to_string` returns.
pub uninterp spec fn toml_text(table: Map<Seq<char>, TomlView>) -> Option<Seq<char>>;

/// Copies a `toml::Value` into a value of this library, variant by variant:
/// a float as the text that `f64` prints, a datetime as its RFC 3339 text.
/// Nothing is claimed of the result.
#[verifier::external_body]
pub(crate) fn value_from_toml(v: &toml::Value) -> TomlValue {
    match v {
        toml::Value::String(s) => TomlValue::String(s.clone()),
        toml::Value::Integer(i) => TomlValue::Integer(*i),
        toml::Value::Float(f) => TomlValue::Float(f.to_string()),
        toml::Value::Boolean(b) => TomlValue::Boolean(*b),
        toml::Value::Datetime(d) => TomlValue::Datetime(d.to_string()),
        toml::Value::Array(a) => TomlValue::Array(a.iter().map(value_from_toml).collect()),
        toml::Value::Table(t) => TomlValue::Table(table_from_toml(t)),
    }
}

/// Copies a `toml::Table` into a table of this library, pair by pair, in the
/// order of `toml::Table::iter`. Nothing is claimed of the result.
#[verifier::external_body]
pub(crate) fn table_from_toml(t: &toml::Table) -> Table {
    let mut out = Table::new();
    for (k, v) in t.iter() {
        out.insert(k.clone(), value_from_toml(v));
    }
    out
}

/// Copies a value of this library into a `toml::Value`, variant by variant.
/// The text of a float goes through `str::parse` for a float, the text of a
/// datetime through `toml::value::Datetime::from_str`; where one of them
/// refuses the text, the copy fails with a message that names the text.
/// Nothing is claimed of the result.
#[verifier::external_body]
pub(crate) fn value_to_toml(v: &TomlValue) -> Result<toml::Value, String> {
    Ok(match v {
        TomlValue::String(s) => toml::Value::String(s.clone()),
        TomlValue::Integer(i) => toml::Value::Integer(*i),
        TomlValue::Float(s) => toml::Value::Float(s.parse().map_err(|e| format!("'{}': {}", s, e))?),
        TomlValue::Boolean(b) => toml::Value::Boolean(*b),
        TomlValue::Datetime(s) => toml::Value::Datetime(s.parse().map_err(|e| format!("'{}': {}", s, e))?),
        TomlValue::Array(a) => toml::Value::Array(a.iter().map(value_to_toml).collect::<Result<_, _>>()?),
        TomlValue::Table(t) => toml::Value::Table(table_to_toml(t)?),
    })
}

/// Copies a table of this library into a `toml::Table`, pair by pair, with
/// `toml::Table::insert`. It fails where the copy of a value fails.
/// Nothing is claimed of the result.
#[verifier::external_body]
pub(crate) fn table_to_toml(t: &Table) -> Result<toml::Table, String> {
    let mut out = toml::Table::new();
    for i in 0..t.len() {
        out.insert(t.key_at(i).clone(), value_to_toml(t.value_at(i))?);
    }
    Ok(out)
}

/// Calls `toml::from_str` for a `toml::Table` and copies what it returns.
/// The contract names the result: the document of the text, which depends
/// on the text alone.
#[verifier::external_body]
fn toml_parse(text: &str) -> (r: Result<Table, toml::de::Error>)
    ensures
        match r {
            Ok(t) => toml_document(text@) == Some(t@),
            Err(_) => toml_document(text@) is None,
        },
{
    toml::from_str::<toml::Table>(text).map(|t| table_from_toml(&t))
}

/// Calls `toml::to_string` on the copy of the table that `table_to_toml`
/// makes. The error is the message of the copy that failed, or that of the
/// `toml::ser::Error`, as its `Display` writes it. The contract names the
/// result: the text of the table, which depends on its content alone, as
/// `toml::Table` keeps its keys sorted.
#[verifier::external_body]
fn toml_write(table: &Table) -> (r: Result<String, String>)
    ensures
        match r {
            Ok(s) => toml_text(table@) == Some(s@),
            Err(_) => toml_text(table@) is None,
        },
{
    toml::to_string(&table_to_toml(table)?).map_err(|e| e.to_string())
}

/// The message of a `toml::de::Error`, as its `Display` writes it. Nothing
/// is claimed of the text.
#[verifier::external_body]
fn parse_error_message(e: &toml::de::Error) -> String {
    e.to_string()
}

/// Reads a TOML document into a table. Text that is no TOML document is a
/// parse error.
pub fn parse_table(text: &str) -> (r: Result<Table, DotrError>)
    ensures
        match r {
            Ok(t) => toml_document(text@) == Some(t@),
            Err(e) => toml_document(text@) is None && e@ is ConfigParseError,
        },
{
    match toml_parse(text) {
        Ok(t) => Ok(t),
        Err(e) => Err(DotrError::ConfigParseError(parse_error_message(&e))),
    }
}

/// Writes a table as TOML text. A table that cannot be written, such as
/// one that holds a float or a datetime whose text is none, is an error.
pub fn write_table(table: &Table) -> (r: Result<String, DotrError>)
    ensures
        match r {
            Ok(s) => toml_text(table@) == Some(s@),
            Err(e) => toml_text(table@) is None && e@ is ConfigParseError,
        },
{
    match toml_write(table) {
        Ok(s) => Ok(s),
        Err(message) => Err(DotrError::ConfigParseError(message)),
    }
}

} // verus!
