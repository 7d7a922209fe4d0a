//! The one option of the preprocessor: the file name of the index page.

use toml::value::Table;
use vstd::prelude::*;

verus! {

/// `toml::map::Map`, the table of a configuration.
#[verifier::external_type_specification]
#[verifier::external_body]
#[verifier::reject_recursive_types(K)]
#[verifier::reject_recursive_types(V)]
pub struct ExTomlMap<K, V>(toml::map::Map<K, V>);

/// `toml::Value`, a value in a table.
#[verifier::external_type_specification]
#[verifier::external_body]
pub struct ExTomlValue(toml::Value);

/// The file name of the index page where the configuration names none.
pub const DEFAULT_FILENAME: &'static str = "tags.md";

/// The key under which the configuration names the index page.
pub const FILENAME_KEY: &'static str = "filename";

/// What a table holds: under each key the text of its value, or `None` where
/// the value is not a string.
pub uninterp spec fn table_items(table: Table) -> Map<Seq<char>, Option<Seq<char>>>;

/// `toml::map::Map::get`, with the value found handed out through
/// `toml::Value::as_str`: `None` where the table has no such key, else the
/// value's text, or `None` in its place where the value is not a string.
#[verifier::external_body]
pub(crate) fn table_text(table: &Table, key: &str) -> (found: Option<Option<String>>)
    ensures
        match found {
            Some(Some(text)) => table_items(*table).contains_key(key@) && table_items(
                *table,
            )[key@] == Some(text@),
            Some(None) => table_items(*table).contains_key(key@) && table_items(*table)[key@]
                is None,
            None => !table_items(*table).contains_key(key@),
        },
{
    table.get(key).map(|value| value.as_str().map(|text| text.to_string()))
}

/// The file name that a looked-up setting names: the text found, or the
/// default where the key is missing or its value is not a string.
pub open spec fn chosen_filename(setting: Option<Option<Seq<char>>>) -> Seq<char> {
    match setting {
        Some(Some(name)) => name,
        _ => DEFAULT_FILENAME@,
    }
}

/// The setting that a configuration holds for the file name.
pub open spec fn filename_setting(config: Option<&Table>) -> Option<Option<Seq<char>>> {
    match config {
        Some(table) => if table_items(*table).contains_key(FILENAME_KEY@) {
            Some(table_items(*table)[FILENAME_KEY@])
        } else {
            None
        },
        None => None,
    }
}

} // verus!
