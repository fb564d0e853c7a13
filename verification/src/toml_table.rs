//! TOML documents read, edited and written with the `toml` crate. A table
//! is seen through its entries: each key with the text toml gives its value.

use vstd::prelude::*;

verus! {

#[verifier::external_type_specification]
#[verifier::external_body]
pub struct ExTomlValue(toml::Value);

#[verifier::external_type_specification]
#[verifier::external_body]
#[verifier::reject_recursive_types(K)]
#[verifier::reject_recursive_types(V)]
pub struct ExTomlMap<K, V>(toml::map::Map<K, V>);

/// What `toml::from_str` makes of a document read as a `toml::Value`:
/// `None` where it fails; `Some(None)` where the value is not a table;
/// otherwise the entries of the table (see `toml_entries`).
pub uninterp spec fn parsed_toml(text: Seq<char>) -> Option<Option<Map<Seq<char>, Seq<char>>>>;

/// The entries of a toml table: each key with the text that toml's
/// `Display` gives its value.
pub uninterp spec fn toml_entries(t: toml::map::Map<String, toml::Value>) -> Map<Seq<char>, Seq<char>>;

/// The text that toml's `Display` gives an array of tables, the table at
/// each place holding the one key `field` set to the string `values` has
/// there.
pub uninterp spec fn string_tables_text(field: Seq<char>, values: Seq<Seq<char>>) -> Seq<char>;

/// What `toml::to_string_pretty` makes of the table (as a `toml::Value`):
/// `None` where it fails.
pub uninterp spec fn toml_rendering(t: toml::map::Map<String, toml::Value>) -> Option<Seq<char>>;

/// `toml::from_str` into a `toml::Value`, told apart into a table (its
/// entries as `parsed_toml` names them), another value, or a parse error
/// (toml's message).
#[verifier::external_body]
pub(crate) fn parse_toml_table(text: &str) -> (r: Result<Option<toml::map::Map<String, toml::Value>>, String>)
    ensures
        r is Err <==> parsed_toml(text@) is None,
        r matches Ok(None) ==> parsed_toml(text@) == Some(None::<Map<Seq<char>, Seq<char>>>),
        r matches Ok(Some(t)) ==> parsed_toml(text@) == Some(Some(toml_entries(t))),
{
    match toml::from_str::<toml::Value>(text) {
        Ok(toml::Value::Table(t)) => Ok(Some(t)),
        Ok(_) => Ok(None),
        Err(e) => Err(e.to_string()),
    }
}

/// `toml::map::Map::remove`: the table without the key.
#[verifier::external_body]
pub(crate) fn table_remove(t: &mut toml::map::Map<String, toml::Value>, key: &str)
    ensures
        toml_entries(*final(t)) == toml_entries(*old(t)).remove(key@),
{
    t.remove(key);
}

/// `toml::map::Map::insert` of an array of tables, one per string of
/// `values`, each holding the key `field` set to that string.
#[verifier::external_body]
pub(crate) fn table_set_string_tables(
    t: &mut toml::map::Map<String, toml::Value>,
    key: &str,
    field: &str,
    values: &Vec<String>,
)
    ensures
        toml_entries(*final(t)) == toml_entries(*old(t)).insert(
            key@,
            string_tables_text(field@, values@.map_values(|v: String| v@)),
        ),
{
    let array: Vec<toml::Value> = values.iter().map(|v| {
        let mut m = toml::map::Map::new();
        m.insert(field.to_string(), toml::Value::String(v.clone()));
        toml::Value::Table(m)
    }).collect();
    t.insert(key.to_string(), toml::Value::Array(array));
}

/// `toml::to_string_pretty` of the table as a `toml::Value`; toml's message
/// where it fails.
#[verifier::external_body]
pub(crate) fn render_toml(t: toml::map::Map<String, toml::Value>) -> (r: Result<String, String>)
    ensures
        match toml_rendering(t) {
            Some(s) => r matches Ok(o) && o@ == s,
            None => r is Err,
        },
{
    toml::to_string_pretty(&toml::Value::Table(t)).map_err(|e| e.to_string())
}

} // verus!
