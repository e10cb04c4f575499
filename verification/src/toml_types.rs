//! The TOML types the library carries: the inline tables of island entries
//! and the window manager's settings documents.

use vstd::prelude::*;

verus! {

#[verifier::external_type_specification]
#[verifier::external_body]
#[verifier::reject_recursive_types(K)]
#[verifier::reject_recursive_types(V)]
pub struct TomlMapDeclaration<K, V>(toml::map::Map<K, V>);

#[verifier::external_type_specification]
#[verifier::external_body]
pub struct TomlValueDeclaration(toml::Value);

/// The entries of a TOML table, by key.
pub uninterp spec fn table_entries(table: toml::map::Map<String, toml::Value>) -> Map<Seq<char>, toml::Value>;

/// The keys present in a TOML table.
pub open spec fn table_keys(table: toml::map::Map<String, toml::Value>) -> Set<Seq<char>> {
    table_entries(table).dom()
}

/// Calls `toml::map::Map::new`, which builds a table with no entries.
#[verifier::external_body]
pub(crate) fn empty_table() -> (table: toml::map::Map<String, toml::Value>)
    ensures
        table_entries(table).dom() == Set::<Seq<char>>::empty(),
{
    toml::map::Map::new()
}

/// `Clone` for TOML tables copies the underlying map, keeping every key.
pub assume_specification[ <toml::map::Map<String, toml::Value> as Clone>::clone ](
    table: &toml::map::Map<String, toml::Value>,
) -> (copy: toml::map::Map<String, toml::Value>)
    ensures
        table_keys(copy) == table_keys(*table),
;

} // verus!
