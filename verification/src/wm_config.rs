//! Reading and writing the window manager's settings, a TOML document, by
//! key path (such as `["decoration", "rounding"]`): reads fall back to a
//! default for settings that are missing or of another type, and writes
//! create the tables along the path.

use vstd::prelude::*;

use crate::toml_types::{empty_table, table_entries};

verus! {

/// What `toml::Value::get` with a key gives: the entry under `key` when
/// `value` is a table that has it.
pub uninterp spec fn toml_entry(value: toml::Value, key: Seq<char>) -> Option<toml::Value>;

/// What `toml::Value::as_bool` gives: the boolean when `value` is one.
pub uninterp spec fn toml_bool(value: toml::Value) -> Option<bool>;

/// What `toml::Value::as_integer` gives: the integer when `value` is one.
pub uninterp spec fn toml_integer(value: toml::Value) -> Option<i64>;

/// What `toml::Value::as_str` gives: the text when `value` is a string.
pub uninterp spec fn toml_text(value: toml::Value) -> Option<Seq<char>>;

/// Calls `toml::Value::get` with a string key: the entry under `key` of a
/// table, `None` for a missing key or a value that is not a table.
#[verifier::external_body]
fn entry_of<'a>(value: &'a toml::Value, key: &str) -> (entry: Option<&'a toml::Value>)
    ensures
        match entry {
            Some(found) => toml_entry(*value, key@) == Some(*found),
            None => toml_entry(*value, key@) is None,
        },
{
    value.get(key)
}

/// Calls `toml::Value::as_bool`.
#[verifier::external_body]
fn bool_of(value: &toml::Value) -> (flag: Option<bool>)
    ensures
        flag == toml_bool(*value),
{
    value.as_bool()
}

/// Calls `toml::Value::as_integer`.
#[verifier::external_body]
fn integer_of(value: &toml::Value) -> (number: Option<i64>)
    ensures
        number == toml_integer(*value),
{
    value.as_integer()
}

/// Calls `toml::Value::as_str`.
#[verifier::external_body]
fn text_of(value: &toml::Value) -> (text: Option<&str>)
    ensures
        match text {
            Some(t) => toml_text(*value) == Some(t@),
            None => toml_text(*value) is None,
        },
{
    value.as_str()
}

/// The value reached from `value` by following the keys of `path` in turn.
pub open spec fn value_at(value: toml::Value, path: Seq<Seq<char>>) -> Option<toml::Value>
    decreases path.len(),
{
    if path.len() == 0 {
        Some(value)
    } else {
        match toml_entry(value, path[0]) {
            Some(entry) => value_at(entry, path.drop_first()),
            None => None,
        }
    }
}

/// The views of a key path.
pub open spec fn key_views(path: Seq<&str>) -> Seq<Seq<char>> {
    path.map_values(|key: &str| key@)
}

/// The value at `path` in `value`, if every key along it is present.
pub fn at<'a>(value: &'a toml::Value, path: &[&str]) -> (found: Option<&'a toml::Value>)
    ensures
        match found {
            Some(v) => value_at(*value, key_views(path@)) == Some(*v),
            None => value_at(*value, key_views(path@)) is None,
        },
{
    let ghost keys = key_views(path@);
    let mut current: &toml::Value = value;
    let mut k: usize = 0;
    assert(keys.skip(0) =~= keys);
    while k < path.len()
        invariant
            0 <= k <= path@.len(),
            keys == key_views(path@),
            value_at(*value, keys) == value_at(*current, keys.skip(k as int)),
        decreases path@.len() - k,
    {
        assert(keys.skip(k as int)[0] == path@[k as int]@);
        assert(keys.skip(k as int).drop_first() =~= keys.skip(k + 1));
        match entry_of(current, path[k]) {
            Some(next) => {
                current = next;
            },
            None => {
                return None;
            },
        }
        k = k + 1;
    }
    assert(keys.skip(k as int).len() == 0);
    Some(current)
}

/// The boolean at `path`, or `fallback` when it is missing or not a boolean.
pub fn bool_at(value: &toml::Value, path: &[&str], fallback: bool) -> (flag: bool)
    ensures
        flag == match value_at(*value, key_views(path@)) {
            Some(v) => match toml_bool(v) {
                Some(b) => b,
                None => fallback,
            },
            None => fallback,
        },
{
    match at(value, path) {
        Some(v) => match bool_of(v) {
            Some(b) => b,
            None => fallback,
        },
        None => fallback,
    }
}

/// The integer at `path`, or `fallback` when it is missing or not an
/// integer.
pub fn int_at(value: &toml::Value, path: &[&str], fallback: i64) -> (number: i64)
    ensures
        number == match value_at(*value, key_views(path@)) {
            Some(v) => match toml_integer(v) {
                Some(i) => i,
                None => fallback,
            },
            None => fallback,
        },
{
    match at(value, path) {
        Some(v) => match integer_of(v) {
            Some(i) => i,
            None => fallback,
        },
        None => fallback,
    }
}

/// The text at `path`, or `fallback` when it is missing or not a string.
pub fn str_at<'a>(value: &'a toml::Value, path: &[&str], fallback: &'a str) -> (text: &'a str)
    ensures
        text@ == match value_at(*value, key_views(path@)) {
            Some(v) => match toml_text(v) {
                Some(t) => t,
                None => fallback@,
            },
            None => fallback@,
        },
{
    match at(value, path) {
        Some(v) => match text_of(v) {
            Some(t) => t,
            None => fallback,
        },
        None => fallback,
    }
}

/// Whether `toml::Value::as_table_mut` finds a table in `value`.
pub uninterp spec fn toml_is_table(value: toml::Value) -> bool;

/// Calls `toml::Value::as_table_mut` on a value that is a table and hands
/// out the table inside it. An entry of the value (what `toml::Value::get`
/// gives) is the entry of that table, both before and after the table is
/// changed through the result, and the value stays a table.
#[verifier::external_body]
fn table_inside(value: &mut toml::Value) -> (table: &mut toml::map::Map<String, toml::Value>)
    requires
        toml_is_table(*old(value)),
    ensures
        forall|key: Seq<char>| toml_entry(*old(value), key) == table_entries(*table).get(key),
        toml_is_table(*final(value)),
        forall|key: Seq<char>| toml_entry(*final(value), key) == table_entries(*final(table)).get(key),
{
    value.as_table_mut().expect("the value is a table")
}

/// Makes a TOML value of a table (`toml::Value::Table`): a table whose
/// entries are those of `table`.
#[verifier::external_body]
fn table_value(table: toml::map::Map<String, toml::Value>) -> (value: toml::Value)
    ensures
        toml_is_table(value),
        forall|key: Seq<char>| toml_entry(value, key) == table_entries(table).get(key),
{
    toml::Value::Table(table)
}

/// Calls `toml::map::Map::entry` with `key`, then `Entry::or_insert` with
/// `default`: hands out the entry under `key`, storing `default` there first
/// when there is none. What the entry holds once the result is done with is
/// what the table holds under `key`; the other entries stay as they were.
#[verifier::external_body]
fn entry_or_insert<'a>(
    table: &'a mut toml::map::Map<String, toml::Value>,
    key: &str,
    default: toml::Value,
) -> (entry: &'a mut toml::Value)
    ensures
        *entry == (match table_entries(*old(table)).get(key@) {
            Some(present) => present,
            None => default,
        }),
        table_entries(*final(table)) == table_entries(*old(table)).insert(key@, *final(entry)),
{
    table.entry(key).or_insert(default)
}

/// Calls `toml::map::Map::insert`: `item` is stored under `key`, in place
/// of any entry there; the other entries stay as they were.
#[verifier::external_body]
fn insert_entry(table: &mut toml::map::Map<String, toml::Value>, key: &str, item: toml::Value)
    ensures
        table_entries(*final(table)) == table_entries(*old(table)).insert(key@, item),
{
    table.insert(key.to_owned(), item);
}

/// Whether a value can be stored at `path` in `value`: `value` is a table,
/// and so is every value along the path that is present (missing ones are
/// created as empty tables).
pub open spec fn writable(value: toml::Value, path: Seq<Seq<char>>) -> bool
    decreases path.len(),
{
    toml_is_table(value) && (path.len() > 1 ==> match toml_entry(value, path[0]) {
        Some(entry) => writable(entry, path.drop_first()),
        None => true,
    })
}

/// Whether the key paths `a` and `b` part ways: at some position both have
/// a key, and the two keys differ.
pub open spec fn paths_part(a: Seq<Seq<char>>, b: Seq<Seq<char>>) -> bool {
    exists|i: int| 0 <= i < a.len() && i < b.len() && a[i] != b[i]
}

/// Stores `item` at the keys of `path` from position `from` on.
fn put_from(v: &mut toml::Value, path: &[&str], from: usize, item: toml::Value)
    requires
        from < path@.len(),
        writable(*old(v), key_views(path@).skip(from as int)),
    ensures
        toml_is_table(*final(v)),
        value_at(*final(v), key_views(path@).skip(from as int)) == Some(item),
        forall|other: Seq<Seq<char>>|
            paths_part(other, key_views(path@).skip(from as int)) ==> value_at(*final(v), other) == value_at(*old(v), other),
    decreases path@.len() - from,
{
    let ghost keys = key_views(path@).skip(from as int);
    let ghost before = *v;
    assert(keys[0] == path@[from as int]@);
    let table = table_inside(v);
    if from == path.len() - 1 {
        insert_entry(table, path[from], item);
        proof {
            assert(keys.drop_first().len() == 0);
            assert(toml_entry(*v, keys[0]) == Some(item));
            assert(value_at(item, keys.drop_first()) == Some(item));
            assert forall|other: Seq<Seq<char>>| paths_part(other, keys) implies value_at(*v, other) == value_at(before, other) by {
                assert(other[0] != keys[0]);
                assert(toml_entry(*v, other[0]) == toml_entry(before, other[0]));
            }
        }
    } else {
        let ghost rest = keys.drop_first();
        assert(rest =~= key_views(path@).skip(from + 1));
        let blank = table_value(empty_table());
        assert(forall|key: Seq<char>| toml_entry(blank, key) is None);
        let entry = entry_or_insert(table, path[from], blank);
        let ghost start = *entry;
        put_from(entry, path, from + 1, item);
        proof {
            assert(toml_entry(*v, keys[0]) == Some(*entry));
            assert(value_at(*entry, rest) == Some(item));
            assert forall|other: Seq<Seq<char>>| paths_part(other, keys) implies value_at(*v, other) == value_at(before, other) by {
                if other[0] != keys[0] {
                    assert(toml_entry(*v, other[0]) == toml_entry(before, other[0]));
                } else {
                    let i = choose|i: int| 0 <= i < other.len() && i < keys.len() && other[i] != keys[i];
                    assert(other.drop_first()[i - 1] != rest[i - 1]);
                    assert(paths_part(other.drop_first(), rest));
                    assert(value_at(*entry, other.drop_first()) == value_at(start, other.drop_first()));
                    assert(value_at(*v, other) == value_at(*entry, other.drop_first()));
                    if toml_entry(before, keys[0]) is None {
                        assert(toml_entry(start, other.drop_first()[0]) is None);
                        assert(value_at(start, other.drop_first()) is None);
                    }
                }
            }
        }
    }
}

/// Stores `value` at `path` in the settings document `v`, creating the
/// tables along the way: afterwards the value at `path` is `value`, and the
/// value at every key path that parts ways with `path` is what it was. The
/// path has at least one key, and the document and every value along the
/// path that is present are tables.
pub fn put(v: &mut toml::Value, path: &[&str], value: toml::Value)
    requires
        path@.len() > 0,
        writable(*old(v), key_views(path@)),
    ensures
        value_at(*final(v), key_views(path@)) == Some(value),
        forall|other: Seq<Seq<char>>|
            paths_part(other, key_views(path@)) ==> value_at(*final(v), other) == value_at(*old(v), other),
{
    assert(key_views(path@).skip(0) =~= key_views(path@));
    put_from(v, path, 0, value);
}

} // verus!
