//! The hash maps behind the bookkeeping of loader, trackers and cache.
//!
//! The maps are `bevy::platform::collections::HashMap`, which forwards every method to the
//! map of `hashbrown` under a fixed hasher. Verus does not look inside them. Nothing in this
//! file is proved: each function holds one call of a map's method and states, over the
//! key-value pairs that the map holds, what the documentation of that method says.

use crate::cache::PreviewCacheEntry;
use bevy::platform::collections::HashMap;
use bevy::platform::hash::FixedHasher;
use vstd::prelude::*;

verus! {

/// `bevy::platform::collections::HashMap`, as a type that Verus does not look inside.
#[verifier::external_type_specification]
#[verifier::external_body]
#[verifier::reject_recursive_types(K)]
#[verifier::reject_recursive_types(V)]
#[verifier::reject_recursive_types(S)]
pub struct ExHashMap<K, V, S>(HashMap<K, V, S>);

/// `bevy::platform::hash::FixedHasher`, the hasher of those maps, as a type that Verus does
/// not look inside.
#[verifier::external_type_specification]
#[verifier::external_body]
pub struct ExFixedHasher(FixedHasher);

/// The pairs that a map from identifiers to identifiers holds.
pub uninterp spec fn id_table(table: HashMap<u64, u64>) -> Map<u64, u64>;

/// The pairs that a map from identifiers to paths holds, each path as its characters.
pub uninterp spec fn path_table(table: HashMap<u64, String>) -> Map<u64, Seq<char>>;

/// The pairs that a map from identifiers to lists of cache keys holds, each key as its
/// characters.
pub uninterp spec fn key_list_table(table: HashMap<u64, Vec<String>>) -> Map<u64, Seq<Seq<char>>>;

/// The pairs that a map from cache keys to cache entries holds, each key as its characters.
pub uninterp spec fn entry_table(table: HashMap<String, PreviewCacheEntry>) -> Map<
    Seq<char>,
    PreviewCacheEntry,
>;

/// The characters of each string of a list.
pub open spec fn texts(list: Seq<String>) -> Seq<Seq<char>> {
    list.map_values(|s: String| s@)
}

/// `HashMap::new` of `bevy::platform::collections` makes a map that holds nothing.
#[verifier::external_body]
pub(crate) fn id_table_new() -> (table: HashMap<u64, u64>)
    ensures
        id_table(table) == (Map::<u64, u64>::empty()),
{
    HashMap::new()
}

/// `HashMap::insert` of `bevy::platform::collections` puts the value under the key, in place
/// of any value that was there, and leaves every other key as it was.
#[verifier::external_body]
pub(crate) fn id_table_insert(table: &mut HashMap<u64, u64>, key: u64, value: u64)
    ensures
        id_table(*final(table)) == id_table(*old(table)).insert(key, value),
{
    table.insert(key, value);
}

/// `HashMap::get` of `bevy::platform::collections` finds the value under the key, or nothing
/// where the map lacks the key.
#[verifier::external_body]
pub(crate) fn id_table_get(table: &HashMap<u64, u64>, key: u64) -> (found: Option<u64>)
    ensures
        found == (if id_table(*table).contains_key(key) {
            Some(id_table(*table)[key])
        } else {
            None
        }),
{
    table.get(&key).copied()
}

/// `HashMap::remove` of `bevy::platform::collections` takes the key out and leaves every other
/// key as it was.
#[verifier::external_body]
pub(crate) fn id_table_remove(table: &mut HashMap<u64, u64>, key: u64)
    ensures
        id_table(*final(table)) == id_table(*old(table)).remove(key),
{
    table.remove(&key);
}

/// `HashMap::new` of `bevy::platform::collections` makes a map that holds nothing.
#[verifier::external_body]
pub(crate) fn path_table_new() -> (table: HashMap<u64, String>)
    ensures
        path_table(table) == (Map::<u64, Seq<char>>::empty()),
{
    HashMap::new()
}

/// `HashMap::insert` of `bevy::platform::collections` puts the path under the key, in place of
/// any path that was there, and leaves every other key as it was.
#[verifier::external_body]
pub(crate) fn path_table_insert(table: &mut HashMap<u64, String>, key: u64, path: String)
    ensures
        path_table(*final(table)) == path_table(*old(table)).insert(key, path@),
{
    table.insert(key, path);
}

/// `HashMap::get` of `bevy::platform::collections` finds the path under the key, or nothing
/// where the map lacks the key.
#[verifier::external_body]
pub(crate) fn path_table_get(table: &HashMap<u64, String>, key: u64) -> (found: Option<&String>)
    ensures
        path_table(*table).contains_key(key) <==> found is Some,
        found is Some ==> found->0@ == path_table(*table)[key],
{
    table.get(&key)
}

/// `HashMap::remove` of `bevy::platform::collections` takes the key out and leaves every other
/// key as it was.
#[verifier::external_body]
pub(crate) fn path_table_remove(table: &mut HashMap<u64, String>, key: u64)
    ensures
        path_table(*final(table)) == path_table(*old(table)).remove(key),
{
    table.remove(&key);
}

/// `HashMap::len` of `bevy::platform::collections` counts the keys.
#[verifier::external_body]
pub(crate) fn path_table_len(table: &HashMap<u64, String>) -> (n: usize)
    ensures
        n == path_table(*table).dom().len(),
{
    table.len()
}

/// `HashMap::new` of `bevy::platform::collections` makes a map that holds nothing.
#[verifier::external_body]
pub(crate) fn key_list_table_new() -> (table: HashMap<u64, Vec<String>>)
    ensures
        key_list_table(table) == (Map::<u64, Seq<Seq<char>>>::empty()),
{
    HashMap::new()
}

/// `HashMap::insert` of `bevy::platform::collections` puts the list under the key, in place of
/// any list that was there, and leaves every other key as it was.
#[verifier::external_body]
pub(crate) fn key_list_table_insert(
    table: &mut HashMap<u64, Vec<String>>,
    key: u64,
    list: Vec<String>,
)
    ensures
        key_list_table(*final(table)) == key_list_table(*old(table)).insert(key, texts(list@)),
{
    table.insert(key, list);
}

/// `HashMap::get` of `bevy::platform::collections` finds the list under the key, or nothing
/// where the map lacks the key.
#[verifier::external_body]
pub(crate) fn key_list_table_get(table: &HashMap<u64, Vec<String>>, key: u64) -> (found: Option<
    &Vec<String>,
>)
    ensures
        key_list_table(*table).contains_key(key) <==> found is Some,
        found is Some ==> texts(found->0@) == key_list_table(*table)[key],
{
    table.get(&key)
}

/// `HashMap::remove` of `bevy::platform::collections` takes the key out and leaves every other
/// key as it was.
#[verifier::external_body]
pub(crate) fn key_list_table_remove(table: &mut HashMap<u64, Vec<String>>, key: u64)
    ensures
        key_list_table(*final(table)) == key_list_table(*old(table)).remove(key),
{
    table.remove(&key);
}

/// `HashMap::new` of `bevy::platform::collections` makes a map that holds nothing.
#[verifier::external_body]
pub(crate) fn entry_table_new() -> (table: HashMap<String, PreviewCacheEntry>)
    ensures
        entry_table(table) == (Map::<Seq<char>, PreviewCacheEntry>::empty()),
{
    HashMap::new()
}

/// `HashMap::insert` of `bevy::platform::collections` puts the entry under the key, in place
/// of any entry that was there, and leaves every other key as it was.
#[verifier::external_body]
pub(crate) fn entry_table_insert(
    table: &mut HashMap<String, PreviewCacheEntry>,
    key: String,
    entry: PreviewCacheEntry,
)
    ensures
        entry_table(*final(table)) == entry_table(*old(table)).insert(key@, entry),
{
    table.insert(key, entry);
}

/// `HashMap::get` of `bevy::platform::collections` finds the entry under the key, or nothing
/// where the map lacks the key.
#[verifier::external_body]
pub(crate) fn entry_table_get(table: &HashMap<String, PreviewCacheEntry>, key: &str) -> (found:
    Option<PreviewCacheEntry>)
    ensures
        found == (if entry_table(*table).contains_key(key@) {
            Some(entry_table(*table)[key@])
        } else {
            None
        }),
{
    table.get(key).copied()
}

/// `HashMap::remove` of `bevy::platform::collections` takes the key out and leaves every other
/// key as it was.
#[verifier::external_body]
pub(crate) fn entry_table_remove(table: &mut HashMap<String, PreviewCacheEntry>, key: &str)
    ensures
        entry_table(*final(table)) == entry_table(*old(table)).remove(key@),
{
    table.remove(key);
}

/// `HashMap::len` of `bevy::platform::collections` counts the keys.
#[verifier::external_body]
pub(crate) fn entry_table_len(table: &HashMap<String, PreviewCacheEntry>) -> (n: usize)
    ensures
        n == entry_table(*table).dom().len(),
{
    table.len()
}

/// `HashMap::keys` of `bevy::platform::collections` walks every key once, in an order that is
/// not stated.
#[verifier::external_body]
pub(crate) fn entry_table_keys(table: &HashMap<String, PreviewCacheEntry>) -> (keys: Vec<String>)
    ensures
        texts(keys@).no_duplicates(),
        texts(keys@).to_set() == entry_table(*table).dom(),
{
    table.keys().cloned().collect()
}

} // verus!
