//! The table in which overlap lists are gathered, keyed by entity: a
//! `bevy::platform::collections::HashMap`.

use bevy::platform::collections::HashMap;
use bevy::platform::hash::FixedHasher;
use vstd::prelude::*;

verus! {

/// `bevy::platform::collections::HashMap`, a hash table; nothing is said of
/// what is inside.
#[verifier::external_type_specification]
#[verifier::external_body]
#[verifier::reject_recursive_types(K)]
#[verifier::reject_recursive_types(V)]
#[verifier::reject_recursive_types(S)]
pub struct ExHashMap<K, V, S>(HashMap<K, V, S>);

/// `bevy::platform::hash::FixedHasher`, the hasher that such a table uses
/// unless told otherwise.
#[verifier::external_type_specification]
#[verifier::external_body]
pub struct ExFixedHasher(FixedHasher);

/// The keys of a table and the list stored under each.
pub uninterp spec fn table_entries(table: HashMap<u64, Vec<u64>>) -> Map<u64, Seq<u64>>;

/// `HashMap::new`: a table without entries.
#[verifier::external_body]
pub(crate) fn table_new() -> (table: HashMap<u64, Vec<u64>>)
    ensures
        table_entries(table).dom() == Set::<u64>::empty(),
{
    HashMap::new()
}

/// `HashMap::insert`: afterwards `key` leads to `list`, whatever it led to
/// before; the other entries stay.
#[verifier::external_body]
pub(crate) fn table_insert(table: &mut HashMap<u64, Vec<u64>>, key: u64, list: Vec<u64>)
    ensures
        table_entries(*final(table)) == table_entries(*old(table)).insert(key, list@),
{
    table.insert(key, list);
}

/// `HashMap::get`: a copy of the list stored under `key`, or `None` where the
/// table has no such key.
#[verifier::external_body]
pub(crate) fn table_get(table: &HashMap<u64, Vec<u64>>, key: u64) -> (list: Option<Vec<u64>>)
    ensures
        list is Some <==> table_entries(*table).contains_key(key),
        list matches Some(found) ==> found@ == table_entries(*table)[key],
{
    table.get(&key).cloned()
}

} // verus!
